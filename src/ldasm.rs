//! Length disassembler for 32-bit x86 code.
//!
//! The length of one instruction is found from a compact opcode table,
//! without decoding the instruction fully. Bytes past the end of the given
//! buffer read as zero, so the result is exact whenever the instruction lies
//! inside the buffer.
use vstd::prelude::*;

verus! {

/// The immediate-size bits (low three) of an opcode's flags.
pub const OP_X86_DATA_I8: u32 = 0x01;
/// The opcode is followed by a ModRM byte.
pub const OP_X86_MODRM: u32 = 0x08;
/// The opcode carries an immediate of 4 bytes, 2 under an operand-size override.
pub const OP_X86_DATA_PRE66_67: u32 = 0x10;
/// The byte is a legacy prefix.
pub const OP_X86_PREFIX: u32 = 0x20;
/// Marks a second opcode byte that followed the `0F` escape.
pub const OP_X86_EXTENDED: u32 = 0x100;

/// Two-level opcode table: entry `op / 4` gives the row where the flags of
/// opcodes `op & !3 .. op | 3` start.
pub const PACKED_TABLE: [u8; 256] = [
    0x80, 0x84, 0x80, 0x84, 0x80, 0x84, 0x80, 0x84, 0x80, 0x88, 0x80, 0x88, 0x80, 0x88, 0x80, 0x88,
    0x8c, 0x8b, 0x8b, 0x8b, 0x8b, 0x8b, 0x8b, 0x8b, 0x90, 0x94, 0x98, 0x8b, 0x9c, 0x9c, 0x9c, 0x9c,
    0xa0, 0x80, 0x80, 0x80, 0x8b, 0x8b, 0xa4, 0x8b, 0xa8, 0x8b, 0x84, 0x8b, 0xac, 0xac, 0xa8, 0xa8,
    0xb0, 0xb4, 0xb8, 0xbc, 0x80, 0xc0, 0x80, 0x80, 0x9c, 0xac, 0xc4, 0x8b, 0xc8, 0x90, 0x8b, 0x90,
    0x80, 0x8b, 0x8b, 0xcc, 0x80, 0x80, 0x80, 0x80, 0x80, 0xd4, 0x80, 0x80, 0x8b, 0x8b, 0x8b, 0x8b,
    0x80, 0x80, 0x80, 0x80, 0x80, 0x80, 0x80, 0x80, 0x80, 0x80, 0x80, 0x80, 0xd8, 0xdc, 0x8b, 0x80,
    0xe0, 0xe0, 0xe0, 0xe0, 0x80, 0x80, 0x80, 0x80, 0x8f, 0xcf, 0x8f, 0xdb, 0x80, 0x80, 0xe4, 0x80,
    0xe8, 0xd9, 0x8b, 0x8b, 0x80, 0x80, 0x80, 0x80, 0x80, 0x80, 0x80, 0x80, 0x80, 0x80, 0x80, 0xdc,
    0x08, 0x08, 0x08, 0x08, 0x01, 0x10, 0x00, 0x00, 0x01, 0x10, 0x20, 0x00, 0x00, 0x00, 0x00, 0x00,
    0x00, 0x00, 0x08, 0x08, 0x20, 0x20, 0x20, 0x20, 0x10, 0x18, 0x01, 0x09, 0x81, 0x81, 0x81, 0x81,
    0x09, 0x18, 0x09, 0x09, 0x00, 0x00, 0x12, 0x00, 0x10, 0x10, 0x10, 0x10, 0x01, 0x01, 0x01, 0x01,
    0x09, 0x09, 0x02, 0x00, 0x08, 0x08, 0x09, 0x18, 0x03, 0x00, 0x02, 0x00, 0x00, 0x01, 0x00, 0x00,
    0x01, 0x01, 0x00, 0x00, 0x50, 0x50, 0x12, 0x81, 0x20, 0x00, 0x20, 0x20, 0x00, 0x08, 0x00, 0x09,
    0x08, 0x00, 0x00, 0x00, 0x08, 0x00, 0x08, 0x00, 0x09, 0x09, 0x09, 0x09, 0x08, 0x08, 0x08, 0x00,
    0x50, 0x50, 0x50, 0x50, 0x00, 0x00, 0x09, 0x08, 0x08, 0x08, 0x09, 0x08, 0x00, 0x00, 0x00, 0x00,
    0x00, 0x00, 0x00, 0x00, 0x00, 0x00, 0x00, 0x00, 0x00, 0x00, 0x00, 0x00, 0x00, 0x00, 0x00, 0x00,
];

/// The byte at `i`, or zero past either end of `s`.
pub open spec fn byte_at(s: Seq<u8>, i: int) -> u8 {
    if 0 <= i < s.len() {
        s[i]
    } else {
        0
    }
}

/// Flags of a one-byte opcode (`op < 0x100`) or of an `0F`-escaped one
/// (`op == 0x100 | second byte`).
pub open spec fn opcode_flags(op: int) -> u32 {
    byte_at(PACKED_TABLE@, byte_at(PACKED_TABLE@, op / 4) + op % 4) as u32
}

pub open spec fn is_prefix_byte(b: u8) -> bool {
    opcode_flags(b as int) & OP_X86_PREFIX != 0
}

/// Position of the first byte at or after `i` that is not a legacy prefix.
pub open spec fn prefix_end(s: Seq<u8>, i: nat) -> nat
    decreases s.len() - i,
{
    if i < s.len() && is_prefix_byte(s[i as int]) {
        prefix_end(s, i + 1)
    } else {
        i
    }
}

/// Whether byte `b` occurs among the first `end` bytes of `s`.
pub open spec fn seen_before(s: Seq<u8>, end: int, b: u8) -> bool {
    exists|j: int| 0 <= j < end && s[j] == b
}

/// Bytes of ModRM addressing that follow the ModRM byte itself: the SIB byte
/// and the displacement.
pub open spec fn addressing_len(md: u32, rm: u32, addr16: bool, sib: u32) -> int {
    let disp = if md == 0 {
        if addr16 {
            if rm == 6 { 2int } else { 0int }
        } else {
            if rm == 5 { 4int } else { 0int }
        }
    } else if md == 1 {
        1int
    } else if md == 2 {
        if addr16 { 2int } else { 4int }
    } else {
        0int
    };
    if !addr16 && rm == 4 && md != 3 {
        (if sib & 7 == 5 && md != 1 { 4int } else { disp }) + 1
    } else {
        disp
    }
}

/// The length of the 32-bit x86 instruction that `s` starts with.
#[verifier::opaque]
pub open spec fn insn_len(s: Seq<u8>) -> int {
    let p = prefix_end(s, 0) as int;
    let op1 = byte_at(s, p) as u32;
    let escaped = op1 == 0x0F;
    let op2: u32 = if escaped { (byte_at(s, p + 1) as u32) | OP_X86_EXTENDED } else { op1 };
    let m = if escaped { p + 2 } else { p + 1 };
    let pfx66 = seen_before(s, p, 0x66);
    let pfx67 = seen_before(s, p, 0x67);
    let imm16 = if !escaped && 0xA0 <= op1 <= 0xA3 { pfx67 } else { pfx66 };
    let base = opcode_flags(op2 as int);
    let has_modrm = base & OP_X86_MODRM != 0;
    let v = byte_at(s, m) as u32;
    let reg = (v & 0x38) >> 3;
    let flags = if has_modrm && op1 == 0xF6 && reg == 0 {
        base | OP_X86_DATA_I8
    } else if has_modrm && op1 == 0xF7 && reg == 0 {
        base | OP_X86_DATA_PRE66_67
    } else {
        base
    };
    let modrm_len = if has_modrm {
        1 + addressing_len(v >> 6, v & 7, pfx67, (byte_at(s, m + 1) as u32))
    } else {
        0
    };
    let imm = if flags & OP_X86_DATA_PRE66_67 != 0 {
        if imm16 { 2int } else { 4int }
    } else {
        0int
    };
    m + modrm_len + imm + (flags & 7) as int
}

proof fn lemma_low_bits(f: u32)
    ensures
        f & 7 <= 7,
{
    assert(f & 7 <= 7) by (bit_vector);
}

/// The flag tests and ModRM fields of a byte, as arithmetic.
pub proof fn lemma_byte_fields(f: u32)
    requires
        f < 256,
    ensures
        (f & OP_X86_PREFIX != 0) == ((f / 32) % 2 == 1),
        (f & OP_X86_MODRM != 0) == ((f / 8) % 2 == 1),
        (f & OP_X86_DATA_PRE66_67 != 0) == ((f / 16) % 2 == 1),
        f & 7 == f % 8,
        f >> 6 == f / 64,
        (f & 0x38) >> 3 == (f / 8) % 8,
{
    assert((f & 0x20 != 0) == ((f / 32) % 2 == 1)) by (bit_vector)
        requires
            f < 256,
    ;
    assert((f & 0x08 != 0) == ((f / 8) % 2 == 1)) by (bit_vector)
        requires
            f < 256,
    ;
    assert((f & 0x10 != 0) == ((f / 16) % 2 == 1)) by (bit_vector)
        requires
            f < 256,
    ;
    assert(f & 7 == f % 8) by (bit_vector);
    assert(f >> 6 == f / 64) by (bit_vector);
    assert((f & 0x38) >> 3 == (f / 8) % 8) by (bit_vector);
}

/// Zero is no prefix, so the prefix scan stops at the end of any buffer.
proof fn lemma_zero_not_prefix()
    ensures
        !is_prefix_byte(0),
{
    assert(PACKED_TABLE@[0] == 0x80);
    assert(PACKED_TABLE@[0x80] == 0x08);
    assert(0x08u32 & 0x20u32 == 0) by (bit_vector);
}

proof fn lemma_prefix_end_bounds(s: Seq<u8>, i: nat)
    ensures
        i <= prefix_end(s, i),
        i <= s.len() ==> prefix_end(s, i) <= s.len(),
        !is_prefix_byte(byte_at(s, prefix_end(s, i) as int)),
    decreases s.len() - i,
{
    lemma_zero_not_prefix();
    if i < s.len() && is_prefix_byte(s[i as int]) {
        lemma_prefix_end_bounds(s, i + 1);
    }
}

/// Every instruction is at least one byte long and reads at most 19 bytes
/// past the end of the buffer.
pub proof fn lemma_insn_len_bounds(s: Seq<u8>)
    ensures
        1 <= insn_len(s) <= s.len() + 19,
{
    reveal(insn_len);
    lemma_prefix_end_bounds(s, 0);
    let p = prefix_end(s, 0) as int;
    let op1 = byte_at(s, p) as u32;
    let escaped = op1 == 0x0F;
    let op2: u32 = if escaped { (byte_at(s, p + 1) as u32) | OP_X86_EXTENDED } else { op1 };
    let base = opcode_flags(op2 as int);
    let m = if escaped { p + 2 } else { p + 1 };
    let v = byte_at(s, m) as u32;
    let reg = (v & 0x38) >> 3;
    let has_modrm = base & OP_X86_MODRM != 0;
    let flags = if has_modrm && op1 == 0xF6 && reg == 0 {
        base | OP_X86_DATA_I8
    } else if has_modrm && op1 == 0xF7 && reg == 0 {
        base | OP_X86_DATA_PRE66_67
    } else {
        base
    };
    lemma_low_bits(flags);
}

fn table_entry(i: usize) -> (r: u8)
    ensures
        r == byte_at(PACKED_TABLE@, i as int),
{
    if i < 256 {
        PACKED_TABLE[i]
    } else {
        0
    }
}

fn get_opcode_flags_32(opcode: u32) -> (r: u32)
    ensures
        r == opcode_flags(opcode as int),
{
    let row = table_entry((opcode / 4) as usize);
    table_entry(row as usize + (opcode % 4) as usize) as u32
}

/// The byte at `i` of `buffer`, or zero past its end.
fn read_byte(buffer: &[u8], i: usize) -> (r: u32)
    ensures
        r == byte_at(buffer@, i as int) as u32,
{
    if i < buffer.len() {
        buffer[i] as u32
    } else {
        0
    }
}

/// Skips the legacy prefixes; returns the position of the opcode byte and
/// whether the operand-size and address-size overrides were among them.
fn scan_prefixes(buffer: &[u8]) -> (r: (usize, bool, bool))
    requires
        buffer@.len() <= isize::MAX,
    ensures
        r.0 == prefix_end(buffer@, 0),
        r.0 <= buffer@.len(),
        r.1 == seen_before(buffer@, r.0 as int, 0x66),
        r.2 == seen_before(buffer@, r.0 as int, 0x67),
{
    let ghost s = buffer@;
    let mut code: usize = 0;
    let mut pfx66 = false;
    let mut pfx67 = false;
    proof {
        lemma_prefix_end_bounds(s, 0);
        lemma_zero_not_prefix();
    }
    let mut op1 = read_byte(buffer, code);
    while (get_opcode_flags_32(op1) & OP_X86_PREFIX) != 0
        invariant
            s == buffer@,
            s.len() <= isize::MAX,
            code <= s.len(),
            prefix_end(s, code as nat) == prefix_end(s, 0),
            op1 == byte_at(s, code as int) as u32,
            pfx66 == seen_before(s, code as int, 0x66),
            pfx67 == seen_before(s, code as int, 0x67),
            !is_prefix_byte(0),
        decreases s.len() - code,
    {
        assert(code < s.len());
        if op1 == 0x66 {
            pfx66 = true;
        } else if op1 == 0x67 {
            pfx67 = true;
        }
        assert(seen_before(s, code + 1, 0x66) == (seen_before(s, code as int, 0x66) || s[code as int] == 0x66));
        assert(seen_before(s, code + 1, 0x67) == (seen_before(s, code as int, 0x67) || s[code as int] == 0x67));
        code += 1;
        op1 = read_byte(buffer, code);
    }
    (code, pfx66, pfx67)
}

/// Bytes of SIB and displacement after the ModRM byte `v` found at `code - 1`.
fn get_addressing_size(buffer: &[u8], code: usize, v: u32, pfx67: bool) -> (r: usize)
    ensures
        r == addressing_len(v >> 6, v & 7, pfx67, byte_at(buffer@, code as int) as u32),
        r <= 5,
{
    let i_mod = v >> 6;
    let i_rm = v & 7;
    let mut oflen: usize = 0;
    if i_mod == 0 {
        if pfx67 {
            if i_rm == 6 {
                oflen = 2;
            }
        } else {
            if i_rm == 5 {
                oflen = 4;
            }
        }
    } else if i_mod == 1 {
        oflen = 1;
    } else if i_mod == 2 {
        oflen = if pfx67 { 2 } else { 4 };
    }
    if !pfx67 && i_rm == 4 && i_mod != 3 {
        if (read_byte(buffer, code) & 7) == 5 && i_mod != 1 {
            oflen = 4;
        }
        oflen += 1;
    }
    oflen
}

/// Length in bytes of the 32-bit x86 instruction at the start of `buffer`.
/// The bound on the buffer is the one every Rust slice obeys.
pub fn get_opcode_size_32(buffer: &[u8]) -> (r: usize)
    requires
        buffer@.len() <= isize::MAX,
    ensures
        r == insn_len(buffer@),
        1 <= r <= buffer@.len() + 19,
{
    reveal(insn_len);
    let (p, pfx66, pfx67) = scan_prefixes(buffer);
    let op1 = read_byte(buffer, p);
    let mut code: usize = p + 1;
    let mut osize: usize = code;
    let op2: u32;
    let mut imm16 = pfx66;
    if op1 == 0x0F {
        op2 = read_byte(buffer, code) | OP_X86_EXTENDED;
        code += 1;
        osize += 1;
    } else {
        op2 = op1;
        // moffs forms take their size from the address-size override
        if op2 >= 0xA0 && op2 <= 0xA3 {
            imm16 = pfx67;
        }
    }

    let mut flags = get_opcode_flags_32(op2);

    if flags & OP_X86_MODRM != 0 {
        let v = read_byte(buffer, code);
        code += 1;
        osize += 1;
        let i_reg = (v & 0x38) >> 3;
        if op1 == 0xF6 && i_reg == 0 {
            flags = flags | OP_X86_DATA_I8;
        } else if op1 == 0xF7 && i_reg == 0 {
            flags = flags | OP_X86_DATA_PRE66_67;
        }
        osize += get_addressing_size(buffer, code, v, pfx67);
    }

    if flags & OP_X86_DATA_PRE66_67 != 0 {
        osize += if imm16 { 2 } else { 4 };
    }

    proof {
        lemma_low_bits(flags);
    }
    osize + ((flags & 7) as usize)
}

/// Length in bytes of the instruction at the start of `buffer`: the
/// library decodes the 32-bit instruction set.
pub fn get_opcode_size(buffer: &[u8]) -> (r: usize)
    requires
        buffer@.len() <= isize::MAX,
    ensures
        r == insn_len(buffer@),
        1 <= r <= buffer@.len() + 19,
{
    get_opcode_size_32(buffer)
}

} // verus!
