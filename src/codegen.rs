//! Code generation: the hook opcode, the no-op padding after it, and the
//! trampoline that replays the overwritten instructions.
use vstd::arithmetic::div_mod::{lemma_div_denominator, lemma_mod_breakdown, lemma_mod_multiples_vanish};
use vstd::prelude::*;

use crate::err::{HookError, Result};
use crate::image::{addr_add, lemma_addr_add_assoc, le32_value, CodeImage};
use crate::ldasm::{byte_at, insn_len, lemma_byte_fields, opcode_flags, prefix_end};
use crate::manager::{sext8, Manager};
use crate::patch_info::{FunctionInfo, HookType, TrampolineData, TrampolineSite, KEEP_RAW_TRAMPOLINE, TRAMPOLINE_SIZE};

verus! {

/// The low 32 bits of `x`, little-endian.
pub open spec fn le32(x: int) -> Seq<u8> {
    seq![
        (x % 256) as u8,
        ((x / 256) % 256) as u8,
        ((x / 65536) % 256) as u8,
        ((x / 16777216) % 256) as u8,
    ]
}

/// `x` reduced to 32 bits.
pub open spec fn mod32(x: int) -> int {
    x % 0x1_0000_0000
}

/// The hook opcode of kind `kind` at `hook_address` that transfers to `target`.
pub open spec fn hook_opcode(kind: HookType, hook_address: usize, target: usize) -> Seq<u8> {
    match kind {
        HookType::Jump => seq![0xE9u8] + le32(addr_add(target as int, -addr_add(hook_address as int, 5))),
        HookType::Call => seq![0xE8u8] + le32(addr_add(target as int, -addr_add(hook_address as int, 5))),
        HookType::Push => seq![0x68u8] + le32(target as int) + seq![0xC3u8],
    }
}

/// The inert instruction of `k` bytes, for `k` in `1 ..= 7`.
pub open spec fn nop_entry(k: int) -> Seq<u8> {
    if k == 1 {
        seq![0x90u8]
    } else if k == 2 {
        seq![0x8Bu8, 0xC0]
    } else if k == 3 {
        seq![0x8Du8, 0x40, 0x00]
    } else if k == 4 {
        seq![0x8Du8, 0x74, 0x26, 0x00]
    } else if k == 5 {
        seq![0x8Bu8, 0xC0, 0x8D, 0x40, 0x00]
    } else if k == 6 {
        seq![0x8Du8, 0x80, 0x00, 0x00, 0x00, 0x00]
    } else {
        seq![0x8Du8, 0xB4, 0x26, 0x00, 0x00, 0x00, 0x00]
    }
}

/// `n` bytes of padding: 7-byte entries, then one entry for the rest.
pub open spec fn nop_fill(n: nat) -> Seq<u8>
    decreases n,
{
    if n == 0 {
        Seq::empty()
    } else if n <= 7 {
        nop_entry(n as int)
    } else {
        nop_entry(7) + nop_fill((n - 7) as nat)
    }
}

/// Whether `s` is a run of entries of the padding table.
pub open spec fn is_nop_run(s: Seq<u8>) -> bool
    decreases s.len(),
{
    if s.len() == 0 {
        true
    } else {
        exists|k: int| 1 <= k <= 7 && k <= s.len() && s.take(k) == nop_entry(k) && is_nop_run(#[trigger] s.skip(k))
    }
}

/// Padding of any length is exactly that long and made of whole entries of
/// the padding table.
pub proof fn lemma_nop_fill_exact(n: nat)
    ensures
        nop_fill(n).len() == n,
        is_nop_run(nop_fill(n)),
    decreases n,
{
    let s = nop_fill(n);
    if n == 0 {
    } else if n <= 7 {
        assert(s.take(n as int) =~= s);
        assert(s.skip(n as int) =~= Seq::<u8>::empty());
        assert(is_nop_run(s.skip(n as int)));
    } else {
        lemma_nop_fill_exact((n - 7) as nat);
        assert(s.take(7) =~= nop_entry(7));
        assert(s.skip(7) =~= nop_fill((n - 7) as nat));
    }
}

/// A 32-bit value read as signed.
pub open spec fn sext32(v: int) -> int {
    if v < 0x8000_0000 {
        v
    } else {
        v - 0x1_0000_0000
    }
}

/// Opcodes of relative branches: short conditional jumps, the short jump,
/// and the near call and jump.
pub open spec fn is_rel_branch(op: u8) -> bool {
    (0x70 <= op <= 0x7F) || op == 0xEB || op == 0xE8 || op == 0xE9
}

/// The opcode of the 32-bit-displacement form of branch `op`.
pub open spec fn long_opcode(op: u8) -> Seq<u8> {
    if 0x70 <= op <= 0x7F {
        seq![0x0Fu8, (op - 0x70 + 0x80) as u8]
    } else if op == 0xEB {
        seq![0xE9u8]
    } else {
        seq![op]
    }
}

/// The displacement of the relative branch at `ip`.
pub open spec fn branch_disp(img: CodeImage, ip: int) -> int {
    let op = img.byte(ip);
    if op == 0xE8 || op == 0xE9 {
        sext32(img.dword_at(ip + 1))
    } else {
        sext8(img.byte(ip + 1))
    }
}

/// Where the relative branch at `ip` transfers to.
pub open spec fn branch_target(img: CodeImage, ip: int) -> int {
    addr_add(addr_add(ip, img.insn_len_at(ip)), branch_disp(img, ip))
}

/// The instruction at `ip` as it reads when moved to `tip`, out of the
/// region of `size` bytes at `start`: a relative branch out of the region
/// is re-encoded in its long form to reach the same target; everything
/// else is copied as it is.
#[verifier::opaque]
pub open spec fn relocate_insn(img: CodeImage, ip: int, tip: int, start: int, size: int) -> Seq<u8> {
    let op = img.byte(ip);
    let t = branch_target(img, ip);
    if is_rel_branch(op) && !(start <= t < start + size) {
        let opc = long_opcode(op);
        opc + le32(addr_add(t, -addr_add(tip, opc.len() + 4int)))
    } else {
        img.window(ip, img.insn_len_at(ip) as nat)
    }
}

/// The relocated code of the region of `size` bytes at `start`, from
/// offset `pos` on, placed at `tip`; `None` when an instruction runs past
/// the end of the region.
pub open spec fn relocate_from(img: CodeImage, start: usize, size: int, pos: int, tip: usize) -> Option<Seq<u8>>
    decreases size - pos,
    via relocate_from_decreases
{
    if pos < 0 || pos >= size {
        Some(Seq::empty())
    } else {
        let ip = addr_add(start as int, pos);
        let len = img.insn_len_at(ip);
        if pos + len > size {
            None
        } else {
            let code = relocate_insn(img, ip, tip as int, start as int, size);
            match relocate_from(img, start, size, pos + len, addr_add(tip as int, code.len() as int) as usize) {
                Some(rest) => Some(code + rest),
                None => None,
            }
        }
    }
}

#[via_fn]
proof fn relocate_from_decreases(img: CodeImage, start: usize, size: int, pos: int, tip: usize) {
    img.lemma_insn_len_at_bounds(addr_add(start as int, pos));
}

/// The closing jump of a trampoline: `jmp dword ptr [slot]`.
pub open spec fn jump_back_code(slot: usize) -> Seq<u8> {
    seq![0xFFu8, 0x25u8] + le32(slot as int)
}

/// The full code of the trampoline for the hook `info` over the `size`
/// bytes at `hook`, built at `site`: the relocated region, then the jump
/// back, except that a call hook asked to keep its raw trampoline, whose
/// relocated code is exactly as long as the region, has its first byte
/// turned into a jump instead.
pub open spec fn trampoline_code(img: CodeImage, info: FunctionInfo, hook: usize, size: int, site: TrampolineSite) -> Option<Seq<u8>> {
    match relocate_from(img, hook, size, 0, site.code_address) {
        Some(c) => if info.hook_type == HookType::Call && c.len() == size && c.len() > 0
            && info.flags.has(KEEP_RAW_TRAMPOLINE) {
            Some(c.update(0, 0xE9u8))
        } else {
            Some(c + jump_back_code(site.jump_back_slot))
        },
        None => None,
    }
}

/// `s` filled up with zeros to the capacity of a trampoline buffer.
pub open spec fn pad_block(s: Seq<u8>) -> Seq<u8> {
    s + Seq::new((TRAMPOLINE_SIZE - s.len()) as nat, |i: int| 0u8)
}

/// The code of the trampoline that fits its block, or why it cannot be built.
pub open spec fn trampoline_outcome(img: CodeImage, info: FunctionInfo, hook: usize, size: usize, site: TrampolineSite) -> Result<Seq<u8>> {
    if size > TRAMPOLINE_SIZE {
        Err(HookError::BufferTooSmall(TRAMPOLINE_SIZE, size))
    } else {
        match trampoline_code(img, info, hook, size as int, site) {
            None => Err(HookError::BufferConversionFailed),
            Some(c) => if c.len() > TRAMPOLINE_SIZE {
                Err(HookError::BufferTooSmall(TRAMPOLINE_SIZE, c.len() as usize))
            } else {
                Ok(c)
            },
        }
    }
}

/// Whether `t` is the trampoline block built from `code` for the `size`
/// bytes at `hook`.
pub open spec fn is_trampoline_block(t: TrampolineData, img: CodeImage, code: Seq<u8>, hook: usize, size: usize, site: TrampolineSite) -> bool {
    &&& t.wf()
    &&& t.trampoline@ == pad_block(code)
    &&& t.trampoline_size == relocate_from(img, hook, size as int, 0, site.code_address)->Some_0.len()
    &&& t.original_code@ == pad_block(img.window(hook as int, size as nat))
    &&& t.original_size == size
    &&& t.jump_back_addr == addr_add(hook as int, size as int)
}

/// The length of the instruction that starts `s`: the opcode `op`, the
/// ModRM byte `modrm`, and `sib` where a SIB byte would follow.
proof fn lemma_decode_plain(s: Seq<u8>, op: u8, modrm: u8, sib: u8)
    requires
        s.len() >= 2,
        s[0] == op,
        s[1] == modrm,
        byte_at(s, 2) == sib,
        op == 0x90 || op == 0x8B || op == 0x8D,
    ensures
        op == 0x90 ==> insn_len(s) == 1,
        op != 0x90 && modrm == 0xC0 ==> insn_len(s) == 2,
        op != 0x90 && modrm == 0x40 ==> insn_len(s) == 3,
        op != 0x90 && modrm == 0x74 && sib == 0x26 ==> insn_len(s) == 4,
        op != 0x90 && modrm == 0x80 ==> insn_len(s) == 6,
        op != 0x90 && modrm == 0xB4 && sib == 0x26 ==> insn_len(s) == 7,
{
    reveal(insn_len);
    lemma_byte_fields(opcode_flags(op as int));
    lemma_byte_fields(modrm as u32);
    lemma_byte_fields(sib as u32);
    assert(prefix_end(s, 0) == 0);
}

/// The padding entries decode, by the length disassembler, as whole
/// instructions: each is one instruction of its own length, except the
/// five-byte entry, which is a two-byte instruction and a three-byte one.
pub proof fn lemma_nop_entries_decode(rest: Seq<u8>)
    ensures
        insn_len(nop_entry(1) + rest) == 1,
        insn_len(nop_entry(2) + rest) == 2,
        insn_len(nop_entry(3) + rest) == 3,
        insn_len(nop_entry(4) + rest) == 4,
        insn_len(nop_entry(5) + rest) == 2,
        insn_len(nop_entry(5).skip(2) + rest) == 3,
        insn_len(nop_entry(6) + rest) == 6,
        insn_len(nop_entry(7) + rest) == 7,
{
    let s1 = nop_entry(1) + rest;
    let s2 = nop_entry(2) + rest;
    let s3 = nop_entry(3) + rest;
    let s4 = nop_entry(4) + rest;
    let s5 = nop_entry(5) + rest;
    let s5b = nop_entry(5).skip(2) + rest;
    let s6 = nop_entry(6) + rest;
    let s7 = nop_entry(7) + rest;
    lemma_decode_plain(s2, 0x8B, 0xC0, byte_at(s2, 2));
    lemma_decode_plain(s3, 0x8D, 0x40, 0x00);
    lemma_decode_plain(s4, 0x8D, 0x74, 0x26);
    lemma_decode_plain(s5, 0x8B, 0xC0, 0x8D);
    lemma_decode_plain(s5b, 0x8D, 0x40, 0x00);
    lemma_decode_plain(s6, 0x8D, 0x80, 0x00);
    lemma_decode_plain(s7, 0x8D, 0xB4, 0x26);
    lemma_decode_nop(s1);
}

/// A lone `nop` is one byte long.
proof fn lemma_decode_nop(s: Seq<u8>)
    requires
        s.len() >= 1,
        s[0] == 0x90,
    ensures
        insn_len(s) == 1,
{
    reveal(insn_len);
    lemma_byte_fields(opcode_flags(0x90));
    assert(prefix_end(s, 0) == 0);
}

/// Reading back the four bytes of `le32(x)` gives `x` reduced to 32 bits.
pub proof fn lemma_le32_round_trip(x: int)
    requires
        0 <= x,
    ensures
        le32_value(le32(x)[0], le32(x)[1], le32(x)[2], le32(x)[3]) == mod32(x),
{
    lemma_mod_breakdown(x, 256, 0x100_0000);
    lemma_mod_breakdown(x / 256, 256, 0x1_0000);
    lemma_div_denominator(x, 256, 256);
    lemma_mod_breakdown(x / 0x1_0000, 256, 256);
    lemma_div_denominator(x, 0x1_0000, 256);
    assert(256 * 0x100_0000 == 0x1_0000_0000);
    assert(256 * 0x1_0000 == 0x100_0000);
    assert(256 * 256 == 0x1_0000);
    assert(0x1_0000 * 256 == 0x100_0000);
}

/// Address arithmetic agrees with plain arithmetic in the low 32 bits.
proof fn lemma_addr_add_mod32(a: int, d: int)
    requires
        0 <= a <= usize::MAX,
        -usize::MAX <= d <= usize::MAX,
    ensures
        mod32(addr_add(a, d)) == mod32(a + d),
{
    let m = usize::MAX + 1;
    assert(m == 0x1_0000_0000 || m == 0x1_0000_0000_0000_0000);
    let q: int = if m == 0x1_0000_0000 { 1 } else { 0x1_0000_0000 };
    assert(m == 0x1_0000_0000 * q);
    if a + d > usize::MAX {
        lemma_mod_multiples_vanish(-q, a + d, 0x1_0000_0000);
        assert(0x1_0000_0000 * (-q) + (a + d) == addr_add(a, d));
    } else if a + d < 0 {
        lemma_mod_multiples_vanish(q, a + d, 0x1_0000_0000);
        assert(0x1_0000_0000 * q + (a + d) == addr_add(a, d));
    }
}

/// Reading a 32-bit value as signed changes it by a multiple of 2^32.
proof fn lemma_sext32_mod32(v: int, a: int)
    requires
        0 <= v < 0x1_0000_0000,
    ensures
        mod32(a + sext32(v)) == mod32(a + v),
{
    if v >= 0x8000_0000 {
        lemma_mod_multiples_vanish(1, a + sext32(v), 0x1_0000_0000);
    }
}

/// A relative branch that leaves the overwritten region keeps its
/// destination in the trampoline: its long form, decoded where it stands in
/// the trampoline, transfers to the same address as the original did, and
/// every other instruction is copied byte for byte.
pub proof fn lemma_relocation_keeps_targets(img: CodeImage, ip: usize, tip: usize, start: usize, size: usize)
    ensures
        ({
            let op = img.byte(ip as int);
            let r = relocate_insn(img, ip as int, tip as int, start as int, size as int);
            let k = long_opcode(op).len() as int;
            if is_rel_branch(op) && !(start <= branch_target(img, ip as int) < start + size) {
                &&& r.len() == k + 4
                &&& r.take(k) == long_opcode(op)
                &&& mod32(tip + k + 4 + sext32(le32_value(r[k], r[k + 1], r[k + 2], r[k + 3]))) == mod32(
                    branch_target(img, ip as int),
                )
            } else {
                r == img.window(ip as int, img.insn_len_at(ip as int) as nat)
            }
        }),
{
    reveal(relocate_insn);
    let op = img.byte(ip as int);
    let t = branch_target(img, ip as int);
    if is_rel_branch(op) && !(start <= t < start + size) {
        let r = relocate_insn(img, ip as int, tip as int, start as int, size as int);
        let k = long_opcode(op).len() as int;
        let back = addr_add(tip as int, k + 4);
        let x = addr_add(t, -back);
        img.lemma_insn_len_at_bounds(ip as int);
        assert(0 <= addr_add(ip as int, img.insn_len_at(ip as int)) <= usize::MAX);
        assert(0 <= t <= usize::MAX);
        assert(0 <= back <= usize::MAX);
        assert(0 <= x <= usize::MAX);
        assert(r.take(k) =~= long_opcode(op));
        assert(r.skip(k) =~= le32(x));
        lemma_le32_round_trip(x);
        let v = le32_value(r[k], r[k + 1], r[k + 2], r[k + 3]);
        assert(v == mod32(x));
        lemma_sext32_mod32(v, tip + k + 4);
        // tip + k + 4 + v and tip + k + 4 + x agree in the low 32 bits
        lemma_mod_add_left(tip + k + 4, x);
        lemma_addr_add_mod32(t, -back);
        lemma_mod_add_left(tip + k + 4, t - back);
        lemma_addr_add_mod32(tip as int, k + 4);
        lemma_mod_sub_right(t, back, tip + k + 4);
    }
}

/// A `jmp` or `call` hook opcode, decoded at the hook address, transfers to
/// the hook target; a `push`/`ret` hook pushes the target itself.
pub proof fn lemma_hook_opcode_reaches_target(kind: HookType, hook_address: usize, target: usize)
    ensures
        ({
            let c = hook_opcode(kind, hook_address, target);
            match kind {
                HookType::Push => c.len() == 6 && c[0] == 0x68 && le32_value(c[1], c[2], c[3], c[4]) == mod32(
                    target as int,
                ) && c[5] == 0xC3,
                _ => c.len() == 5 && (c[0] == 0xE9 || c[0] == 0xE8) && mod32(
                    hook_address + 5 + sext32(le32_value(c[1], c[2], c[3], c[4])),
                ) == mod32(target as int),
            }
        }),
{
    let c = hook_opcode(kind, hook_address, target);
    match kind {
        HookType::Push => {
            lemma_le32_round_trip(target as int);
        },
        _ => {
            let back = addr_add(hook_address as int, 5);
            let x = addr_add(target as int, -back);
            assert(c.skip(1) =~= le32(x));
            lemma_le32_round_trip(x);
            let v = le32_value(c[1], c[2], c[3], c[4]);
            lemma_sext32_mod32(v, hook_address + 5);
            lemma_mod_add_left(hook_address + 5, x);
            lemma_addr_add_mod32(target as int, -back);
            lemma_mod_add_left(hook_address + 5, target - back);
            lemma_addr_add_mod32(hook_address as int, 5);
            lemma_mod_sub_right(target as int, back, hook_address + 5);
        },
    }
}

/// Adding `a` commutes with reducing the other summand to 32 bits.
proof fn lemma_mod_add_left(a: int, x: int)
    ensures
        mod32(a + mod32(x)) == mod32(a + x),
{
    vstd::arithmetic::div_mod::lemma_add_mod_noop_right(a, x, 0x1_0000_0000);
}

/// Subtracting values equal in the low 32 bits gives the same low 32 bits.
proof fn lemma_mod_sub_right(t: int, b: int, c: int)
    requires
        mod32(b) == mod32(c),
    ensures
        mod32(c + (t - b)) == mod32(t),
{
    vstd::arithmetic::div_mod::lemma_fundamental_div_mod(b, 0x1_0000_0000);
    vstd::arithmetic::div_mod::lemma_fundamental_div_mod(c, 0x1_0000_0000);
    let qb = b / 0x1_0000_0000;
    let qc = c / 0x1_0000_0000;
    assert(c + (t - b) == 0x1_0000_0000 * (qc - qb) + t) by (nonlinear_arith)
        requires
            b == 0x1_0000_0000 * qb + b % 0x1_0000_0000,
            c == 0x1_0000_0000 * qc + c % 0x1_0000_0000,
            b % 0x1_0000_0000 == c % 0x1_0000_0000,
    ;
    lemma_mod_multiples_vanish(qc - qb, t, 0x1_0000_0000);
}

/// Appends the low 32 bits of `x`, little-endian.
fn push_le32(buf: &mut Vec<u8>, x: usize)
    ensures
        final(buf)@ == old(buf)@ + le32(x as int),
{
    buf.push((x % 256) as u8);
    buf.push(((x / 256) % 256) as u8);
    buf.push(((x / 65536) % 256) as u8);
    buf.push(((x / 16777216) % 256) as u8);
    assert(final(buf)@ =~= old(buf)@ + le32(x as int));
}

/// The padding entry of `k` bytes.
fn nop_instruction(k: usize) -> (r: Vec<u8>)
    requires
        1 <= k <= 7,
    ensures
        r@ == nop_entry(k as int),
{
    let r = if k == 1 {
        vec![0x90u8]  // nop
    } else if k == 2 {
        vec![0x8Bu8, 0xC0]  // mov eax, eax
    } else if k == 3 {
        vec![0x8Du8, 0x40, 0x00]  // lea eax, [eax+0]
    } else if k == 4 {
        vec![0x8Du8, 0x74, 0x26, 0x00]  // lea esi, [esi+0]
    } else if k == 5 {
        vec![0x8Bu8, 0xC0, 0x8D, 0x40, 0x00]  // mov eax, eax; lea eax, [eax+0]
    } else if k == 6 {
        vec![0x8Du8, 0x80, 0x00, 0x00, 0x00, 0x00]  // lea eax, [eax+0] (disp32)
    } else {
        vec![0x8Du8, 0xB4, 0x26, 0x00, 0x00, 0x00, 0x00]  // lea esi, [esi+0] (disp32)
    };
    assert(r@ =~= nop_entry(k as int));
    r
}

/// Where the relative branch at `ip`, of length `len`, transfers to.
fn branch_target_of(image: &CodeImage, ip: usize, len: usize) -> (r: usize)
    requires
        len == image.insn_len_at(ip as int),
    ensures
        r == branch_target(*image, ip as int),
{
    proof {
        image.lemma_insn_len_at_bounds(ip as int);
    }
    let next_ip = ip.wrapping_add(len);
    let op = image.read_byte(ip);
    if op == 0xE8 || op == 0xE9 {
        // rel32
        let v = if ip < usize::MAX { image.read_pointer(ip + 1) } else { 0 };
        if v < 0x8000_0000 {
            next_ip.wrapping_add(v)
        } else {
            next_ip.wrapping_sub((0x1_0000_0000u64 - v as u64) as usize)
        }
    } else {
        // rel8
        let b = if ip < usize::MAX { image.read_byte(ip + 1) } else { 0 };
        let d: isize = if b < 128 { b as isize } else { b as isize - 256 };
        next_ip.wrapping_add_signed(d)
    }
}

/// Appends the long form of branch `op` placed at `tip` that reaches
/// `target`; returns the length of its opcode.
fn emit_long_branch(buf: &mut Vec<u8>, op: u8, target: usize, tip: usize) -> (r: usize)
    ensures
        r == long_opcode(op).len(),
        final(buf)@ == old(buf)@ + long_opcode(op) + le32(addr_add(target as int, -addr_add(tip as int, r + 4int))),
{
    let ghost before = buf@;
    let opc_len: usize;
    if op >= 0x70 && op <= 0x7F {
        // jcc rel8 -> jcc rel32
        buf.push(0x0F);
        buf.push(op - 0x70 + 0x80);
        opc_len = 2;
    } else if op == 0xEB {
        // jmp rel8 -> jmp rel32
        buf.push(0xE9);
        opc_len = 1;
    } else {
        buf.push(op);
        opc_len = 1;
    }
    assert(buf@ =~= before + long_opcode(op));
    let offset = target.wrapping_sub(tip.wrapping_add(opc_len + 4));
    push_le32(buf, offset);
    opc_len
}

/// `s` filled up with zeros to the capacity of a trampoline buffer.
fn into_block(s: Vec<u8>) -> (r: Vec<u8>)
    requires
        s@.len() <= TRAMPOLINE_SIZE,
    ensures
        r@ == pad_block(s@),
{
    let ghost orig = s@;
    let mut r = s;
    while r.len() < TRAMPOLINE_SIZE
        invariant
            orig.len() <= r@.len() <= TRAMPOLINE_SIZE,
            r@ == orig + Seq::new((r@.len() - orig.len()) as nat, |i: int| 0u8),
        decreases TRAMPOLINE_SIZE - r@.len(),
    {
        r.push(0);
        assert(r@ =~= orig + Seq::new((r@.len() - orig.len()) as nat, |i: int| 0u8));
    }
    assert(r@ =~= pad_block(orig));
    r
}

impl Manager {
    /// Appends the hook opcode of `info` placed at `hook_address`; returns
    /// its length.
    pub fn generate_hook_code(&self, hook_buffer: &mut Vec<u8>, hook_address: usize, info: &FunctionInfo) -> (r: usize)
        ensures
            final(hook_buffer)@ == old(hook_buffer)@ + hook_opcode(info.hook_type, hook_address, info.target),
            r == info.hook_type.opcode_len(),
            r == hook_opcode(info.hook_type, hook_address, info.target).len(),
    {
        let target = info.target;
        match info.hook_type {
            HookType::Call => {
                // call rel32
                let offset = target.wrapping_sub(hook_address.wrapping_add(5));
                hook_buffer.push(0xE8);
                push_le32(hook_buffer, offset);
            },
            HookType::Jump => {
                // jmp rel32
                let offset = target.wrapping_sub(hook_address.wrapping_add(5));
                hook_buffer.push(0xE9);
                push_le32(hook_buffer, offset);
            },
            HookType::Push => {
                // push imm32; ret
                hook_buffer.push(0x68);
                push_le32(hook_buffer, target);
                hook_buffer.push(0xC3);
            },
        }
        assert(final(hook_buffer)@ =~= old(hook_buffer)@ + hook_opcode(info.hook_type, hook_address, info.target));
        info.hook_type.size_of_opcode()
    }

    /// Appends `nop_size` bytes of inert instructions.
    pub fn patch_nop(&self, nop_buffer: &mut Vec<u8>, nop_size: usize)
        ensures
            final(nop_buffer)@ == old(nop_buffer)@ + nop_fill(nop_size as nat),
    {
        let mut remaining = nop_size;
        while remaining > 0
            invariant
                old(nop_buffer)@ + nop_fill(nop_size as nat) == nop_buffer@ + nop_fill(remaining as nat),
            decreases remaining,
        {
            let k = if remaining < 7 { remaining } else { 7 };
            let entry = nop_instruction(k);
            let ghost before = nop_buffer@;
            let mut i: usize = 0;
            while i < entry.len()
                invariant
                    nop_buffer@ == before + entry@.take(i as int),
                    i <= entry@.len(),
                decreases entry.len() - i,
            {
                nop_buffer.push(entry[i]);
                assert(entry@.take(i + 1) =~= entry@.take(i as int).push(entry@[i as int]));
                i += 1;
            }
            assert(entry@.take(i as int) =~= entry@);
            assert(nop_fill(remaining as nat) =~= entry@ + nop_fill((remaining - k) as nat));
            remaining -= k;
        }
        assert(nop_buffer@ + nop_fill(0) =~= nop_buffer@);
    }
    /// Appends the instruction at `source_ip`, relocated to `target_ip` out
    /// of the region of `region_size` bytes at `region_start`, of which
    /// `source_size` bytes are left from `source_ip` on; returns its
    /// original length and the number of bytes appended. An instruction
    /// longer than what is left of the region is refused, and nothing is
    /// appended.
    pub fn copy_one_opcode(
        &self,
        buf: &mut Vec<u8>,
        image: &CodeImage,
        target_ip: usize,
        source_ip: usize,
        source_size: usize,
        region_start: usize,
        region_size: usize,
    ) -> (r: Result<(usize, usize)>)
        ensures
            image.insn_len_at(source_ip as int) > source_size ==> r == Err::<(usize, usize), HookError>(
                HookError::BufferConversionFailed,
            ) && final(buf)@ == old(buf)@,
            image.insn_len_at(source_ip as int) <= source_size ==> {
                &&& r is Ok
                &&& r->Ok_0.0 == image.insn_len_at(source_ip as int)
                &&& final(buf)@ == old(buf)@ + relocate_insn(
                    *image,
                    source_ip as int,
                    target_ip as int,
                    region_start as int,
                    region_size as int,
                )
                &&& r->Ok_0.1 == relocate_insn(
                    *image,
                    source_ip as int,
                    target_ip as int,
                    region_start as int,
                    region_size as int,
                ).len()
            },
    {
        reveal(relocate_insn);
        let opcode_size = image.opcode_size_at(source_ip);
        proof {
            image.lemma_insn_len_at_bounds(source_ip as int);
        }
        if opcode_size > source_size {
            return Err(HookError::BufferConversionFailed);
        }
        let op = image.read_byte(source_ip);
        let is_branch = (op >= 0x70 && op <= 0x7F) || op == 0xEB || op == 0xE8 || op == 0xE9;
        let orig_target = branch_target_of(image, source_ip, opcode_size);
        let inside = orig_target >= region_start && orig_target - region_start < region_size;
        let ghost before = buf@;
        if is_branch && !inside {
            let opc_len = emit_long_branch(buf, op, orig_target, target_ip);
            Ok((opcode_size, opc_len + 4))
        } else {
            let code = image.read_bytes(source_ip, opcode_size);
            let mut i: usize = 0;
            while i < code.len()
                invariant
                    buf@ == before + code@.take(i as int),
                    i <= code@.len(),
                decreases code.len() - i,
            {
                buf.push(code[i]);
                assert(code@.take(i + 1) =~= code@.take(i as int).push(code@[i as int]));
                i += 1;
            }
            assert(code@.take(i as int) =~= code@);
            Ok((opcode_size, opcode_size))
        }
    }
    /// Appends the relocated code of the `source_size` bytes at
    /// `source_address`, placed at `target_ip`; fails when an instruction
    /// runs past the end of that region.
    #[verifier::rlimit(40)]
    pub fn generate_trampoline_code(
        &self,
        buf: &mut Vec<u8>,
        image: &CodeImage,
        target_ip: usize,
        source_address: usize,
        source_size: usize,
    ) -> (r: Result<usize>)
        ensures
            match relocate_from(*image, source_address, source_size as int, 0, target_ip) {
                Some(c) => r is Ok && r->Ok_0 == c.len() && final(buf)@ == old(buf)@ + c,
                None => r == Err::<usize, HookError>(HookError::BufferConversionFailed),
            },
    {
        let ghost before = buf@;
        let ghost mut out: Seq<u8> = Seq::empty();
        let start_len = buf.len();
        let mut pos: usize = 0;
        let mut tip = target_ip;
        while pos < source_size
            invariant
                pos <= source_size,
                start_len == before.len(),
                buf@ == before + out,
                tip == addr_add(target_ip as int, out.len() as int),
                relocate_from(*image, source_address, source_size as int, 0, target_ip) == match relocate_from(
                    *image,
                    source_address,
                    source_size as int,
                    pos as int,
                    tip,
                ) {
                    Some(rest) => Some(out + rest),
                    None => None,
                },
            decreases source_size - pos,
        {
            let ip = source_address.wrapping_add(pos);
            let (opcode_size, _) = match self.copy_one_opcode(
                buf,
                image,
                tip,
                ip,
                source_size - pos,
                source_address,
                source_size,
            ) {
                Ok(sizes) => sizes,
                Err(e) => {
                    return Err(e);
                },
            };
            let ghost code = relocate_insn(*image, ip as int, tip as int, source_address as int, source_size as int);
            proof {
                image.lemma_insn_len_at_bounds(ip as int);
            }
            let emitted = buf.len() - start_len;
            proof {
                lemma_addr_add_assoc(target_ip as int, out.len() as int, code.len() as int);
                assert(out + code + relocate_from(*image, source_address, source_size as int, pos + opcode_size, addr_add(tip as int, code.len() as int) as usize)->Some_0
                    == out + (code + relocate_from(*image, source_address, source_size as int, pos + opcode_size, addr_add(tip as int, code.len() as int) as usize)->Some_0));
                out = out + code;
            }
            pos += opcode_size;
            tip = target_ip.wrapping_add(emitted);
        }
        assert(buf@.len() - start_len == out.len());
        Ok(buf.len() - start_len)
    }

    /// Appends the closing jump through the slot at `jump_back_address`.
    pub fn generate_jump_back(&self, buf: &mut Vec<u8>, jump_back_address: usize)
        ensures
            final(buf)@ == old(buf)@ + jump_back_code(jump_back_address),
    {
        buf.push(0xFF);
        buf.push(0x25);
        push_le32(buf, jump_back_address);
        assert(final(buf)@ =~= old(buf)@ + jump_back_code(jump_back_address));
    }
    /// Builds the trampoline for the hook `info` over the `hook_size` bytes
    /// at `hook_address`, to run at `site`.
    pub fn generate_trampoline(
        &self,
        image: &CodeImage,
        info: &FunctionInfo,
        hook_address: usize,
        hook_size: usize,
        site: TrampolineSite,
    ) -> (r: Result<TrampolineData>)
        ensures
            match trampoline_outcome(*image, *info, hook_address, hook_size, site) {
                Err(e) => r == Err::<TrampolineData, HookError>(e),
                Ok(c) => r is Ok && is_trampoline_block(r->Ok_0, *image, c, hook_address, hook_size, site),
            },
    {
        if hook_size > TRAMPOLINE_SIZE {
            return Err(HookError::BufferTooSmall(TRAMPOLINE_SIZE, hook_size));
        }
        let mut code: Vec<u8> = Vec::new();
        let trampoline_size = match self.generate_trampoline_code(
            &mut code,
            image,
            site.code_address,
            hook_address,
            hook_size,
        ) {
            Ok(n) => n,
            Err(e) => {
                return Err(e);
            },
        };
        let ghost relocated = code@;
        assert(relocate_from(*image, hook_address, hook_size as int, 0, site.code_address) == Some(relocated));
        assert(trampoline_size == relocated.len());
        if info.hook_type == HookType::Call && trampoline_size == hook_size && trampoline_size > 0
            && info.flags.contains(KEEP_RAW_TRAMPOLINE) {
            // the call stub continues directly: call -> jmp
            code.set(0, 0xE9);
            assert(code@ =~= relocated.update(0, 0xE9u8));
        } else {
            self.generate_jump_back(&mut code, site.jump_back_slot);
        }
        assert(trampoline_code(*image, *info, hook_address, hook_size as int, site) == Some(code@));
        if code.len() > TRAMPOLINE_SIZE {
            return Err(HookError::BufferTooSmall(TRAMPOLINE_SIZE, code.len()));
        }
        let original = image.read_bytes(hook_address, hook_size);
        Ok(TrampolineData {
            trampoline: into_block(code),
            original_code: into_block(original),
            trampoline_size,
            original_size: hook_size,
            jump_back_addr: hook_address.wrapping_add(hook_size),
        })
    }
}

} // verus!
