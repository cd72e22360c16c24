//! A snapshot of process memory that the analysis and the trampoline
//! generator read code and pointers from.
use vstd::prelude::*;

use crate::ldasm::{get_opcode_size, insn_len, lemma_insn_len_bounds};

verus! {

/// Bytes of window read for one instruction; no 32-bit instruction is longer.
pub const INSN_WINDOW: usize = 16;

/// `a + d` in the address space, wrapping around its end.
pub open spec fn addr_add(a: int, d: int) -> int {
    if a + d > usize::MAX {
        a + d - (usize::MAX + 1)
    } else if a + d < 0 {
        a + d + (usize::MAX + 1)
    } else {
        a + d
    }
}

/// Adding in two steps is adding the sum, when no step goes around twice.
pub proof fn lemma_addr_add_assoc(a: int, x: int, y: int)
    requires
        0 <= a <= usize::MAX,
        0 <= x,
        0 <= y,
        x + y <= usize::MAX,
    ensures
        addr_add(addr_add(a, x), y) == addr_add(a, x + y),
        0 <= addr_add(a, x) <= usize::MAX,
{
}

/// Little-endian value of four bytes.
pub open spec fn le32_value(b0: u8, b1: u8, b2: u8, b3: u8) -> int {
    b0 + 256 * b1 + 65536 * b2 + 16777216 * b3
}

/// Bytes of memory starting at `base`; every address outside reads as zero.
#[derive(Debug)]
pub struct CodeImage {
    pub base: usize,
    pub bytes: Vec<u8>,
}

impl CodeImage {
    /// The byte at address `a`.
    pub open spec fn byte(&self, a: int) -> u8 {
        if self.base <= a <= usize::MAX && a < self.base + self.bytes@.len() {
            self.bytes@[a - self.base]
        } else {
            0
        }
    }

    /// The `n` bytes at addresses `a ..`.
    pub open spec fn window(&self, a: int, n: nat) -> Seq<u8> {
        Seq::new(n, |k: int| self.byte(a + k))
    }

    /// Length of the instruction at address `a`.
    pub open spec fn insn_len_at(&self, a: int) -> int {
        insn_len(self.window(a, INSN_WINDOW as nat))
    }

    /// The 32-bit little-endian value (a pointer of the target) at address `a`.
    pub open spec fn dword_at(&self, a: int) -> int {
        le32_value(self.byte(a), self.byte(a + 1), self.byte(a + 2), self.byte(a + 3))
    }

    pub proof fn lemma_insn_len_at_bounds(&self, a: int)
        ensures
            1 <= self.insn_len_at(a) <= INSN_WINDOW + 19,
    {
        lemma_insn_len_bounds(self.window(a, INSN_WINDOW as nat));
    }

    pub fn new(base: usize, bytes: Vec<u8>) -> (r: CodeImage)
        ensures
            r.base == base,
            r.bytes@ == bytes@,
    {
        CodeImage { base, bytes }
    }

    /// The byte at address `a`.
    pub fn read_byte(&self, a: usize) -> (r: u8)
        ensures
            r == self.byte(a as int),
    {
        if a >= self.base && a - self.base < self.bytes.len() {
            self.bytes[a - self.base]
        } else {
            0
        }
    }

    /// The `n` bytes at addresses `a ..`.
    pub fn read_bytes(&self, a: usize, n: usize) -> (r: Vec<u8>)
        ensures
            r@ == self.window(a as int, n as nat),
    {
        let mut out: Vec<u8> = Vec::new();
        let mut k: usize = 0;
        while k < n
            invariant
                k <= n,
                out@ == self.window(a as int, k as nat),
            decreases n - k,
        {
            let b = if a <= usize::MAX - k {
                self.read_byte(a + k)
            } else {
                0
            };
            out.push(b);
            assert(out@ =~= self.window(a as int, (k + 1) as nat));
            k += 1;
        }
        out
    }

    /// The pointer stored at address `a` (four bytes, little-endian).
    pub fn read_pointer(&self, a: usize) -> (r: usize)
        ensures
            r == self.dword_at(a as int),
    {
        let w = self.read_bytes(a, 4);
        assert(w@[1] == self.byte(a + 1) && w@[2] == self.byte(a + 2) && w@[3] == self.byte(a + 3));
        w[0] as usize + 256 * (w[1] as usize) + 65536 * (w[2] as usize) + 16777216 * (w[3] as usize)
    }

    /// Length of the instruction at address `a`.
    pub fn opcode_size_at(&self, a: usize) -> (r: usize)
        ensures
            r == self.insn_len_at(a as int),
            1 <= r <= INSN_WINDOW + 19,
    {
        let window = self.read_bytes(a, INSN_WINDOW);
        get_opcode_size(window.as_slice())
    }
}

} // verus!
