//! Decoding of unsigned integers from little- and big-endian bytes.
use vstd::prelude::*;

use crate::ldasm::byte_at;

verus! {

/// The byte order selector for little-endian numbers.
pub const LITTLE_ENDIAN: u32 = 1;
/// The byte order selector for big-endian numbers.
pub const BIG_ENDIAN: u32 = 2;

/// `256` to the power `n`.
pub open spec fn pow256(n: nat) -> nat
    decreases n,
{
    if n == 0 {
        1
    } else {
        256 * pow256((n - 1) as nat)
    }
}

/// The number whose little-endian bytes are `s`.
pub open spec fn le_value(s: Seq<u8>) -> nat
    decreases s.len(),
{
    if s.len() == 0 {
        0
    } else {
        s[0] as nat + 256 * le_value(s.skip(1))
    }
}

/// The number whose big-endian bytes are `s`.
pub open spec fn be_value(s: Seq<u8>) -> nat
    decreases s.len(),
{
    if s.len() == 0 {
        0
    } else {
        256 * be_value(s.take(s.len() - 1)) + s[s.len() - 1] as nat
    }
}

/// The first `n` bytes of `b`, zero past its end: what a short read leaves
/// in a zeroed buffer.
pub open spec fn head(b: Seq<u8>, n: nat) -> Seq<u8> {
    Seq::new(n, |i: int| byte_at(b, i))
}

/// The number of `size` bytes in byte order `order` at the start of `b`.
pub open spec fn number_of(b: Seq<u8>, size: nat, order: u32) -> nat {
    if order == LITTLE_ENDIAN {
        le_value(head(b, size))
    } else {
        be_value(head(b, size))
    }
}

proof fn lemma_le_value_bound(s: Seq<u8>)
    ensures
        le_value(s) < pow256(s.len()),
    decreases s.len(),
{
    if s.len() > 0 {
        lemma_le_value_bound(s.skip(1));
    }
}

proof fn lemma_be_value_bound(s: Seq<u8>)
    ensures
        be_value(s) < pow256(s.len()),
    decreases s.len(),
{
    if s.len() > 0 {
        lemma_be_value_bound(s.take(s.len() - 1));
    }
}

/// A number of `size` bytes never needs more than `size` bytes.
pub proof fn lemma_number_bound(b: Seq<u8>, size: nat, order: u32)
    ensures
        number_of(b, size, order) < pow256(size),
{
    lemma_le_value_bound(head(b, size));
    lemma_be_value_bound(head(b, size));
}

fn read_at(bytes: &[u8], i: usize) -> (r: u8)
    ensures
        r == byte_at(bytes@, i as int),
{
    if i < bytes.len() {
        bytes[i]
    } else {
        0
    }
}

/// The number of `size` bytes in byte order `order` at the start of
/// `bytes`; missing bytes count as zero.
pub fn read_number(bytes: &[u8], size: usize, order: u32) -> (r: u64)
    requires
        size <= 8,
    ensures
        r == number_of(bytes@, size as nat, order),
{
    let ghost h = head(bytes@, size as nat);
    proof {
        lemma_pow256_values();
    }
    if order == LITTLE_ENDIAN {
        let mut v: u64 = 0;
        let mut i: usize = size;
        assert(h.skip(size as int) =~= Seq::<u8>::empty());
        while i > 0
            invariant
                i <= size <= 8,
                v == le_value(h.skip(i as int)),
                v < pow256((size - i) as nat),
                h == head(bytes@, size as nat),
                pow256(8) == 0x1_0000_0000_0000_0000,
            decreases i,
        {
            proof {
                assert(pow256((size - i + 1) as nat) == 256 * pow256((size - i) as nat));
                lemma_pow256_mono((size - i + 1) as nat, 8);
            }
            i -= 1;
            let b = read_at(bytes, i);
            assert(h.skip(i as int).skip(1) =~= h.skip(i + 1));
            v = v * 256 + b as u64;
        }
        assert(h.skip(0) =~= h);
        v
    } else {
        let mut v: u64 = 0;
        let mut i: usize = 0;
        assert(h.take(0) =~= Seq::<u8>::empty());
        while i < size
            invariant
                i <= size <= 8,
                v == be_value(h.take(i as int)),
                v < pow256(i as nat),
                h == head(bytes@, size as nat),
                pow256(8) == 0x1_0000_0000_0000_0000,
            decreases size - i,
        {
            proof {
                assert(pow256((i + 1) as nat) == 256 * pow256(i as nat));
                lemma_pow256_mono((i + 1) as nat, 8);
            }
            let b = read_at(bytes, i);
            assert(h.take(i + 1).take(i as int) =~= h.take(i as int));
            v = v * 256 + b as u64;
            i += 1;
        }
        assert(h.take(size as int) =~= h);
        v
    }
}

proof fn lemma_pow256_values()
    ensures
        pow256(1) == 0x100,
        pow256(2) == 0x1_0000,
        pow256(4) == 0x1_0000_0000,
        pow256(8) == 0x1_0000_0000_0000_0000,
{
    assert(pow256(0) == 1);
    assert(pow256(1) == 0x100);
    assert(pow256(2) == 0x1_0000);
    assert(pow256(3) == 0x100_0000);
    assert(pow256(4) == 0x1_0000_0000);
    assert(pow256(5) == 0x100_0000_0000);
    assert(pow256(6) == 0x1_0000_0000_0000);
    assert(pow256(7) == 0x100_0000_0000_0000);
    assert(pow256(8) == 0x1_0000_0000_0000_0000);
}

proof fn lemma_pow256_mono(a: nat, b: nat)
    requires
        a <= b,
    ensures
        pow256(a) <= pow256(b),
    decreases b - a,
{
    if a < b {
        lemma_pow256_mono(a, (b - 1) as nat);
    }
}

/// Little-endian numbers.
pub struct LittleEndian;

/// Big-endian numbers.
pub struct BigEndian;

impl LittleEndian {
    pub fn read_u8(bytes: &[u8]) -> (r: u8)
        ensures
            r == number_of(bytes@, 1, LITTLE_ENDIAN),
    {
        proof {
            lemma_number_bound(bytes@, 1, LITTLE_ENDIAN);
            lemma_pow256_values();
        }
        read_number(bytes, 1, LITTLE_ENDIAN) as u8
    }

    pub fn read_u16(bytes: &[u8]) -> (r: u16)
        ensures
            r == number_of(bytes@, 2, LITTLE_ENDIAN),
    {
        proof {
            lemma_number_bound(bytes@, 2, LITTLE_ENDIAN);
            lemma_pow256_values();
        }
        read_number(bytes, 2, LITTLE_ENDIAN) as u16
    }

    pub fn read_u32(bytes: &[u8]) -> (r: u32)
        ensures
            r == number_of(bytes@, 4, LITTLE_ENDIAN),
    {
        proof {
            lemma_number_bound(bytes@, 4, LITTLE_ENDIAN);
            lemma_pow256_values();
        }
        read_number(bytes, 4, LITTLE_ENDIAN) as u32
    }

    pub fn read_u64(bytes: &[u8]) -> (r: u64)
        ensures
            r == number_of(bytes@, 8, LITTLE_ENDIAN),
    {
        read_number(bytes, 8, LITTLE_ENDIAN)
    }
}

impl BigEndian {
    pub fn read_u8(bytes: &[u8]) -> (r: u8)
        ensures
            r == number_of(bytes@, 1, BIG_ENDIAN),
    {
        proof {
            lemma_number_bound(bytes@, 1, BIG_ENDIAN);
            lemma_pow256_values();
        }
        read_number(bytes, 1, BIG_ENDIAN) as u8
    }

    pub fn read_u16(bytes: &[u8]) -> (r: u16)
        ensures
            r == number_of(bytes@, 2, BIG_ENDIAN),
    {
        proof {
            lemma_number_bound(bytes@, 2, BIG_ENDIAN);
            lemma_pow256_values();
        }
        read_number(bytes, 2, BIG_ENDIAN) as u16
    }

    pub fn read_u32(bytes: &[u8]) -> (r: u32)
        ensures
            r == number_of(bytes@, 4, BIG_ENDIAN),
    {
        proof {
            lemma_number_bound(bytes@, 4, BIG_ENDIAN);
            lemma_pow256_values();
        }
        read_number(bytes, 4, BIG_ENDIAN) as u32
    }

    pub fn read_u64(bytes: &[u8]) -> (r: u64)
        ensures
            r == number_of(bytes@, 8, BIG_ENDIAN),
    {
        read_number(bytes, 8, BIG_ENDIAN)
    }
}

} // verus!
