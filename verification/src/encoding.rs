//! Byte-level encodings shared by the chunk tree and the deep hash: big-endian
//! offsets, the 32-byte note field, decimal tags, and byte-run comparison.

use vstd::prelude::*;

verus! {

/// Width in bytes of a 256-bit digest, and of every node id.
pub const HASH_SIZE: usize = 32;

/// Width in bytes of a note field: 28 zero bytes, then a big-endian offset.
pub const NOTE_SIZE: usize = 32;

/// The four big-endian bytes of a 32-bit offset.
pub open spec fn be32_bytes(n: u32) -> Seq<u8> {
    seq![
        ((n / 0x1000000) % 0x100) as u8,
        ((n / 0x10000) % 0x100) as u8,
        ((n / 0x100) % 0x100) as u8,
        (n % 0x100) as u8,
    ]
}

/// The offset value a big-endian 4-byte run encodes.
pub open spec fn be32_val(s: Seq<u8>) -> nat
    recommends
        s.len() == 4,
{
    (s[0] as nat) * 0x1000000 + (s[1] as nat) * 0x10000 + (s[2] as nat) * 0x100 + (s[3] as nat)
}

/// A note field: 28 zero bytes followed by the big-endian offset.
pub open spec fn note_bytes(offset: u32) -> Seq<u8> {
    Seq::new(28, |i: int| 0u8) + be32_bytes(offset)
}

/// Offsets wider than 32 bits lose their upper bits when written to a note.
pub open spec fn trunc32(n: nat) -> u32 {
    (n % 0x100000000) as u32
}

/// The low 32 bits of an offset, as written into a note.
pub fn trunc_offset(n: usize) -> (r: u32)
    ensures
        r == trunc32(n as nat),
{
    ((n as u64) % 0x100000000) as u32
}

/// Reading back the four big-endian bytes of an offset recovers it.
pub proof fn lemma_be32_roundtrip(n: u32)
    ensures
        be32_val(be32_bytes(n)) == n,
{
    assert((n / 0x1000000) % 0x100 == n / 0x1000000) by (nonlinear_arith);
    assert(n == (n / 0x1000000) * 0x1000000 + ((n / 0x10000) % 0x100) * 0x10000 + ((n / 0x100)
        % 0x100) * 0x100 + n % 0x100) by (nonlinear_arith);
}

/// The four big-endian offset bytes, as a vector.
pub fn be32_vec(n: u32) -> (r: Vec<u8>)
    ensures
        r@ == be32_bytes(n),
{
    let mut v: Vec<u8> = Vec::new();
    v.push(((n / 0x1000000) % 0x100) as u8);
    v.push(((n / 0x10000) % 0x100) as u8);
    v.push(((n / 0x100) % 0x100) as u8);
    v.push((n % 0x100) as u8);
    proof {
        assert(v@ =~= be32_bytes(n));
    }
    v
}

/// Decimal digits of a number, most significant first, as ASCII bytes.
pub open spec fn dec_bytes(n: nat) -> Seq<u8>
    decreases n,
{
    if n < 10 {
        seq![(48 + n) as u8]
    } else {
        dec_bytes(n / 10) + seq![(48 + n % 10) as u8]
    }
}

/// The ASCII decimal rendering of `n`.
pub fn u64_dec_bytes(n: u64) -> (r: Vec<u8>)
    ensures
        r@ == dec_bytes(n as nat),
    decreases n,
{
    if n < 10 {
        let mut v: Vec<u8> = Vec::new();
        v.push((48 + n) as u8);
        proof {
            assert(v@ =~= dec_bytes(n as nat));
        }
        v
    } else {
        let mut v = u64_dec_bytes(n / 10);
        v.push((48 + n % 10) as u8);
        proof {
            assert(v@ =~= dec_bytes(n as nat));
        }
        v
    }
}

/// The offset a big-endian 4-byte run encodes.
pub fn be32_read(s: &[u8]) -> (r: u32)
    requires
        s@.len() == 4,
    ensures
        r as nat == be32_val(s@),
{
    (s[0] as u32) * 0x1000000 + (s[1] as u32) * 0x10000 + (s[2] as u32) * 0x100 + (s[3] as u32)
}

/// A copy of the bytes of `s` from `from` (inclusive) to `to` (exclusive).
pub fn copy_range(s: &[u8], from: usize, to: usize) -> (r: Vec<u8>)
    requires
        from <= to <= s@.len(),
    ensures
        r@ == s@.subrange(from as int, to as int),
{
    let sub = vstd::slice::slice_subrange(s, from, to);
    vstd::slice::slice_to_vec(sub)
}

/// True iff the two byte runs hold the same bytes.
pub fn bytes_eq(a: &[u8], b: &[u8]) -> (r: bool)
    ensures
        r == (a@ == b@),
{
    if a.len() != b.len() {
        return false;
    }
    let mut i: usize = 0;
    while i < a.len()
        invariant
            i <= a@.len(),
            a@.len() == b@.len(),
            forall|j: int| 0 <= j < i ==> a@[j] == b@[j],
        decreases a@.len() - i,
    {
        if a[i] != b[i] {
            return false;
        }
        i = i + 1;
    }
    proof {
        assert(a@ =~= b@);
    }
    true
}

} // verus!
