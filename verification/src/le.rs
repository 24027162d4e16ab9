//! Little-endian integer fields: reading them out of a byte buffer and
//! appending them to one, with the byte-level encodings as spec functions.

use vstd::prelude::*;

verus! {

/// Value of a 2-byte little-endian unsigned field.
pub open spec fn le16_spec(b: Seq<u8>) -> int
    recommends
        b.len() == 2,
{
    b[0] + 0x100 * b[1]
}

/// Value of a 4-byte little-endian unsigned field.
pub open spec fn le32_spec(b: Seq<u8>) -> int
    recommends
        b.len() == 4,
{
    b[0] + 0x100 * b[1] + 0x1_0000 * b[2] + 0x100_0000 * b[3]
}

/// Value of a 4-byte little-endian two's-complement signed field.
pub open spec fn le32_signed_spec(b: Seq<u8>) -> int
    recommends
        b.len() == 4,
{
    if le32_spec(b) < 0x8000_0000 {
        le32_spec(b)
    } else {
        le32_spec(b) - 0x1_0000_0000
    }
}

/// The 2-byte little-endian encoding of a 16-bit value.
pub open spec fn le16_bytes(v: u16) -> Seq<u8> {
    seq![(v as int % 0x100) as u8, (v as int / 0x100) as u8]
}

/// The 4-byte little-endian encoding of a 32-bit value.
pub open spec fn le32_bytes(v: u32) -> Seq<u8> {
    seq![
        (v as int % 0x100) as u8,
        (v as int / 0x100 % 0x100) as u8,
        (v as int / 0x1_0000 % 0x100) as u8,
        (v as int / 0x100_0000) as u8,
    ]
}

/// Reading back an encoded 16-bit value gives the value.
pub proof fn lemma_le16_roundtrip(v: u16)
    ensures
        le16_spec(le16_bytes(v)) == v,
{
    assert(v as int % 0x100 + 0x100 * (v as int / 0x100) == v) by (nonlinear_arith);
}

/// Reading back an encoded 32-bit value gives the value.
pub proof fn lemma_le32_roundtrip(v: u32)
    ensures
        le32_spec(le32_bytes(v)) == v,
{
    let x = v as int;
    assert(x % 0x100 + 0x100 * (x / 0x100 % 0x100) + 0x1_0000 * (x / 0x1_0000 % 0x100)
        + 0x100_0000 * (x / 0x100_0000) == x) by (nonlinear_arith)
        requires
            0 <= x < 0x1_0000_0000,
    ;
}

/// A 2-byte field holds a value below 2^16.
pub proof fn lemma_le16_bounds(b: Seq<u8>)
    requires
        b.len() == 2,
    ensures
        0 <= le16_spec(b) < 0x1_0000,
{
}

/// A 4-byte field holds a value below 2^32.
pub proof fn lemma_le32_bounds(b: Seq<u8>)
    requires
        b.len() == 4,
    ensures
        0 <= le32_spec(b) < 0x1_0000_0000,
        -0x8000_0000 <= le32_signed_spec(b) < 0x8000_0000,
{
}

/// A small nonnegative value reads back equal under the signed reading.
pub proof fn lemma_le32_signed_nonneg(b: Seq<u8>)
    requires
        b.len() == 4,
        le32_spec(b) < 0x8000_0000,
    ensures
        le32_signed_spec(b) == le32_spec(b),
{
}

/// Reads the 2-byte little-endian unsigned field at `i`.
pub fn u16_from_le(d: &[u8], i: usize) -> (r: u16)
    requires
        i + 2 <= d@.len(),
    ensures
        r == le16_spec(d@.subrange(i as int, i + 2)),
{
    let r = d[i] as u16 + 0x100 * (d[i + 1] as u16);
    proof {
        let b = d@.subrange(i as int, i + 2);
        assert(b[0] == d@[i as int] && b[1] == d@[i + 1]);
    }
    r
}

/// Reads the 4-byte little-endian unsigned field at `i`.
pub fn u32_from_le(d: &[u8], i: usize) -> (r: u32)
    requires
        i + 4 <= d@.len(),
    ensures
        r == le32_spec(d@.subrange(i as int, i + 4)),
{
    let r = d[i] as u32 + 0x100 * (d[i + 1] as u32) + 0x1_0000 * (d[i + 2] as u32) + 0x100_0000
        * (d[i + 3] as u32);
    proof {
        let b = d@.subrange(i as int, i + 4);
        assert(b[0] == d@[i as int] && b[1] == d@[i + 1] && b[2] == d@[i + 2] && b[3] == d@[i
            + 3]);
    }
    r
}

/// Reads the 4-byte little-endian signed field at `i`.
pub fn i32_from_le(d: &[u8], i: usize) -> (r: i32)
    requires
        i + 4 <= d@.len(),
    ensures
        r == le32_signed_spec(d@.subrange(i as int, i + 4)),
{
    let u = u32_from_le(d, i);
    if u < 0x8000_0000 {
        u as i32
    } else {
        ((u - 0x8000_0000) as i32) - 0x4000_0000 - 0x4000_0000
    }
}

/// Appends the 2-byte little-endian encoding of `v`.
pub fn push_u16_le(out: &mut Vec<u8>, v: u16)
    ensures
        final(out)@ == old(out)@ + le16_bytes(v),
{
    out.push((v % 0x100) as u8);
    out.push((v / 0x100) as u8);
    proof {
        assert(out@ =~= old(out)@ + le16_bytes(v));
    }
}

/// Appends the 4-byte little-endian encoding of `v`.
pub fn push_u32_le(out: &mut Vec<u8>, v: u32)
    ensures
        final(out)@ == old(out)@ + le32_bytes(v),
{
    out.push((v % 0x100) as u8);
    out.push((v / 0x100 % 0x100) as u8);
    out.push((v / 0x1_0000 % 0x100) as u8);
    out.push((v / 0x100_0000) as u8);
    proof {
        assert(out@ =~= old(out)@ + le32_bytes(v));
    }
}

/// Copies `d[i .. i + n]` into a fresh vector.
pub fn copy_range(d: &[u8], i: usize, n: usize) -> (r: Vec<u8>)
    requires
        i + n <= d@.len(),
    ensures
        r@ == d@.subrange(i as int, i + n),
{
    let len = d.len();
    let mut r: Vec<u8> = Vec::new();
    let mut k: usize = 0;
    while k < n
        invariant
            i + n <= len && len == d@.len(),
            k <= n,
            r@ == d@.subrange(i as int, i + k),
        decreases n - k,
    {
        r.push(d[i + k]);
        k = k + 1;
        proof {
            assert(r@ =~= d@.subrange(i as int, i + k));
        }
    }
    r
}

} // verus!
