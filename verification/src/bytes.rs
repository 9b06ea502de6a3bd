//! Big-endian integer encoding and small byte-buffer helpers shared by
//! every wire format in the crate.

use vstd::prelude::*;

verus! {

/// The two big-endian bytes of `v`.
pub open spec fn be16_bytes(v: u16) -> Seq<u8> {
    seq![(v / 256) as u8, (v % 256) as u8]
}

/// The four big-endian bytes of `v`.
pub open spec fn be32_bytes(v: u32) -> Seq<u8> {
    seq![(v / 16777216) as u8, ((v / 65536) % 256) as u8, ((v / 256) % 256) as u8, (v % 256) as u8]
}

/// The `u16` whose big-endian bytes are `hi, lo`.
pub open spec fn be16(hi: u8, lo: u8) -> u16 {
    (hi as int * 256 + lo as int) as u16
}

/// The big-endian `u16` stored at `s[i..i + 2]`.
pub open spec fn be16_at(s: Seq<u8>, i: int) -> u16 {
    be16(s[i], s[i + 1])
}

/// The big-endian `u32` stored at `s[i..i + 4]`.
pub open spec fn be32_at(s: Seq<u8>, i: int) -> u32 {
    (s[i] as int * 16777216 + s[i + 1] as int * 65536 + s[i + 2] as int * 256 + s[i + 3] as int) as u32
}

/// Decoding the big-endian bytes of a `u16` gives the `u16` back.
pub proof fn lemma_be16_roundtrip(v: u16)
    ensures
        be16_at(be16_bytes(v), 0) == v,
{
}

/// Decoding the big-endian bytes of a `u32` gives the `u32` back.
pub proof fn lemma_be32_roundtrip(v: u32)
    ensures
        be32_at(be32_bytes(v), 0) == v,
{
    let a = v / 16777216;
    let r1 = v % 16777216;
    let b = r1 / 65536;
    let r2 = r1 % 65536;
    let c = r2 / 256;
    let d = r2 % 256;
    assert(v == a * 16777216 + r1);
    assert(r1 == b * 65536 + r2);
    assert(r2 == c * 256 + d);
    assert((v / 65536) % 256 == b) by (nonlinear_arith)
        requires
            v == a * 16777216 + b * 65536 + r2,
            0 <= b < 256,
            0 <= r2 < 65536,
            a >= 0,
    {
        assert(v / 65536 == a * 256 + b);
    }
    assert((v / 256) % 256 == c) by (nonlinear_arith)
        requires
            v == a * 16777216 + b * 65536 + c * 256 + d,
            0 <= b < 256,
            0 <= c < 256,
            0 <= d < 256,
            a >= 0,
    {
        assert(v / 256 == a * 65536 + b * 256 + c);
    }
}

/// The big-endian bytes of `v`.
pub fn u16_to_be(v: u16) -> (r: [u8; 2])
    ensures
        r@ == be16_bytes(v),
{
    let r = [(v / 256) as u8, (v % 256) as u8];
    assert(r@ =~= be16_bytes(v));
    r
}

/// The big-endian bytes of `v`.
pub fn u32_to_be(v: u32) -> (r: [u8; 4])
    ensures
        r@ == be32_bytes(v),
{
    let r = [(v / 16777216) as u8, ((v / 65536) % 256) as u8, ((v / 256) % 256) as u8, (v % 256) as u8];
    assert(r@ =~= be32_bytes(v));
    r
}

/// Reads the big-endian `u16` at `data[i..i + 2]`.
pub fn read_be16(data: &[u8], i: usize) -> (r: u16)
    requires
        i + 2 <= data@.len(),
    ensures
        r == be16_at(data@, i as int),
{
    (data[i] as u16) * 256 + (data[i + 1] as u16)
}

/// Reads the big-endian `u32` at `data[i..i + 4]`.
pub fn read_be32(data: &[u8], i: usize) -> (r: u32)
    requires
        i + 4 <= data@.len(),
    ensures
        r == be32_at(data@, i as int),
{
    (data[i] as u32) * 16777216 + (data[i + 1] as u32) * 65536 + (data[i + 2] as u32) * 256 + (data[i + 3] as u32)
}

/// Appends every byte of `data` to `out`.
pub fn push_all(out: &mut Vec<u8>, data: &[u8])
    ensures
        final(out)@ == old(out)@ + data@,
{
    let ghost start = out@;
    let mut i: usize = 0;
    while i < data.len()
        invariant
            i <= data@.len(),
            out@ == start + data@.subrange(0, i as int),
        decreases data@.len() - i,
    {
        out.push(data[i]);
        i = i + 1;
        assert(data@.subrange(0, i as int) =~= data@.subrange(0, i - 1) + seq![data@[i - 1]]);
    }
    assert(data@.subrange(0, data@.len() as int) =~= data@);
}

/// Appends the big-endian bytes of `v` to `out`.
pub fn push_be16(out: &mut Vec<u8>, v: u16)
    ensures
        final(out)@ == old(out)@ + be16_bytes(v),
{
    let b = u16_to_be(v);
    push_all(out, &b);
}

/// Appends the big-endian bytes of `v` to `out`.
pub fn push_be32(out: &mut Vec<u8>, v: u32)
    ensures
        final(out)@ == old(out)@ + be32_bytes(v),
{
    let b = u32_to_be(v);
    push_all(out, &b);
}

/// A fresh vector holding `data[start..end]`.
pub fn copy_range(data: &[u8], start: usize, end: usize) -> (r: Vec<u8>)
    requires
        start <= end <= data@.len(),
    ensures
        r@ == data@.subrange(start as int, end as int),
{
    let mut r: Vec<u8> = Vec::new();
    let mut i: usize = start;
    while i < end
        invariant
            start <= i <= end <= data@.len(),
            r@ == data@.subrange(start as int, i as int),
        decreases end - i,
    {
        r.push(data[i]);
        i = i + 1;
        assert(data@.subrange(start as int, i as int) =~= data@.subrange(start as int, i - 1) + seq![data@[i - 1]]);
    }
    r
}

} // verus!
