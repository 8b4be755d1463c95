//! Little-endian fixed-width integers as bytes.
use vstd::prelude::*;

verus! {

pub open spec fn u16_le(v: u16) -> Seq<u8> {
    seq![v as u8, (v >> 8u16) as u8]
}

pub open spec fn u32_le(v: u32) -> Seq<u8> {
    seq![v as u8, (v >> 8u32) as u8, (v >> 16u32) as u8, (v >> 24u32) as u8]
}

pub open spec fn u64_le(v: u64) -> Seq<u8> {
    seq![
        v as u8,
        (v >> 8u64) as u8,
        (v >> 16u64) as u8,
        (v >> 24u64) as u8,
        (v >> 32u64) as u8,
        (v >> 40u64) as u8,
        (v >> 48u64) as u8,
        (v >> 56u64) as u8,
    ]
}

pub open spec fn u16_of(b0: u8, b1: u8) -> u16 {
    (b0 as u16) | ((b1 as u16) << 8u16)
}

pub open spec fn u32_of(b0: u8, b1: u8, b2: u8, b3: u8) -> u32 {
    (b0 as u32) | ((b1 as u32) << 8u32) | ((b2 as u32) << 16u32) | ((b3 as u32) << 24u32)
}

pub open spec fn u64_of(lo: u32, hi: u32) -> u64 {
    (lo as u64) | ((hi as u64) << 32u64)
}

/// The `u16` stored little-endian at `b[i..i + 2]`.
pub open spec fn u16_at(b: Seq<u8>, i: int) -> u16 {
    u16_of(b[i], b[i + 1])
}

/// The `u32` stored little-endian at `b[i..i + 4]`.
pub open spec fn u32_at(b: Seq<u8>, i: int) -> u32 {
    u32_of(b[i], b[i + 1], b[i + 2], b[i + 3])
}

/// The `u64` stored little-endian at `b[i..i + 8]`.
pub open spec fn u64_at(b: Seq<u8>, i: int) -> u64 {
    u64_of(u32_at(b, i), u32_at(b, i + 4))
}

pub proof fn lemma_u16_roundtrip(v: u16)
    ensures
        u16_of(v as u8, (v >> 8u16) as u8) == v,
{
    assert((((v as u8) as u16) | ((((v >> 8u16) as u8) as u16) << 8u16)) == v) by (bit_vector);
}

pub proof fn lemma_u32_roundtrip(v: u32)
    ensures
        u32_of(v as u8, (v >> 8u32) as u8, (v >> 16u32) as u8, (v >> 24u32) as u8) == v,
{
    assert(((v as u8) as u32) | ((((v >> 8u32) as u8) as u32) << 8u32) | ((((v >> 16u32) as u8)
        as u32) << 16u32) | ((((v >> 24u32) as u8) as u32) << 24u32) == v) by (bit_vector);
}

pub proof fn lemma_u64_split(v: u64)
    ensures
        u64_of(
            u32_of(v as u8, (v >> 8u64) as u8, (v >> 16u64) as u8, (v >> 24u64) as u8),
            u32_of((v >> 32u64) as u8, (v >> 40u64) as u8, (v >> 48u64) as u8, (v >> 56u64) as u8),
        ) == v,
{
    let lo = u32_of(v as u8, (v >> 8u64) as u8, (v >> 16u64) as u8, (v >> 24u64) as u8);
    let hi = u32_of((v >> 32u64) as u8, (v >> 40u64) as u8, (v >> 48u64) as u8, (v >> 56u64) as u8);
    assert(lo == v as u32) by (bit_vector)
        requires
            lo == ((v as u8) as u32) | ((((v >> 8u64) as u8) as u32) << 8u32) | ((((v >> 16u64)
                as u8) as u32) << 16u32) | ((((v >> 24u64) as u8) as u32) << 24u32),
    ;
    assert(hi == (v >> 32u64) as u32) by (bit_vector)
        requires
            hi == ((((v >> 32u64) as u8) as u32) | ((((v >> 40u64) as u8) as u32) << 8u32) | ((((v
                >> 48u64) as u8) as u32) << 16u32) | ((((v >> 56u64) as u8) as u32) << 24u32)),
    ;
    assert(((lo as u64) | ((hi as u64) << 32u64)) == v) by (bit_vector)
        requires
            lo == v as u32,
            hi == (v >> 32u64) as u32,
    ;
}

/// Reading back what `u16_le` wrote gives the value.
pub proof fn lemma_u16_le_read(v: u16)
    ensures
        u16_at(u16_le(v), 0) == v,
{
    lemma_u16_roundtrip(v);
}

/// Reading back what `u32_le` wrote gives the value.
pub proof fn lemma_u32_le_read(v: u32)
    ensures
        u32_at(u32_le(v), 0) == v,
{
    lemma_u32_roundtrip(v);
}

/// Reading back what `u64_le` wrote gives the value.
pub proof fn lemma_u64_le_read(v: u64)
    ensures
        u64_at(u64_le(v), 0) == v,
{
    lemma_u64_split(v);
}

/// Writing back the value read from two bytes gives those bytes.
pub proof fn lemma_u16_le_of(b0: u8, b1: u8)
    ensures
        u16_le(u16_of(b0, b1)) == seq![b0, b1],
{
    let v = u16_of(b0, b1);
    assert(v as u8 == b0 && (v >> 8u16) as u8 == b1) by (bit_vector)
        requires
            v == (b0 as u16) | ((b1 as u16) << 8u16),
    ;
    assert(u16_le(v) =~= seq![b0, b1]);
}

/// Writing back the value read from four bytes gives those bytes.
pub proof fn lemma_u32_le_of(b0: u8, b1: u8, b2: u8, b3: u8)
    ensures
        u32_le(u32_of(b0, b1, b2, b3)) == seq![b0, b1, b2, b3],
{
    let v = u32_of(b0, b1, b2, b3);
    assert(v as u8 == b0 && (v >> 8u32) as u8 == b1 && (v >> 16u32) as u8 == b2 && (v >> 24u32)
        as u8 == b3) by (bit_vector)
        requires
            v == (b0 as u32) | ((b1 as u32) << 8u32) | ((b2 as u32) << 16u32) | ((b3 as u32)
                << 24u32),
    ;
    assert(u32_le(v) =~= seq![b0, b1, b2, b3]);
}

/// Writing back the value read from eight bytes gives those bytes.
pub proof fn lemma_u64_le_of(b: Seq<u8>, i: int)
    requires
        0 <= i,
        i + 8 <= b.len(),
    ensures
        u64_le(u64_at(b, i)) == b.subrange(i, i + 8),
{
    let lo = u32_at(b, i);
    let hi = u32_at(b, i + 4);
    let v = u64_of(lo, hi);
    lemma_u32_le_of(b[i], b[i + 1], b[i + 2], b[i + 3]);
    lemma_u32_le_of(b[i + 4], b[i + 5], b[i + 6], b[i + 7]);
    assert(v as u8 == lo as u8 && (v >> 8u64) as u8 == (lo >> 8u32) as u8 && (v >> 16u64) as u8
        == (lo >> 16u32) as u8 && (v >> 24u64) as u8 == (lo >> 24u32) as u8 && (v >> 32u64) as u8
        == hi as u8 && (v >> 40u64) as u8 == (hi >> 8u32) as u8 && (v >> 48u64) as u8 == (hi
        >> 16u32) as u8 && (v >> 56u64) as u8 == (hi >> 24u32) as u8) by (bit_vector)
        requires
            v == (lo as u64) | ((hi as u64) << 32u64),
    ;
    assert(u64_le(v) =~= b.subrange(i, i + 8));
}

pub fn push_u16_le(out: &mut Vec<u8>, v: u16)
    ensures
        final(out)@ == old(out)@ + u16_le(v),
{
    out.push(v as u8);
    out.push((v >> 8) as u8);
    assert(out@ =~= old(out)@ + u16_le(v));
}

pub fn push_u32_le(out: &mut Vec<u8>, v: u32)
    ensures
        final(out)@ == old(out)@ + u32_le(v),
{
    out.push(v as u8);
    out.push((v >> 8) as u8);
    out.push((v >> 16) as u8);
    out.push((v >> 24) as u8);
    assert(out@ =~= old(out)@ + u32_le(v));
}

pub fn push_u64_le(out: &mut Vec<u8>, v: u64)
    ensures
        final(out)@ == old(out)@ + u64_le(v),
{
    out.push(v as u8);
    out.push((v >> 8) as u8);
    out.push((v >> 16) as u8);
    out.push((v >> 24) as u8);
    out.push((v >> 32) as u8);
    out.push((v >> 40) as u8);
    out.push((v >> 48) as u8);
    out.push((v >> 56) as u8);
    assert(out@ =~= old(out)@ + u64_le(v));
}

pub fn read_u16_le(b: &[u8], i: usize) -> (v: u16)
    requires
        i + 2 <= b.len(),
    ensures
        v == u16_at(b@, i as int),
{
    (b[i] as u16) | ((b[i + 1] as u16) << 8)
}

pub fn read_u32_le(b: &[u8], i: usize) -> (v: u32)
    requires
        i + 4 <= b.len(),
    ensures
        v == u32_at(b@, i as int),
{
    (b[i] as u32) | ((b[i + 1] as u32) << 8) | ((b[i + 2] as u32) << 16) | ((b[i + 3] as u32)
        << 24)
}

pub fn read_u64_le(b: &[u8], i: usize) -> (v: u64)
    requires
        i + 8 <= b.len(),
    ensures
        v == u64_at(b@, i as int),
{
    let lo = read_u32_le(b, i);
    let hi = read_u32_le(b, i + 4);
    (lo as u64) | ((hi as u64) << 32)
}

} // verus!
