//! Little-endian integers inside byte buffers.

use vstd::prelude::*;

verus! {

/// The unsigned number whose little-endian bytes start at `at`.
pub open spec fn le_u32(s: Seq<u8>, at: int) -> int {
    s[at] + 256 * s[at + 1] + 65536 * s[at + 2] + 16777216 * s[at + 3]
}

/// The signed 32-bit number whose little-endian bytes start at `at`.
pub open spec fn le_i32(s: Seq<u8>, at: int) -> i32 {
    let u = le_u32(s, at);
    if u < 0x8000_0000 {
        u as i32
    } else {
        (u - 0x1_0000_0000) as i32
    }
}

/// The signed 16-bit number whose little-endian bytes start at `at`.
pub open spec fn le_i16(s: Seq<u8>, at: int) -> i16 {
    let u = s[at] + 256 * s[at + 1];
    if u < 0x8000 {
        u as i16
    } else {
        (u - 0x1_0000) as i16
    }
}

/// The four little-endian bytes of `v`.
pub open spec fn i32_bytes(v: i32) -> Seq<u8> {
    let u = if v < 0 { v + 0x1_0000_0000 } else { v as int };
    seq![
        (u % 256) as u8,
        (u / 256 % 256) as u8,
        (u / 65536 % 256) as u8,
        (u / 16777216 % 256) as u8,
    ]
}

/// The two little-endian bytes of `v`.
pub open spec fn i16_bytes(v: i16) -> Seq<u8> {
    let u = if v < 0 { v + 0x1_0000 } else { v as int };
    seq![(u % 256) as u8, (u / 256 % 256) as u8]
}

/// The four little-endian bytes of the unsigned `v`.
pub open spec fn u32_bytes(v: u32) -> Seq<u8> {
    seq![
        (v % 256) as u8,
        (v / 256 % 256) as u8,
        (v / 65536 % 256) as u8,
        (v / 16777216 % 256) as u8,
    ]
}

/// Reading back the bytes of a 32-bit number gives the number.
pub proof fn lemma_i32_round_trip(v: i32)
    ensures
        i32_bytes(v).len() == 4,
        le_i32(i32_bytes(v), 0) == v,
{
}

/// Reading back the bytes of a 16-bit number gives the number.
pub proof fn lemma_i16_round_trip(v: i16)
    ensures
        i16_bytes(v).len() == 2,
        le_i16(i16_bytes(v), 0) == v,
{
}

/// Writing the number read from four bytes gives those bytes.
pub proof fn lemma_u32_bytes_of_read(s: Seq<u8>, at: int)
    requires
        0 <= at,
        at + 4 <= s.len(),
    ensures
        u32_bytes(le_u32(s, at) as u32) == s.subrange(at, at + 4),
{
    let (a, b, c, d) = (s[at] as int, s[at + 1] as int, s[at + 2] as int, s[at + 3] as int);
    let u = le_u32(s, at);
    assert(u == 256 * (b + 256 * c + 65536 * d) + a);
    assert(u == 65536 * (c + 256 * d) + (a + 256 * b));
    assert(u == 16777216 * d + (a + 256 * b + 65536 * c));
    assert(u % 256 == a && u / 256 == b + 256 * c + 65536 * d);
    assert(u / 65536 == c + 256 * d);
    assert(u / 16777216 == d);
    assert((b + 256 * c + 65536 * d) % 256 == b);
    assert((c + 256 * d) % 256 == c);
    assert(u32_bytes(u as u32) =~= s.subrange(at, at + 4));
}

/// Reads the signed 32-bit number that starts at `at`.
pub fn read_i32(data: &[u8], at: usize) -> (v: i32)
    requires
        at + 4 <= data@.len(),
    ensures
        v == le_i32(data@, at as int),
{
    let u: i64 = data[at] as i64 + 256 * (data[at + 1] as i64) + 65536 * (data[at + 2] as i64)
        + 16777216 * (data[at + 3] as i64);
    if u < 0x8000_0000 {
        u as i32
    } else {
        (u - 0x1_0000_0000) as i32
    }
}

/// Reads the unsigned 32-bit number that starts at `at`.
pub fn read_u32(data: &[u8], at: usize) -> (v: u32)
    requires
        at + 4 <= data@.len(),
    ensures
        v == le_u32(data@, at as int),
{
    data[at] as u32 + 256 * (data[at + 1] as u32) + 65536 * (data[at + 2] as u32) + 16777216 * (
    data[at + 3] as u32)
}

/// Reads the signed 16-bit number that starts at `at`.
pub fn read_i16(data: &[u8], at: usize) -> (v: i16)
    requires
        at + 2 <= data@.len(),
    ensures
        v == le_i16(data@, at as int),
{
    let u: i32 = data[at] as i32 + 256 * (data[at + 1] as i32);
    if u < 0x8000 {
        u as i16
    } else {
        (u - 0x1_0000) as i16
    }
}

/// The signed 32-bit number at the start of `slice`.
pub fn slice_le_to_i32(slice: &[u8]) -> (v: i32)
    requires
        slice@.len() >= 4,
    ensures
        v == le_i32(slice@, 0),
{
    read_i32(slice, 0)
}

/// The signed 16-bit number at the start of `slice`.
pub fn slice_le_to_i16(slice: &[u8]) -> (v: i16)
    requires
        slice@.len() >= 2,
    ensures
        v == le_i16(slice@, 0),
{
    read_i16(slice, 0)
}

/// Appends the four little-endian bytes of `v`.
pub fn push_i32(out: &mut Vec<u8>, v: i32)
    ensures
        final(out)@ == old(out)@ + i32_bytes(v),
{
    let u: u64 = if v < 0 {
        (v as i64 + 0x1_0000_0000) as u64
    } else {
        v as u64
    };
    out.push((u % 256) as u8);
    out.push((u / 256 % 256) as u8);
    out.push((u / 65536 % 256) as u8);
    out.push((u / 16777216 % 256) as u8);
    assert(out@ =~= old(out)@ + i32_bytes(v));
}

/// Appends the four little-endian bytes of the unsigned `v`.
pub fn push_u32(out: &mut Vec<u8>, v: u32)
    ensures
        final(out)@ == old(out)@ + u32_bytes(v),
{
    out.push((v % 256) as u8);
    out.push((v / 256 % 256) as u8);
    out.push((v / 65536 % 256) as u8);
    out.push((v / 16777216 % 256) as u8);
    assert(out@ =~= old(out)@ + u32_bytes(v));
}

/// Appends the two little-endian bytes of `v`.
pub fn push_i16(out: &mut Vec<u8>, v: i16)
    ensures
        final(out)@ == old(out)@ + i16_bytes(v),
{
    let u: u32 = if v < 0 {
        (v as i32 + 0x1_0000) as u32
    } else {
        v as u32
    };
    out.push((u % 256) as u8);
    out.push((u / 256 % 256) as u8);
    assert(out@ =~= old(out)@ + i16_bytes(v));
}

/// Appends the bytes of `tail` from index `from` on.
pub fn push_tail(out: &mut Vec<u8>, tail: &[u8], from: usize)
    requires
        from <= tail@.len(),
    ensures
        final(out)@ == old(out)@ + tail@.skip(from as int),
{
    let mut i: usize = from;
    assert(out@ =~= old(out)@ + tail@.subrange(from as int, i as int));
    while i < tail.len()
        invariant
            from <= i <= tail@.len(),
            out@ == old(out)@ + tail@.subrange(from as int, i as int),
        decreases tail@.len() - i,
    {
        out.push(tail[i]);
        i = i + 1;
        assert(out@ =~= old(out)@ + tail@.subrange(from as int, i as int));
    }
    assert(tail@.subrange(from as int, i as int) =~= tail@.skip(from as int));
}

/// A copy of the bytes of `src` from index `from` up to `to`.
pub fn copy_range(src: &[u8], from: usize, to: usize) -> (out: Vec<u8>)
    requires
        from <= to <= src@.len(),
    ensures
        out@ == src@.subrange(from as int, to as int),
{
    let mut out: Vec<u8> = Vec::new();
    let mut i: usize = from;
    assert(out@ =~= src@.subrange(from as int, i as int));
    while i < to
        invariant
            from <= i <= to <= src@.len(),
            out@ == src@.subrange(from as int, i as int),
        decreases to - i,
    {
        out.push(src[i]);
        i = i + 1;
        assert(out@ =~= src@.subrange(from as int, i as int));
    }
    out
}

} // verus!
