//! Integers as they lie in the byte strings of both formats.

use vstd::prelude::*;

verus! {

/// The number that the two bytes from `pos` spell, least significant first.
pub open spec fn le_u16_at(data: Seq<u8>, pos: int) -> int {
    data[pos] + 256 * data[pos + 1]
}

/// The number that the four bytes from `pos` spell, least significant first.
pub open spec fn le_u32_at(data: Seq<u8>, pos: int) -> int {
    data[pos] + 256 * data[pos + 1] + 65536 * data[pos + 2] + 16777216 * data[pos + 3]
}

/// The number that the eight bytes from `pos` spell, least significant first.
pub open spec fn le_u64_at(data: Seq<u8>, pos: int) -> int {
    le_u32_at(data, pos) + 4294967296 * le_u32_at(data, pos + 4)
}

/// The number that the four bytes from `pos` spell, most significant first.
pub open spec fn be_u32_at(data: Seq<u8>, pos: int) -> int {
    16777216 * data[pos] + 65536 * data[pos + 1] + 256 * data[pos + 2] + data[pos + 3]
}

/// The two bytes of `value`, least significant first.
pub open spec fn u16_le(value: u16) -> Seq<u8> {
    seq![(value % 256) as u8, (value / 256) as u8]
}

/// The four bytes of `value`, least significant first.
pub open spec fn u32_le(value: u32) -> Seq<u8> {
    seq![
        (value % 256) as u8,
        (value / 256 % 256) as u8,
        (value / 65536 % 256) as u8,
        (value / 16777216) as u8,
    ]
}

/// Reading back what `u16_le` wrote gives the value again.
pub proof fn lemma_u16_le_round_trip(value: u16)
    ensures
        u16_le(value).len() == 2,
        le_u16_at(u16_le(value), 0) == value,
{
}

/// Reading back what `u32_le` wrote gives the value again.
pub proof fn lemma_u32_le_round_trip(value: u32)
    ensures
        u32_le(value).len() == 4,
        le_u32_at(u32_le(value), 0) == value,
{
    let q1 = value as int / 256;
    let q2 = value as int / 65536;
    let q3 = value as int / 16777216;
    assert(q2 == q1 / 256 && q3 == q2 / 256) by (nonlinear_arith)
        requires
            q1 == value as int / 256,
            q2 == value as int / 65536,
            q3 == value as int / 16777216,
    ;
    assert(value == value % 256 + 256 * q1);
    assert(q1 == q1 % 256 + 256 * q2);
    assert(q2 == q2 % 256 + 256 * q3);
    assert(q3 < 256);
}

/// Whether `need` more bytes lie at `pos`.
pub fn has_bytes(data: &[u8], pos: usize, need: usize) -> (r: bool)
    ensures
        r == (pos + need <= data@.len()),
        data@.len() <= usize::MAX,
{
    pos <= data.len() && need <= data.len() - pos
}

/// Reads the byte at `pos`, if there is one.
pub fn read_u8(data: &[u8], pos: usize) -> (r: Option<u8>)
    ensures
        pos < data@.len() ==> r == Some(data@[pos as int]),
        pos >= data@.len() ==> r is None,
        data@.len() <= usize::MAX,
{
    if pos < data.len() {
        Some(data[pos])
    } else {
        None
    }
}

/// The little-endian `u32` at `pos`.
pub fn get_u32_le(data: &[u8], pos: usize) -> (r: u32)
    requires
        pos + 4 <= data@.len(),
    ensures
        r == le_u32_at(data@, pos as int),
{
    let b0: u32 = data[pos] as u32;
    let b1: u32 = data[pos + 1] as u32;
    let b2: u32 = data[pos + 2] as u32;
    let b3: u32 = data[pos + 3] as u32;
    assert(b0 | b1 << 8 | b2 << 16 | b3 << 24 == b0 + 256 * b1 + 65536 * b2 + 16777216 * b3)
        by (bit_vector)
        requires
            b0 < 256,
            b1 < 256,
            b2 < 256,
            b3 < 256,
    ;
    b0 | b1 << 8 | b2 << 16 | b3 << 24
}

/// Reads a little-endian `u32` at `pos`, if four bytes lie there.
pub fn read_u32_le(data: &[u8], pos: usize) -> (r: Option<u32>)
    ensures
        pos + 4 <= data@.len() ==> r == Some(le_u32_at(data@, pos as int) as u32),
        pos + 4 > data@.len() ==> r is None,
        r is Some ==> r->Some_0 == le_u32_at(data@, pos as int),
        data@.len() <= usize::MAX,
{
    if has_bytes(data, pos, 4) {
        Some(get_u32_le(data, pos))
    } else {
        None
    }
}

/// The number that four bytes spell, most significant first.
pub fn read_u32_be(data: &[u8; 4]) -> (r: u32)
    ensures
        r == be_u32_at(data@, 0),
{
    let b0: u32 = data[0] as u32;
    let b1: u32 = data[1] as u32;
    let b2: u32 = data[2] as u32;
    let b3: u32 = data[3] as u32;
    assert(b0 << 24 | b1 << 16 | b2 << 8 | b3 == 16777216 * b0 + 65536 * b1 + 256 * b2 + b3)
        by (bit_vector)
        requires
            b0 < 256,
            b1 < 256,
            b2 < 256,
            b3 < 256,
    ;
    b0 << 24 | b1 << 16 | b2 << 8 | b3
}

/// Reads a little-endian `u64` at `pos`, if eight bytes lie there.
pub fn read_u64_le(data: &[u8], pos: usize) -> (r: Option<u64>)
    ensures
        pos + 8 <= data@.len() ==> r == Some(le_u64_at(data@, pos as int) as u64),
        pos + 8 > data@.len() ==> r is None,
        r is Some ==> r->Some_0 == le_u64_at(data@, pos as int),
        data@.len() <= usize::MAX,
{
    if !has_bytes(data, pos, 8) {
        return None;
    }
    let low: u64 = get_u32_le(data, pos) as u64;
    let high: u64 = get_u32_le(data, pos + 4) as u64;
    assert(low | high << 32 == low + 4294967296 * high) by (bit_vector)
        requires
            low < 4294967296,
            high < 4294967296,
    ;
    Some(low | high << 32)
}

/// The four bytes at `pos`.
pub fn get_array4(data: &[u8], pos: usize) -> (r: [u8; 4])
    requires
        pos + 4 <= data@.len(),
    ensures
        r@ == data@.subrange(pos as int, pos + 4),
{
    [data[pos], data[pos + 1], data[pos + 2], data[pos + 3]]
}

/// The eight bytes at `pos`.
pub fn get_array8(data: &[u8], pos: usize) -> (r: [u8; 8])
    requires
        pos + 8 <= data@.len(),
    ensures
        r@ == data@.subrange(pos as int, pos + 8),
{
    [
        data[pos],
        data[pos + 1],
        data[pos + 2],
        data[pos + 3],
        data[pos + 4],
        data[pos + 5],
        data[pos + 6],
        data[pos + 7],
    ]
}

/// The sixteen bytes at `pos`.
pub fn get_array16(data: &[u8], pos: usize) -> (r: [u8; 16])
    requires
        pos + 16 <= data@.len(),
    ensures
        r@ == data@.subrange(pos as int, pos + 16),
{
    [
        data[pos],
        data[pos + 1],
        data[pos + 2],
        data[pos + 3],
        data[pos + 4],
        data[pos + 5],
        data[pos + 6],
        data[pos + 7],
        data[pos + 8],
        data[pos + 9],
        data[pos + 10],
        data[pos + 11],
        data[pos + 12],
        data[pos + 13],
        data[pos + 14],
        data[pos + 15],
    ]
}

/// Appends `value` as two bytes, least significant first.
pub fn push_u16_le(out: &mut Vec<u8>, value: u16)
    ensures
        final(out)@ == old(out)@ + u16_le(value),
{
    out.push((value % 256) as u8);
    out.push((value / 256) as u8);
}

/// Appends `value` as four bytes, least significant first.
pub fn push_u32_le(out: &mut Vec<u8>, value: u32)
    ensures
        final(out)@ == old(out)@ + u32_le(value),
{
    out.push((value % 256) as u8);
    out.push((value / 256 % 256) as u8);
    out.push((value / 65536 % 256) as u8);
    out.push((value / 16777216) as u8);
}

/// Appends a copy of `bytes`.
pub fn push_bytes(out: &mut Vec<u8>, bytes: &[u8])
    ensures
        final(out)@ == old(out)@ + bytes@,
{
    out.extend_from_slice(bytes);
}

} // verus!
