//! Little-endian integers in byte buffers.

use vstd::prelude::*;

verus! {

/// The 16-bit little-endian number at `at`.
pub open spec fn le16(data: Seq<u8>, at: int) -> u16 {
    (data[at] + 0x100 * data[at + 1]) as u16
}

/// The 32-bit little-endian number at `at`.
pub open spec fn le32(data: Seq<u8>, at: int) -> u32 {
    (data[at] + 0x100 * data[at + 1] + 0x1_0000 * data[at + 2] + 0x100_0000 * data[at + 3]) as u32
}

/// The 64-bit little-endian number at `at`.
pub open spec fn le64(data: Seq<u8>, at: int) -> u64 {
    (le32(data, at) + 0x1_0000_0000 * le32(data, at + 4)) as u64
}

/// The signed number whose two's complement in 16 bits is `v`.
pub open spec fn signed16(v: u16) -> i16 {
    (if v < 0x8000 {
        v as int
    } else {
        v - 0x1_0000
    }) as i16
}

/// The signed number whose two's complement in 32 bits is `v`.
pub open spec fn signed32(v: u32) -> i32 {
    (if v < 0x8000_0000 {
        v as int
    } else {
        v - 0x1_0000_0000
    }) as i32
}

/// The signed number whose two's complement in 64 bits is `v`.
pub open spec fn signed64(v: u64) -> i64 {
    (if v < 0x8000_0000_0000_0000 {
        v as int
    } else {
        v - 0x1_0000_0000_0000_0000
    }) as i64
}

/// The low 32 bits of `v`, as an unsigned number.
pub open spec fn low32(v: int) -> u32 {
    (v % 0x1_0000_0000) as u32
}

/// Reads the 16-bit little-endian number at `at`.
pub fn read_le16(data: &[u8], at: usize) -> (v: u16)
    requires
        at + 2 <= data@.len(),
    ensures
        v == le16(data@, at as int),
        v == data@[at as int] + 0x100 * data@[at + 1],
{
    assert(data.len() == data@.len());
    data[at] as u16 + 0x100 * data[at + 1] as u16
}

/// Reads the 32-bit little-endian number at `at`.
pub fn read_le32(data: &[u8], at: usize) -> (v: u32)
    requires
        at + 4 <= data@.len(),
    ensures
        v == le32(data@, at as int),
        v == data@[at as int] + 0x100 * data@[at + 1] + 0x1_0000 * data@[at + 2] + 0x100_0000
            * data@[at + 3],
{
    assert(data.len() == data@.len());
    data[at] as u32 + 0x100 * data[at + 1] as u32 + 0x1_0000 * data[at + 2] as u32 + 0x100_0000
        * data[at + 3] as u32
}

/// Reads the 64-bit little-endian number at `at`.
pub fn read_le64(data: &[u8], at: usize) -> (v: u64)
    requires
        at + 8 <= data@.len(),
    ensures
        v == le64(data@, at as int),
        v == le32(data@, at as int) + 0x1_0000_0000 * le32(data@, at + 4),
{
    assert(data.len() == data@.len());
    read_le32(data, at) as u64 + 0x1_0000_0000 * read_le32(data, at + 4) as u64
}

/// Reads 16 bits as a two's complement number.
pub fn to_signed16(v: u16) -> (res: i16)
    ensures
        res == signed16(v),
        (res - v) % 0x1_0000 == 0,
{
    if v < 0x8000 {
        v as i16
    } else {
        (v as i32 - 0x1_0000) as i16
    }
}

/// Reads 32 bits as a two's complement number.
pub fn to_signed32(v: u32) -> (res: i32)
    ensures
        res == signed32(v),
        (res - v) % 0x1_0000_0000 == 0,
{
    if v < 0x8000_0000 {
        v as i32
    } else {
        (v as i64 - 0x1_0000_0000) as i32
    }
}

/// Reads 64 bits as a two's complement number.
pub fn to_signed64(v: u64) -> (res: i64)
    ensures
        res == signed64(v),
        (res - v) % 0x1_0000_0000_0000_0000 == 0,
{
    if v < 0x8000_0000_0000_0000 {
        v as i64
    } else {
        (v as i128 - 0x1_0000_0000_0000_0000) as i64
    }
}

/// The low 32 bits of a signed number, as an unsigned number.
pub fn to_low32(v: i64) -> (res: u32)
    ensures
        res == low32(v as int),
        (v - res) % 0x1_0000_0000 == 0,
{
    let wide: i128 = v as i128 + 0x1_0000_0000_0000_0000;
    ((wide as u128) % 0x1_0000_0000) as u32
}

/// Two's complement in 32 bits and the low 32 bits are inverse to each other.
pub proof fn signed32_low32(v: u32)
    ensures
        low32(signed32(v) as int) == v,
{
}

/// The number that the bytes from `from` up to `to` make up, the first one counting least.
pub open spec fn bytes_value(data: Seq<u8>, from: int, to: int) -> int
    decreases to - from,
{
    if from >= to {
        0
    } else {
        data[from] + 0x100 * bytes_value(data, from + 1, to)
    }
}

/// Little-endian numbers take in every one of their bytes.
pub proof fn numbers_hold_all_bytes(data: Seq<u8>, at: int)
    ensures
        le16(data, at) == bytes_value(data, at, at + 2),
        le32(data, at) == bytes_value(data, at, at + 4),
        le64(data, at) == bytes_value(data, at, at + 8),
{
    reveal_with_fuel(bytes_value, 9);
    let high = at + 4;
    assert(le32(data, at) == data[at] + 0x100 * data[at + 1] + 0x1_0000 * data[at + 2]
        + 0x100_0000 * data[at + 3]);
    assert(le32(data, high) == data[high] + 0x100 * data[high + 1] + 0x1_0000 * data[high + 2]
        + 0x100_0000 * data[high + 3]);
    assert(le64(data, at) == le32(data, at) + 0x1_0000_0000 * le32(data, high));
    assert(bytes_value(data, at, at + 4) == le32(data, at));
    assert(bytes_value(data, high, at + 8) == le32(data, high));
    assert(bytes_value(data, at, at + 8) == data[at] + 0x100 * data[at + 1] + 0x1_0000 * data[at
        + 2] + 0x100_0000 * data[at + 3] + 0x1_0000_0000 * bytes_value(data, high, at + 8));
}

/// Bytes that make up the same number are the same.
pub proof fn bytes_value_injective(a: Seq<u8>, b: Seq<u8>, from: int, to: int)
    requires
        bytes_value(a, from, to) == bytes_value(b, from, to),
    ensures
        forall|i: int| from <= i < to ==> #[trigger] a[i] == b[i],
    decreases to - from,
{
    if from < to {
        bytes_value_injective(a, b, from + 1, to);
    }
}

/// A two's complement number differs from its bits, taken as a number, by a multiple of the
/// range of the bits.
pub proof fn signs_keep_the_bits(a: u16, b: u32, c: u64)
    ensures
        (signed16(a) - a) % 0x1_0000 == 0,
        (signed32(b) - b) % 0x1_0000_0000 == 0,
        (signed64(c) - c) % 0x1_0000_0000_0000_0000 == 0,
{
}

/// The low 32 bits of a number differ from it by a multiple of their range.
pub proof fn low_bits_are_congruent(v: int)
    ensures
        (v - low32(v)) % 0x1_0000_0000 == 0,
{
    let q = v / 0x1_0000_0000;
    assert(v - low32(v) == 0x1_0000_0000 * q);
}

} // verus!
