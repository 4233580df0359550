//! Little-endian integers, as the archive stores them.

use vstd::prelude::*;

verus! {

/// The unsigned number that `bytes` spell, least significant byte first.
pub open spec fn le_value(bytes: Seq<u8>) -> nat
    decreases bytes.len(),
{
    if bytes.len() == 0 {
        0
    } else {
        bytes[0] as nat + 256 * le_value(bytes.drop_first())
    }
}

/// The signed 64-bit number with the same bit pattern as `value`.
pub open spec fn as_signed(value: u64) -> i64 {
    if value < 0x8000_0000_0000_0000 {
        value as i64
    } else {
        (value - 0x1_0000_0000_0000_0000) as i64
    }
}

/// The unsigned 64-bit number with the same bit pattern as `value`.
pub open spec fn as_unsigned(value: i64) -> u64 {
    if value >= 0 {
        value as u64
    } else {
        (value + 0x1_0000_0000_0000_0000) as u64
    }
}

/// Four bytes spell their number digit by digit in base 256.
pub proof fn lemma_le_value_4(bytes: Seq<u8>)
    requires
        bytes.len() == 4,
    ensures
        le_value(bytes) == bytes[0] + 0x100 * bytes[1] + 0x1_0000 * bytes[2] + 0x100_0000
            * bytes[3],
        le_value(bytes) <= u32::MAX,
{
    let s1 = bytes.drop_first();
    let s2 = s1.drop_first();
    let s3 = s2.drop_first();
    assert(le_value(s3.drop_first()) == 0);
    assert(le_value(s3) == bytes[3]);
    assert(le_value(s2) == bytes[2] + 256 * le_value(s3));
    assert(le_value(s1) == bytes[1] + 256 * le_value(s2));
    assert(le_value(bytes) == bytes[0] + 256 * le_value(s1));
}

/// Eight bytes spell a low and a high half of four bytes each.
pub proof fn lemma_le_value_8(bytes: Seq<u8>)
    requires
        bytes.len() == 8,
    ensures
        le_value(bytes) == le_value(bytes.subrange(0, 4)) + 0x1_0000_0000 * le_value(
            bytes.subrange(4, 8),
        ),
        le_value(bytes) <= u64::MAX,
{
    let low = bytes.subrange(0, 4);
    let high = bytes.subrange(4, 8);
    lemma_le_value_4(low);
    lemma_le_value_4(high);
    let s1 = bytes.drop_first();
    let s2 = s1.drop_first();
    let s3 = s2.drop_first();
    assert(s3.drop_first() =~= high);
    assert(le_value(s3) == bytes[3] + 256 * le_value(high));
    assert(le_value(s2) == bytes[2] + 256 * le_value(s3));
    assert(le_value(s1) == bytes[1] + 256 * le_value(s2));
    assert(le_value(bytes) == bytes[0] + 256 * le_value(s1));
}

/// Converting to signed and back gives the same bit pattern.
pub proof fn lemma_signed_round_trip(value: u64)
    ensures
        as_unsigned(as_signed(value)) == value,
{
}

/// Reads the four bytes at `at` as an unsigned number.
pub fn read_u32(bytes: &[u8], at: usize) -> (value: u32)
    requires
        at + 4 <= bytes.len(),
    ensures
        value == le_value(bytes@.subrange(at as int, at + 4)),
{
    let b0: u32 = bytes[at] as u32;
    let b1: u32 = bytes[at + 1] as u32;
    let b2: u32 = bytes[at + 2] as u32;
    let b3: u32 = bytes[at + 3] as u32;
    proof {
        lemma_le_value_4(bytes@.subrange(at as int, at + 4));
    }
    b0 + 0x100 * b1 + 0x1_0000 * b2 + 0x100_0000 * b3
}

/// Reads the eight bytes at `at` as an unsigned number.
pub fn read_u64(bytes: &[u8], at: usize) -> (value: u64)
    requires
        at + 8 <= bytes.len(),
    ensures
        value == le_value(bytes@.subrange(at as int, at + 8)),
{
    let low: u64 = read_u32(bytes, at) as u64;
    let high: u64 = read_u32(bytes, at + 4) as u64;
    proof {
        let s = bytes@.subrange(at as int, at + 8);
        lemma_le_value_8(s);
        assert(s.subrange(0, 4) =~= bytes@.subrange(at as int, at + 4));
        assert(s.subrange(4, 8) =~= bytes@.subrange(at + 4, at + 8));
    }
    low + 0x1_0000_0000 * high
}

/// Reads the eight bytes at `at` as a signed number in two's complement.
pub fn read_i64(bytes: &[u8], at: usize) -> (value: i64)
    requires
        at + 8 <= bytes.len(),
    ensures
        value == as_signed(le_value(bytes@.subrange(at as int, at + 8)) as u64),
{
    let raw: u64 = read_u64(bytes, at);
    if raw < 0x8000_0000_0000_0000 {
        raw as i64
    } else {
        (raw - 0x8000_0000_0000_0000) as i64 + i64::MIN
    }
}

/// The bit pattern of `value`, read as an unsigned number.
pub fn to_unsigned(value: i64) -> (raw: u64)
    ensures
        raw == as_unsigned(value),
{
    if value >= 0 {
        value as u64
    } else {
        (value - i64::MIN) as u64 + 0x8000_0000_0000_0000
    }
}

} // verus!
