use pk2::endian::{read_i64, read_u32, read_u64, to_unsigned};

#[test]
fn read_u32_is_little_endian() {
    assert_eq!(read_u32(&[0x78, 0x56, 0x34, 0x12], 0), 0x1234_5678);
    assert_eq!(read_u32(&[1, 0, 0, 0], 0), 1);
    assert_eq!(read_u32(&[0, 0, 0, 1], 0), 0x0100_0000);
    assert_eq!(read_u32(&[0xFF, 0xFF, 0xFF, 0xFF], 0), u32::MAX);
}

#[test]
fn read_u32_starts_at_the_given_byte() {
    let bytes = [9, 9, 0x0D, 0xF0, 0xAD, 0x0B, 9];
    assert_eq!(read_u32(&bytes, 2), 0x0BAD_F00D);
    assert_eq!(read_u32(&bytes, 3), 0x090B_ADF0);
}

#[test]
fn read_u64_is_little_endian() {
    let bytes = [0xEF, 0xCD, 0xAB, 0x89, 0x67, 0x45, 0x23, 0x01];
    assert_eq!(read_u64(&bytes, 0), 0x0123_4567_89AB_CDEF);
    assert_eq!(read_u64(&[0xFF; 8], 0), u64::MAX);
    assert_eq!(read_u64(&[0, 0, 0, 0, 1, 0, 0, 0], 0), 1 << 32);
}

#[test]
fn read_u64_agrees_with_std() {
    let bytes: Vec<u8> = (0u8..32).map(|i| i.wrapping_mul(37).wrapping_add(11)).collect();
    for at in 0..=24 {
        let mut chunk = [0u8; 8];
        chunk.copy_from_slice(&bytes[at..at + 8]);
        assert_eq!(read_u64(&bytes, at), u64::from_le_bytes(chunk));
        assert_eq!(read_i64(&bytes, at), i64::from_le_bytes(chunk));
    }
}

#[test]
fn read_i64_is_twos_complement() {
    assert_eq!(read_i64(&[0xFF; 8], 0), -1);
    assert_eq!(read_i64(&[0, 0, 0, 0, 0, 0, 0, 0x80], 0), i64::MIN);
    assert_eq!(read_i64(&[0xFF, 0xFF, 0xFF, 0xFF, 0xFF, 0xFF, 0xFF, 0x7F], 0), i64::MAX);
    assert_eq!(read_i64(&[0xFE, 0xFF, 0xFF, 0xFF, 0xFF, 0xFF, 0xFF, 0xFF], 0), -2);
    assert_eq!(read_i64(&[0x00, 0x10, 0, 0, 0, 0, 0, 0], 0), 4096);
}

#[test]
fn to_unsigned_keeps_the_bit_pattern() {
    assert_eq!(to_unsigned(0), 0);
    assert_eq!(to_unsigned(4096), 4096);
    assert_eq!(to_unsigned(i64::MAX), 0x7FFF_FFFF_FFFF_FFFF);
    assert_eq!(to_unsigned(-1), u64::MAX);
    assert_eq!(to_unsigned(i64::MIN), 0x8000_0000_0000_0000);
    assert_eq!(to_unsigned(-4096), 0xFFFF_FFFF_FFFF_F000);
}

#[test]
fn signed_and_unsigned_round_trip() {
    for value in [0u64, 1, 0x7FFF_FFFF_FFFF_FFFF, 0x8000_0000_0000_0000, u64::MAX, 0xDEAD_BEEF] {
        let bytes = value.to_le_bytes();
        assert_eq!(to_unsigned(read_i64(&bytes, 0)), value);
    }
}
