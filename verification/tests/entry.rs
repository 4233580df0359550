use pk2::entry::{decode_block, EntryKind, Pk2Entry};
use pk2::error::Pk2Error;
use pk2::text::{find_name_len, name_text};

fn record(kind: u8, name: &[u8]) -> Vec<u8> {
    let mut bytes = vec![0u8; 128];
    bytes[0] = kind;
    bytes[1..1 + name.len()].copy_from_slice(name);
    bytes
}

fn sample() -> Vec<u8> {
    let mut bytes = record(2, b"DIVISIONINFO.TXT");
    bytes[82..90].copy_from_slice(&0x0102_0304_0506_0708u64.to_le_bytes());
    bytes[90..98].copy_from_slice(&0x1112_1314_1516_1718u64.to_le_bytes());
    bytes[98..106].copy_from_slice(&0x2122_2324_2526_2728u64.to_le_bytes());
    bytes[106..114].copy_from_slice(&0x0000_0000_0012_3400i64.to_le_bytes());
    bytes[114..118].copy_from_slice(&0xCAFE_F00Du32.to_le_bytes());
    bytes[118..126].copy_from_slice(&(-2i64).to_le_bytes());
    bytes[126] = 0x5A;
    bytes[127] = 0xA5;
    bytes
}

#[test]
fn decodes_every_field_at_its_offset() {
    let entry = Pk2Entry::decode(&sample()).unwrap();
    assert_eq!(entry.entry_type, EntryKind::File);
    assert_eq!(&entry.name[..16], b"DIVISIONINFO.TXT");
    assert_eq!(&entry.name[16..], &[0u8; 65][..]);
    assert_eq!(entry.access_time, 0x0102_0304_0506_0708);
    assert_eq!(entry.create_time, 0x1112_1314_1516_1718);
    assert_eq!(entry.modify_time, 0x2122_2324_2526_2728);
    assert_eq!(entry.position, 0x12_3400);
    assert_eq!(entry.size, 0xCAFE_F00D);
    assert_eq!(entry.next_chain, -2);
    assert_eq!(entry.name(), "DIVISIONINFO.TXT");
    assert_eq!(entry.offset(), 0x12_3400);
}

#[test]
fn field_boundaries_are_exact() {
    let mut bytes = vec![0u8; 128];
    bytes[0] = 1;
    bytes[81] = b'z';
    bytes[82] = 1;
    bytes[89] = 2;
    bytes[90] = 3;
    bytes[97] = 4;
    bytes[98] = 5;
    bytes[105] = 6;
    bytes[106] = 7;
    bytes[113] = 8;
    bytes[114] = 9;
    bytes[117] = 10;
    bytes[118] = 11;
    bytes[125] = 12;
    let entry = Pk2Entry::decode(&bytes).unwrap();
    assert_eq!(entry.entry_type, EntryKind::Folder);
    assert_eq!(entry.name[80], b'z');
    assert_eq!(entry.access_time, 0x0200_0000_0000_0001);
    assert_eq!(entry.create_time, 0x0400_0000_0000_0003);
    assert_eq!(entry.modify_time, 0x0600_0000_0000_0005);
    assert_eq!(entry.position, 0x0800_0000_0000_0007);
    assert_eq!(entry.size, 0x0A00_0009);
    assert_eq!(entry.next_chain, 0x0C00_0000_0000_000B);
}

#[test]
fn padding_is_not_significant() {
    let a = sample();
    let mut b = sample();
    b[126] = 0;
    b[127] = 0xFF;
    let x = Pk2Entry::decode(&a).unwrap();
    let y = Pk2Entry::decode(&b).unwrap();
    assert_eq!(x.entry_type, y.entry_type);
    assert_eq!(x.name, y.name);
    assert_eq!(x.position, y.position);
    assert_eq!(x.size, y.size);
    assert_eq!(x.next_chain, y.next_chain);
    assert_eq!(x.modify_time, y.modify_time);
}

#[test]
fn tags_other_than_one_and_two_are_empty_slots() {
    assert_eq!(Pk2Entry::decode(&record(0, b"x")).unwrap().entry_type, EntryKind::Null);
    assert_eq!(Pk2Entry::decode(&record(1, b"x")).unwrap().entry_type, EntryKind::Folder);
    assert_eq!(Pk2Entry::decode(&record(2, b"x")).unwrap().entry_type, EntryKind::File);
    for tag in 3..=255u8 {
        assert_eq!(Pk2Entry::decode(&record(tag, b"x")).unwrap().entry_type, EntryKind::Null);
    }
}

#[test]
fn short_record_does_not_decode() {
    assert!(Pk2Entry::decode(&sample()[..127]).is_none());
    assert!(Pk2Entry::decode(&[]).is_none());
    let mut long = sample();
    long.extend_from_slice(&[1, 2, 3]);
    assert_eq!(Pk2Entry::decode(&long).unwrap().size, 0xCAFE_F00D);
}

#[test]
fn decode_at_reads_from_the_given_byte() {
    let mut bytes = vec![0xEE; 300];
    bytes[100..228].copy_from_slice(&sample());
    let entry = Pk2Entry::decode_at(&bytes, 100);
    assert_eq!(entry.name(), "DIVISIONINFO.TXT");
    assert_eq!(entry.size, 0xCAFE_F00D);
    assert_eq!(entry.next_chain, -2);
}

#[test]
fn negative_position_is_a_large_offset() {
    let mut bytes = record(1, b"far");
    bytes[106..114].copy_from_slice(&(-4096i64).to_le_bytes());
    let entry = Pk2Entry::decode(&bytes).unwrap();
    assert_eq!(entry.position, -4096);
    assert_eq!(entry.offset(), 0xFFFF_FFFF_FFFF_F000);
}

#[test]
fn name_ends_at_the_first_nul() {
    assert_eq!(Pk2Entry::decode(&record(2, b"a\0b")).unwrap().name(), "a");
    assert_eq!(Pk2Entry::decode(&record(2, b"")).unwrap().name(), "");
    assert_eq!(find_name_len(b"abc\0def\0"), 3);
    assert_eq!(find_name_len(b"\0abc"), 0);
    assert_eq!(find_name_len(b"abc"), 3);
    assert_eq!(find_name_len(b""), 0);
    assert_eq!(name_text(b"folder\0\0\0"), "folder");
}

#[test]
fn name_without_nul_fills_the_field() {
    let full = [b'n'; 81];
    let entry = Pk2Entry::decode(&record(2, &full)).unwrap();
    assert_eq!(entry.name(), "n".repeat(81));
}

#[test]
fn name_that_is_not_utf8_gets_replacement_characters() {
    assert_eq!(Pk2Entry::decode(&record(2, &[0xFF])).unwrap().name(), "\u{FFFD}");
    assert_eq!(Pk2Entry::decode(&record(2, &[b'a', 0xE2, 0x82, 0, b'b'])).unwrap().name(), "a\u{FFFD}");
    assert_eq!(Pk2Entry::decode(&record(2, &[0xC3, 0xA9])).unwrap().name(), "\u{E9}");
    assert_eq!(name_text(&[0xE2, 0x82, 0xAC, b'5']), "\u{20AC}5");
}

#[test]
fn clone_keeps_every_field() {
    let entry = Pk2Entry::decode(&sample()).unwrap();
    let copy = entry.clone();
    assert_eq!(copy.entry_type, entry.entry_type);
    assert_eq!(copy.name, entry.name);
    assert_eq!(copy.access_time, entry.access_time);
    assert_eq!(copy.create_time, entry.create_time);
    assert_eq!(copy.modify_time, entry.modify_time);
    assert_eq!(copy.position, entry.position);
    assert_eq!(copy.size, entry.size);
    assert_eq!(copy.next_chain, entry.next_chain);
}

#[test]
fn block_decodes_to_twenty_records_in_slot_order() {
    let mut block = Vec::new();
    for slot in 0..20u8 {
        let mut bytes = record(2, format!("file{}", slot).as_bytes());
        bytes[114..118].copy_from_slice(&(slot as u32 * 10).to_le_bytes());
        block.extend_from_slice(&bytes);
    }
    let records = decode_block(&block).unwrap();
    assert_eq!(records.len(), 20);
    for slot in 0..20usize {
        assert_eq!(records[slot].name(), format!("file{}", slot));
        assert_eq!(records[slot].size, slot as u32 * 10);
    }
}

#[test]
fn short_block_is_a_format_error() {
    let block = vec![0u8; 2560];
    assert!(decode_block(&block).is_ok());
    assert_eq!(decode_block(&block[..2559]).err(), Some(Pk2Error::Format));
    assert_eq!(decode_block(&block[..128]).err(), Some(Pk2Error::Format));
    assert_eq!(decode_block(&[]).err(), Some(Pk2Error::Format));
    let mut long = block.clone();
    long.extend_from_slice(&[2; 128]);
    assert_eq!(decode_block(&long).unwrap().len(), 20);
}
