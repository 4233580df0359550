use pk2::entry::{EntryKind, Pk2Entry};
use pk2::index::{follow, is_alias_name, ArchiveIndex};

fn entry(kind: u8, name: &str, position: i64, size: u32) -> Pk2Entry {
    let mut bytes = vec![0u8; 128];
    bytes[0] = kind;
    bytes[1..1 + name.len()].copy_from_slice(name.as_bytes());
    bytes[106..114].copy_from_slice(&position.to_le_bytes());
    bytes[114..118].copy_from_slice(&size.to_le_bytes());
    Pk2Entry::decode(&bytes).unwrap()
}

#[test]
fn new_index_is_empty() {
    let index = ArchiveIndex::new();
    assert_eq!(index.len(), 0);
    assert!(!index.contains(&"a".to_string()));
    assert!(index.get(&"a".to_string()).is_none());
    assert!(index.get(&"".to_string()).is_none());
}

#[test]
fn entered_record_is_found_under_its_name() {
    let mut index = ArchiveIndex::new();
    index.enter("a.txt".to_string(), entry(2, "a.txt", 1000, 10));
    index.enter("dir".to_string(), entry(1, "dir", 2816, 0));
    assert_eq!(index.len(), 2);
    assert!(index.contains(&"a.txt".to_string()));
    let file = index.get(&"a.txt".to_string()).unwrap();
    assert_eq!(file.entry_type, EntryKind::File);
    assert_eq!(file.position, 1000);
    assert_eq!(file.size, 10);
    let dir = index.get(&"dir".to_string()).unwrap();
    assert_eq!(dir.entry_type, EntryKind::Folder);
    assert_eq!(dir.position, 2816);
    assert!(index.get(&"A.TXT".to_string()).is_none());
}

#[test]
fn later_record_replaces_earlier_of_the_same_name() {
    let mut index = ArchiveIndex::new();
    index.enter("same".to_string(), entry(2, "same", 1, 11));
    index.enter("other".to_string(), entry(2, "other", 2, 22));
    index.enter("same".to_string(), entry(1, "same", 3, 33));
    assert_eq!(index.len(), 2);
    let kept = index.get(&"same".to_string()).unwrap();
    assert_eq!(kept.entry_type, EntryKind::Folder);
    assert_eq!(kept.position, 3);
    assert_eq!(kept.size, 33);
    assert_eq!(index.get(&"other".to_string()).unwrap().size, 22);
}

#[test]
fn empty_slot_is_not_entered() {
    let mut index = ArchiveIndex::new();
    index.enter("ghost".to_string(), entry(0, "ghost", 5, 5));
    index.enter("odd".to_string(), entry(7, "odd", 5, 5));
    assert_eq!(index.len(), 0);
    assert!(!index.contains(&"ghost".to_string()));
    assert!(!index.contains(&"odd".to_string()));
}

#[test]
fn empty_slot_does_not_replace_an_entry() {
    let mut index = ArchiveIndex::new();
    index.enter("name".to_string(), entry(2, "name", 64, 8));
    index.enter("name".to_string(), entry(0, "name", 99, 99));
    let kept = index.get(&"name".to_string()).unwrap();
    assert_eq!(kept.entry_type, EntryKind::File);
    assert_eq!(kept.position, 64);
    assert_eq!(kept.size, 8);
}

#[test]
fn the_name_given_is_the_key() {
    let mut index = ArchiveIndex::new();
    index.enter("key".to_string(), entry(2, "stored", 1, 1));
    assert!(index.contains(&"key".to_string()));
    assert!(!index.contains(&"stored".to_string()));
}

#[test]
fn aliases_are_dot_and_dot_dot_only() {
    assert!(is_alias_name(&".".to_string()));
    assert!(is_alias_name(&"..".to_string()));
    for name in ["", "...", " .", ". ", "../", "a", ".a", "。"] {
        assert!(!is_alias_name(&name.to_string()));
    }
}

#[test]
fn follow_gives_the_offset_of_a_real_folder() {
    assert_eq!(follow(&"data".to_string(), &entry(1, "data", 2816, 0)), Some(2816));
    assert_eq!(follow(&"...".to_string(), &entry(1, "...", 5376, 0)), Some(5376));
    assert_eq!(follow(&"".to_string(), &entry(1, "", 7936, 0)), Some(7936));
    assert_eq!(follow(&"neg".to_string(), &entry(1, "neg", -1, 0)), Some(u64::MAX));
    assert_eq!(follow(&"zero".to_string(), &entry(1, "zero", 0, 0)), Some(0));
}

#[test]
fn follow_skips_aliases_files_and_empty_slots() {
    assert_eq!(follow(&".".to_string(), &entry(1, ".", 2816, 0)), None);
    assert_eq!(follow(&"..".to_string(), &entry(1, "..", 256, 0)), None);
    assert_eq!(follow(&"file".to_string(), &entry(2, "file", 2816, 0)), None);
    assert_eq!(follow(&"void".to_string(), &entry(0, "void", 2816, 0)), None);
    assert_eq!(follow(&"odd".to_string(), &entry(3, "odd", 2816, 0)), None);
}

#[test]
fn follow_goes_by_the_name_given() {
    assert_eq!(follow(&".".to_string(), &entry(1, "data", 2816, 0)), None);
    assert_eq!(follow(&"data".to_string(), &entry(1, ".", 2816, 0)), Some(2816));
}
