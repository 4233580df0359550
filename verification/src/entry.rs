//! Directory records and the blocks that hold them.
//!
//! A record is 128 bytes: kind (1), name (81), three timestamps (8 each),
//! position (8), size (4), next chain (8) and two bytes of padding. All
//! numbers are little-endian. A block is twenty records.

use crate::endian::{as_signed, as_unsigned, le_value, read_i64, read_u32, read_u64, to_unsigned};
use crate::error::Pk2Error;
use crate::text::{lossy_text, name_bytes, name_text};
use vstd::prelude::*;

verus! {

/// Bytes in one record.
pub const RECORD_LEN: usize = 128;

/// Records in one block.
pub const RECORDS_PER_BLOCK: usize = 20;

/// Bytes in one block.
pub const BLOCK_LEN: usize = 2560;

/// What a record describes.
#[derive(Clone, Copy, Debug, PartialEq, Eq, Structural)]
pub enum EntryKind {
    /// An empty slot.
    Null,
    /// A directory; its position is the offset of its first block.
    Folder,
    /// A file; its position and size locate its payload.
    File,
}

/// The kind that a tag byte stands for. Tags other than 1 and 2 are empty
/// slots.
pub open spec fn kind_of(tag: u8) -> EntryKind {
    if tag == 1 {
        EntryKind::Folder
    } else if tag == 2 {
        EntryKind::File
    } else {
        EntryKind::Null
    }
}

/// One directory record.
#[derive(Debug)]
pub struct Pk2Entry {
    /// What the record describes.
    pub entry_type: EntryKind,
    /// The name field as stored; the name ends at the first NUL.
    pub name: [u8; 81],
    /// Time of last access.
    pub access_time: u64,
    /// Time of creation.
    pub create_time: u64,
    /// Time of last modification.
    pub modify_time: u64,
    /// Offset in the archive of the payload (file) or first block (folder).
    pub position: i64,
    /// Length of the payload in bytes.
    pub size: u32,
    /// Offset of the block that continues this one, in the last record of a
    /// block; zero for none.
    pub next_chain: i64,
}

/// A record as a mathematical value.
pub struct EntryView {
    pub kind: EntryKind,
    pub name: Seq<u8>,
    pub access_time: u64,
    pub create_time: u64,
    pub modify_time: u64,
    pub position: i64,
    pub size: u32,
    pub next_chain: i64,
}

impl View for Pk2Entry {
    type V = EntryView;

    open spec fn view(&self) -> EntryView {
        EntryView {
            kind: self.entry_type,
            name: self.name@,
            access_time: self.access_time,
            create_time: self.create_time,
            modify_time: self.modify_time,
            position: self.position,
            size: self.size,
            next_chain: self.next_chain,
        }
    }
}

/// The name of a record as text: what the name field spells up to its first
/// NUL.
pub open spec fn entry_name(entry: EntryView) -> Seq<char> {
    lossy_text(name_bytes(entry.name))
}

/// The record that the 128 bytes of `record` encode.
pub open spec fn decoded_record(record: Seq<u8>) -> EntryView {
    EntryView {
        kind: kind_of(record[0]),
        name: record.subrange(1, 82),
        access_time: le_value(record.subrange(82, 90)) as u64,
        create_time: le_value(record.subrange(90, 98)) as u64,
        modify_time: le_value(record.subrange(98, 106)) as u64,
        position: as_signed(le_value(record.subrange(106, 114)) as u64),
        size: le_value(record.subrange(114, 118)) as u32,
        next_chain: as_signed(le_value(record.subrange(118, 126)) as u64),
    }
}

/// The bytes of slot `slot` in `block`.
pub open spec fn record_bytes(block: Seq<u8>, slot: int) -> Seq<u8> {
    block.subrange(128 * slot, 128 * slot + 128)
}

/// The twenty records that the first 2560 bytes of `block` encode, in slot
/// order.
pub open spec fn decoded_block(block: Seq<u8>) -> Seq<EntryView> {
    Seq::new(20, |slot: int| decoded_record(record_bytes(block, slot)))
}

/// The padding of a record is not part of what it decodes to.
pub proof fn lemma_padding_ignored(a: Seq<u8>, b: Seq<u8>)
    requires
        a.len() == 128,
        b.len() == 128,
        a.take(126) == b.take(126),
    ensures
        decoded_record(a) == decoded_record(b),
{
    assert(a[0] == a.take(126)[0]);
    assert(b[0] == b.take(126)[0]);
    assert forall|i: int, j: int| 0 <= i <= j <= 126 implies #[trigger] a.subrange(i, j)
        == b.subrange(i, j) by {
        assert(a.subrange(i, j) =~= a.take(126).subrange(i, j));
        assert(b.subrange(i, j) =~= b.take(126).subrange(i, j));
    }
}

impl Clone for Pk2Entry {
    fn clone(&self) -> (copy: Self)
        ensures
            copy == *self,
    {
        let mut entry = Pk2Entry {
            entry_type: self.entry_type,
            name: [0;81],
            access_time: self.access_time,
            create_time: self.create_time,
            modify_time: self.modify_time,
            position: self.position,
            size: self.size,
            next_chain: self.next_chain,
        };
        for i in 0..81
            invariant
                entry.entry_type == self.entry_type,
                entry.access_time == self.access_time,
                entry.create_time == self.create_time,
                entry.modify_time == self.modify_time,
                entry.position == self.position,
                entry.size == self.size,
                entry.next_chain == self.next_chain,
                forall|j: int| 0 <= j < i ==> entry.name[j] == self.name[j],
        {
            entry.name[i] = self.name[i];
        }
        assert(entry.name =~= self.name);
        entry
    }
}

impl Pk2Entry {
    /// Decodes the record that starts at byte `at` of `bytes`.
    pub fn decode_at(bytes: &[u8], at: usize) -> (entry: Pk2Entry)
        requires
            at + 128 <= bytes.len(),
        ensures
            entry@ == decoded_record(bytes@.subrange(at as int, at + 128)),
    {
        let ghost record = bytes@.subrange(at as int, at + 128);
        let tag = bytes[at];
        let entry_type = if tag == 1 {
            EntryKind::Folder
        } else if tag == 2 {
            EntryKind::File
        } else {
            EntryKind::Null
        };
        let mut name = [0u8;81];
        for i in 0..81
            invariant
                at + 128 <= bytes.len(),
                forall|j: int| 0 <= j < i ==> name[j] == bytes@[at + 1 + j],
        {
            name[i] = bytes[at + 1 + i];
        }
        assert(name@ =~= record.subrange(1, 82));
        proof {
            assert(record.subrange(82, 90) =~= bytes@.subrange(at + 82, at + 90));
            assert(record.subrange(90, 98) =~= bytes@.subrange(at + 90, at + 98));
            assert(record.subrange(98, 106) =~= bytes@.subrange(at + 98, at + 106));
            assert(record.subrange(106, 114) =~= bytes@.subrange(at + 106, at + 114));
            assert(record.subrange(114, 118) =~= bytes@.subrange(at + 114, at + 118));
            assert(record.subrange(118, 126) =~= bytes@.subrange(at + 118, at + 126));
        }
        Pk2Entry {
            entry_type,
            name,
            access_time: read_u64(bytes, at + 82),
            create_time: read_u64(bytes, at + 90),
            modify_time: read_u64(bytes, at + 98),
            position: read_i64(bytes, at + 106),
            size: read_u32(bytes, at + 114),
            next_chain: read_i64(bytes, at + 118),
        }
    }

    /// The name of the record as text.
    pub fn name(&self) -> (text: String)
        ensures
            text@ == entry_name(self@),
    {
        name_text(&self.name)
    }

    /// The position of the record as an offset from the start of the archive.
    pub fn offset(&self) -> (offset: u64)
        ensures
            offset == as_unsigned(self.position),
    {
        to_unsigned(self.position)
    }

    /// Decodes a record from its 128 bytes; `None` if `record` is shorter.
    /// Bytes after the first 128 are ignored.
    pub fn decode(record: &[u8]) -> (entry: Option<Pk2Entry>)
        ensures
            entry is Some <==> record@.len() >= 128,
            entry matches Some(e) ==> e@ == decoded_record(record@.take(128)),
    {
        if record.len() < RECORD_LEN {
            None
        } else {
            Some(Pk2Entry::decode_at(record, 0))
        }
    }
}

/// The views of `entries`, in order.
pub open spec fn views(entries: Seq<Pk2Entry>) -> Seq<EntryView> {
    Seq::new(entries.len(), |i: int| entries[i]@)
}

/// Decodes the twenty records of a decrypted block.
///
/// A block shorter than 2560 bytes is a format error; bytes after the first
/// 2560 are ignored.
pub fn decode_block(block: &[u8]) -> (records: Result<Vec<Pk2Entry>, Pk2Error>)
    ensures
        records is Ok <==> block@.len() >= 2560,
        records matches Ok(v) ==> v@.len() == 20 && views(v@) == decoded_block(block@),
        records matches Err(e) ==> e == Pk2Error::Format,
{
    if block.len() < BLOCK_LEN {
        return Err(Pk2Error::Format);
    }
    let mut records: Vec<Pk2Entry> = Vec::new();
    for slot in 0..RECORDS_PER_BLOCK
        invariant
            block.len() >= 2560,
            records@.len() == slot,
            forall|i: int|
                0 <= i < slot ==> (#[trigger] records@[i])@ == decoded_record(
                    record_bytes(block@, i),
                ),
    {
        let entry = Pk2Entry::decode_at(block, RECORD_LEN * slot);
        records.push(entry);
    }
    Ok(records)
}

} // verus!
