//! The archive reader: header check, traversal and lookup.
//!
//! The reader never touches a stream. [`Pk2Reader::next_block`] says which
//! block to read, [`Pk2Reader::read_block`] takes what the stream returned.
//! Once nothing is pending the index is complete, and [`Pk2Reader::find`] and
//! [`Pk2Reader::get_file`] serve extractions the same way: the first says
//! where the payload lies, the second checks what was read there.

use crate::cipher::{archive_key, blowfish_decrypted, decrypt};
use crate::endian::to_unsigned;
use crate::entry::{
    decode_block, decoded_block, views, EntryKind, EntryView, Pk2Entry, BLOCK_LEN,
};
use crate::error::Pk2Error;
use crate::header::{signature_matches, Pk2Header};
use crate::index::{follow, holds_no_empty_slot, ArchiveIndex};
use crate::walk::{
    continuation, index_records, initial_state, lemma_index_records_push,
    lemma_no_empty_slot_enters, subfolders, successors, visit, WalkState, ROOT_OFFSET,
};
use vstd::prelude::*;

verus! {

/// Reads one archive: builds the index block by block, then answers lookups.
pub struct Pk2Reader {
    entries: ArchiveIndex,
    /// Offsets still to visit, the next one last.
    pending: Vec<u64>,
}

/// What a read that returned `raw` means to the traversal: nothing if it is
/// shorter than a block, else the records that its first 2560 bytes hold
/// under the cipher.
pub open spec fn records_read(raw: Seq<u8>) -> Option<Seq<EntryView>> {
    if raw.len() < 2560 {
        None
    } else {
        Some(decoded_block(blowfish_decrypted(archive_key(), raw.take(2560))))
    }
}

impl View for Pk2Reader {
    type V = WalkState;

    closed spec fn view(&self) -> WalkState {
        WalkState { index: self.entries@, pending: self.pending@.reverse() }
    }
}

impl Pk2Reader {
    /// Starts reading an archive from `header`, the bytes at its start.
    ///
    /// Succeeds if and only if there are at least 256 bytes and the signature
    /// matches. The reader then has an empty index and asks for the root
    /// block.
    pub fn new(header: &[u8]) -> (reader: Result<Pk2Reader, Pk2Error>)
        ensures
            reader is Ok <==> header@.len() >= 256 && signature_matches(header@.subrange(0, 30)),
            reader matches Ok(r) ==> r@ == initial_state(),
            reader matches Err(e) ==> e == Pk2Error::Format,
    {
        match Pk2Header::parse(header) {
            Err(e) => Err(e),
            Ok(_) => {
                let mut pending: Vec<u64> = Vec::new();
                pending.push(ROOT_OFFSET);
                let reader = Pk2Reader { entries: ArchiveIndex::new(), pending };
                assert(reader@.pending =~= initial_state().pending);
                Ok(reader)
            },
        }
    }

    /// The offset of the block to read next, or `None` once the index is
    /// complete.
    pub fn next_block(&self) -> (offset: Option<u64>)
        ensures
            offset == if self@.pending.len() == 0 {
                None
            } else {
                Some(self@.pending[0])
            },
    {
        let n = self.pending.len();
        if n == 0 {
            None
        } else {
            Some(self.pending[n - 1])
        }
    }

    /// The index as far as it has been built.
    pub fn index(&self) -> (index: &ArchiveIndex)
        ensures
            index@ == self@.index,
    {
        &self.entries
    }

    /// Visits the block at the head of the pending offsets, given its
    /// decrypted bytes.
    ///
    /// A block shorter than 2560 bytes is a format error and leaves the
    /// reader as it was. Otherwise the records enter the index in slot order
    /// and the successors of the block go in front of the pending offsets.
    /// With nothing pending the block is ignored.
    pub fn index_block(&mut self, block: &[u8]) -> (res: Result<(), Pk2Error>)
        ensures
            block@.len() < 2560 ==> res == Err::<(), Pk2Error>(Pk2Error::Format) && *final(self)
                == *old(self),
            block@.len() >= 2560 ==> res is Ok && final(self)@ == visit(
                old(self)@,
                decoded_block(block@),
            ),
            holds_no_empty_slot(old(self)@.index) ==> holds_no_empty_slot(final(self)@.index),
    {
        let records = match decode_block(block) {
            Ok(records) => records,
            Err(e) => {
                return Err(e);
            },
        };
        if self.pending.len() == 0 {
            return Ok(());
        }
        let ghost all = views(records@);
        let ghost rest = old(self).pending@.drop_last();
        self.pending.pop();
        let mut folders: Vec<u64> = Vec::new();
        for slot in 0..20
            invariant
                records@.len() == 20,
                all == views(records@),
                self.pending@ == rest,
                self@.index == index_records(old(self)@.index, all.take(slot as int)),
                folders@ == subfolders(all.take(slot as int)),
        {
            let entry = &records[slot];
            proof {
                lemma_index_records_push(old(self)@.index, all.take(slot as int), all[slot as int]);
                assert(all.take(slot + 1) =~= all.take(slot as int).push(all[slot as int]));
            }
            match entry.entry_type {
                EntryKind::Null => {},
                _ => {
                    let name = entry.name();
                    if let Some(offset) = follow(&name, entry) {
                        folders.push(offset);
                    }
                    self.entries.enter(name, entry.clone());
                },
            }
        }
        assert(all.take(20) =~= all);
        proof {
            if holds_no_empty_slot(old(self)@.index) {
                lemma_no_empty_slot_enters(old(self)@.index, all);
            }
        }
        if records[19].next_chain != 0 {
            self.pending.push(to_unsigned(records[19].next_chain));
        }
        let mut left: usize = folders.len();
        while left > 0
            invariant
                left <= folders@.len(),
                self@.index == index_records(old(self)@.index, all),
                self.pending@ == rest + continuation(all) + folders@.subrange(
                    left as int,
                    folders@.len() as int,
                ).reverse(),
            decreases left,
        {
            left -= 1;
            self.pending.push(folders[left]);
        }
        assert(self@.pending =~= successors(all) + old(self)@.pending.drop_first());
        Ok(())
    }

    /// Visits the block at the head of the pending offsets, given its bytes
    /// as the stream returned them.
    ///
    /// A read shorter than 2560 bytes is a format error and leaves the reader
    /// as it was. Otherwise the first 2560 bytes are decrypted under the
    /// archive key and visited as [`Pk2Reader::index_block`] says.
    pub fn read_block(&mut self, raw: &[u8]) -> (res: Result<(), Pk2Error>)
        ensures
            match records_read(raw@) {
                None => res == Err::<(), Pk2Error>(Pk2Error::Format) && *final(self) == *old(
                    self,
                ),
                Some(records) => res is Ok && final(self)@ == visit(old(self)@, records),
            },
            holds_no_empty_slot(old(self)@.index) ==> holds_no_empty_slot(final(self)@.index),
    {
        if raw.len() < BLOCK_LEN {
            return Err(Pk2Error::Format);
        }
        let plain = decrypt(vstd::slice::slice_subrange(raw, 0, BLOCK_LEN));
        self.index_block(plain.as_slice())
    }

    /// Looks `filename` up in the index.
    ///
    /// A name that is not in the index is reported as not found; no read is
    /// then asked of the stream. Otherwise the entry says where the payload
    /// lies: `size` bytes at `position`.
    pub fn find(&self, filename: &String) -> (entry: Result<Pk2Entry, Pk2Error>)
        ensures
            entry is Ok <==> self@.index.contains_key(filename@),
            entry matches Ok(e) ==> e@ == self@.index[filename@],
            entry matches Err(e) ==> e == Pk2Error::NotFound,
    {
        match self.entries.get(filename) {
            Some(entry) => Ok(entry),
            None => Err(Pk2Error::NotFound),
        }
    }

    /// Completes the extraction of `filename`: `data` is what the stream
    /// returned when asked for the payload that [`Pk2Reader::find`] located.
    ///
    /// Returns `data` if the name is in the index and `data` is exactly as
    /// long as its entry declares. The kind of the entry is not consulted.
    pub fn get_file(&self, filename: &String, data: Vec<u8>) -> (payload: Result<
        Vec<u8>,
        Pk2Error,
    >)
        ensures
            match payload {
                Ok(bytes) => {
                    &&& self@.index.contains_key(filename@)
                    &&& data@.len() == self@.index[filename@].size
                    &&& bytes == data
                },
                Err(Pk2Error::NotFound) => !self@.index.contains_key(filename@),
                Err(Pk2Error::Corruption) => {
                    &&& self@.index.contains_key(filename@)
                    &&& data@.len() != self@.index[filename@].size
                },
                Err(Pk2Error::Format) => false,
            },
    {
        let entry = match self.find(filename) {
            Ok(entry) => entry,
            Err(e) => {
                return Err(e);
            },
        };
        if data.len() != entry.size as usize {
            return Err(Pk2Error::Corruption);
        }
        Ok(data)
    }
}

} // verus!
