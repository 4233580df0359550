//! The index of an archive: from the name of an entry to its record.
//!
//! Names are last path components, so entries of different folders can share
//! one. The index holds one record per name, the one entered last.

use crate::endian::{as_unsigned, to_unsigned};
use crate::entry::{EntryKind, EntryView, Pk2Entry};
use vstd::hash_map::StringHashMap;
use vstd::prelude::*;
use vstd::string::StringExecFns;

verus! {

/// Whether `name` stands for a folder itself or for its parent.
pub open spec fn is_alias(name: Seq<char>) -> bool {
    name == "."@ || name == ".."@
}

/// Whether a record enters the index: every record but an empty slot.
pub open spec fn is_indexed(entry: EntryView) -> bool {
    entry.kind != EntryKind::Null
}

/// `index` after `entry` has been entered under `name`. An empty slot is
/// not entered; any other record replaces what the name led to before.
pub open spec fn entered(
    index: Map<Seq<char>, EntryView>,
    name: Seq<char>,
    entry: EntryView,
) -> Map<Seq<char>, EntryView> {
    if is_indexed(entry) {
        index.insert(name, entry)
    } else {
        index
    }
}

/// The offset to descend into because of `entry` of name `name`: that of a
/// folder that is neither the folder itself nor its parent.
pub open spec fn followed(name: Seq<char>, entry: EntryView) -> Option<u64> {
    if entry.kind == EntryKind::Folder && !is_alias(name) {
        Some(as_unsigned(entry.position))
    } else {
        None
    }
}

/// Whether no empty slot is a value of `index`.
pub open spec fn holds_no_empty_slot(index: Map<Seq<char>, EntryView>) -> bool {
    forall|name: Seq<char>| #[trigger] index.contains_key(name) ==> is_indexed(index[name])
}

/// Whether `name` is `.` or `..`.
pub fn is_alias_name(name: &String) -> (alias: bool)
    ensures
        alias == is_alias(name@),
{
    let dot = String::from_str(".");
    let dot_dot = String::from_str("..");
    *name == dot || *name == dot_dot
}

/// The offset of the block to visit because of `entry`, whose name is
/// `name`, if the traversal descends into it.
pub fn follow(name: &String, entry: &Pk2Entry) -> (offset: Option<u64>)
    ensures
        offset == followed(name@, entry@),
{
    match entry.entry_type {
        EntryKind::Folder => {
            if is_alias_name(name) {
                None
            } else {
                Some(to_unsigned(entry.position))
            }
        },
        _ => None,
    }
}

/// The entries of an archive by name.
pub struct ArchiveIndex {
    entries: StringHashMap<Pk2Entry>,
}

impl View for ArchiveIndex {
    type V = Map<Seq<char>, EntryView>;

    closed spec fn view(&self) -> Map<Seq<char>, EntryView> {
        self.entries@.map_values(|entry: Pk2Entry| entry@)
    }
}

impl ArchiveIndex {
    /// An index without entries.
    pub fn new() -> (index: ArchiveIndex)
        ensures
            index@ == Map::<Seq<char>, EntryView>::empty(),
    {
        ArchiveIndex { entries: StringHashMap::new() }
    }

    /// Enters `entry` under `name`, in place of any entry of that name. An
    /// empty slot is not entered.
    pub fn enter(&mut self, name: String, entry: Pk2Entry)
        ensures
            final(self)@ == entered(old(self)@, name@, entry@),
            holds_no_empty_slot(old(self)@) ==> holds_no_empty_slot(final(self)@),
    {
        match entry.entry_type {
            EntryKind::Null => {},
            _ => {
                self.entries.insert(name, entry);
            },
        }
    }

    /// The entry of name `name`, if there is one.
    pub fn get(&self, name: &String) -> (entry: Option<Pk2Entry>)
        ensures
            entry is Some <==> self@.contains_key(name@),
            entry matches Some(e) ==> e@ == self@[name@],
    {
        match self.entries.get(name.as_str()) {
            Some(entry) => Some(entry.clone()),
            None => None,
        }
    }

    /// Whether there is an entry of name `name`.
    pub fn contains(&self, name: &String) -> (present: bool)
        ensures
            present == self@.contains_key(name@),
    {
        self.entries.contains_key(name.as_str())
    }

    /// The number of entries.
    pub fn len(&self) -> (count: usize)
        ensures
            count == self@.len(),
    {
        proof {
            lemma_map_values_len(self.entries@);
        }
        self.entries.len()
    }
}

/// Mapping the values of a map keeps its domain, and so its size.
proof fn lemma_map_values_len(entries: Map<Seq<char>, Pk2Entry>)
    ensures
        entries.map_values(|entry: Pk2Entry| entry@).len() == entries.len(),
{
    assert(entries.map_values(|entry: Pk2Entry| entry@).dom() =~= entries.dom());
}

} // verus!
