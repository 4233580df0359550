//! The traversal of the directory tree, as a mathematical model.
//!
//! Visiting a block indexes its records in slot order and yields the offsets
//! to visit next: the subfolders it names, in slot order, then the block that
//! continues it. The offsets still to visit form a sequence whose head is
//! visited next; the successors of a block go in front of the rest, which
//! makes the traversal depth-first.

use crate::endian::as_unsigned;
use crate::entry::{entry_name, EntryKind, EntryView};
use crate::index::{entered, followed, holds_no_empty_slot, is_alias, is_indexed};
use vstd::prelude::*;

verus! {

/// Offset of the root block: the byte after the header.
pub const ROOT_OFFSET: u64 = 256;

/// Whether the traversal descends into a record: a folder that is neither
/// the folder itself nor its parent.
pub open spec fn is_subfolder(entry: EntryView) -> bool {
    followed(entry_name(entry), entry) is Some
}

/// `index` after the records of `records` have been entered in order, each
/// under its name, a later one replacing an earlier one of the same name.
pub open spec fn index_records(
    index: Map<Seq<char>, EntryView>,
    records: Seq<EntryView>,
) -> Map<Seq<char>, EntryView>
    decreases records.len(),
{
    if records.len() == 0 {
        index
    } else {
        entered(
            index_records(index, records.drop_last()),
            entry_name(records.last()),
            records.last(),
        )
    }
}

/// The offsets of the subfolders among `records`, in order.
pub open spec fn subfolders(records: Seq<EntryView>) -> Seq<u64>
    decreases records.len(),
{
    if records.len() == 0 {
        Seq::empty()
    } else {
        match followed(entry_name(records.last()), records.last()) {
            Some(offset) => subfolders(records.drop_last()).push(offset),
            None => subfolders(records.drop_last()),
        }
    }
}

/// The offset of the block that continues a block with these records: the
/// next chain of the last record, unless that is zero.
pub open spec fn continuation(records: Seq<EntryView>) -> Seq<u64> {
    if records.len() > 0 && records.last().next_chain != 0 {
        seq![as_unsigned(records.last().next_chain)]
    } else {
        Seq::empty()
    }
}

/// The offsets to visit because of a block with these records: its
/// subfolders, then its continuation.
pub open spec fn successors(records: Seq<EntryView>) -> Seq<u64> {
    subfolders(records) + continuation(records)
}

/// Where a traversal stands.
pub struct WalkState {
    /// The index built so far.
    pub index: Map<Seq<char>, EntryView>,
    /// The offsets of the blocks still to visit; the first is next.
    pub pending: Seq<u64>,
}

/// The state before any block has been visited.
pub open spec fn initial_state() -> WalkState {
    WalkState { index: Map::empty(), pending: seq![ROOT_OFFSET] }
}

/// The state after the block at the head of `state.pending` turned out to
/// hold `records`. With nothing pending the state stays as it is.
pub open spec fn visit(state: WalkState, records: Seq<EntryView>) -> WalkState {
    if state.pending.len() == 0 {
        state
    } else {
        WalkState {
            index: index_records(state.index, records),
            pending: successors(records) + state.pending.drop_first(),
        }
    }
}

/// Whether slot `slot` of `records` is the last one that enters the index
/// under `name`.
pub open spec fn is_last_named(records: Seq<EntryView>, name: Seq<char>, slot: int) -> bool {
    &&& 0 <= slot < records.len()
    &&& is_indexed(records[slot])
    &&& entry_name(records[slot]) == name
    &&& forall|later: int|
        slot < later < records.len() && is_indexed(#[trigger] records[later]) ==> entry_name(
            records[later],
        ) != name
}

/// Whether some record of `records` enters the index under `name`.
pub open spec fn names(records: Seq<EntryView>, name: Seq<char>) -> bool {
    exists|slot: int|
        0 <= slot < records.len() && is_indexed(#[trigger] records[slot]) && entry_name(
            records[slot],
        ) == name
}

/// Entering one more record.
pub proof fn lemma_index_records_push(
    index: Map<Seq<char>, EntryView>,
    records: Seq<EntryView>,
    entry: EntryView,
)
    ensures
        index_records(index, records.push(entry)) == entered(
            index_records(index, records),
            entry_name(entry),
            entry,
        ),
        subfolders(records.push(entry)) == match followed(entry_name(entry), entry) {
            Some(offset) => subfolders(records).push(offset),
            None => subfolders(records),
        },
{
    assert(records.push(entry).drop_last() =~= records);
}

/// Entering the records of `first` and then those of `second` is entering
/// those of `first + second`; likewise for the subfolders they name.
pub proof fn lemma_concat(
    index: Map<Seq<char>, EntryView>,
    first: Seq<EntryView>,
    second: Seq<EntryView>,
)
    ensures
        index_records(index, first + second) == index_records(
            index_records(index, first),
            second,
        ),
        subfolders(first + second) == subfolders(first) + subfolders(second),
    decreases second.len(),
{
    if second.len() > 0 {
        lemma_concat(index, first, second.drop_last());
        assert((first + second).drop_last() =~= first + second.drop_last());
    }
}

/// A name is a key of the index after a block exactly if it was one before
/// or some record of the block enters under it. An empty slot is no such
/// record, whatever name its bytes spell.
pub proof fn lemma_index_keys(
    index: Map<Seq<char>, EntryView>,
    records: Seq<EntryView>,
    name: Seq<char>,
)
    ensures
        index_records(index, records).contains_key(name) <==> index.contains_key(name) || names(
            records,
            name,
        ),
    decreases records.len(),
{
    if records.len() > 0 {
        let earlier = records.drop_last();
        lemma_index_keys(index, earlier, name);
        if names(records, name) {
            let slot = choose|slot: int|
                0 <= slot < records.len() && is_indexed(#[trigger] records[slot]) && entry_name(
                    records[slot],
                ) == name;
            if slot < earlier.len() {
                assert(earlier[slot] == records[slot]);
            }
        }
    }
}

/// A name that no record of the block enters under keeps the entry it had.
pub proof fn lemma_unnamed_kept(
    index: Map<Seq<char>, EntryView>,
    records: Seq<EntryView>,
    name: Seq<char>,
)
    requires
        !names(records, name),
        index.contains_key(name),
    ensures
        index_records(index, records).contains_key(name),
        index_records(index, records)[name] == index[name],
    decreases records.len(),
{
    if records.len() > 0 {
        lemma_unnamed_kept(index, records.drop_last(), name);
    }
}

/// Of the records that share a name, the one in the last slot is the one the
/// index holds afterwards.
pub proof fn lemma_last_record_wins(
    index: Map<Seq<char>, EntryView>,
    records: Seq<EntryView>,
    name: Seq<char>,
    slot: int,
)
    requires
        is_last_named(records, name, slot),
    ensures
        index_records(index, records).contains_key(name),
        index_records(index, records)[name] == records[slot],
    decreases records.len(),
{
    if slot < records.len() - 1 {
        lemma_last_record_wins(index, records.drop_last(), name, slot);
    }
}

/// Entering records puts no empty slot into the index.
pub proof fn lemma_no_empty_slot_enters(index: Map<Seq<char>, EntryView>, records: Seq<EntryView>)
    requires
        holds_no_empty_slot(index),
    ensures
        holds_no_empty_slot(index_records(index, records)),
    decreases records.len(),
{
    if records.len() > 0 {
        lemma_no_empty_slot_enters(index, records.drop_last());
    }
}

/// Every subfolder offset comes from a folder record: the offsets are those
/// of the records that the traversal descends into, in slot order.
pub proof fn lemma_subfolders_are_filtered(records: Seq<EntryView>)
    ensures
        subfolders(records) == records.filter(|entry: EntryView| is_subfolder(entry)).map_values(
            |entry: EntryView| as_unsigned(entry.position),
        ),
    decreases records.len(),
{
    reveal(Seq::filter);
    if records.len() > 0 {
        lemma_subfolders_are_filtered(records.drop_last());
    }
}

/// A block of empty slots changes nothing in the index and names no
/// subfolder.
pub proof fn lemma_empty_slots_are_skipped(
    index: Map<Seq<char>, EntryView>,
    records: Seq<EntryView>,
)
    requires
        forall|slot: int| 0 <= slot < records.len() ==> !is_indexed(#[trigger] records[slot]),
    ensures
        index_records(index, records) == index,
        subfolders(records) == Seq::<u64>::empty(),
    decreases records.len(),
{
    if records.len() > 0 {
        lemma_empty_slots_are_skipped(index, records.drop_last());
    }
}

/// A folder record named `.` or `..` enters the index under that name, and
/// the subfolders of the block are those of the other slots.
pub proof fn lemma_alias_indexed_not_followed(
    index: Map<Seq<char>, EntryView>,
    records: Seq<EntryView>,
    slot: int,
)
    requires
        0 <= slot < records.len(),
        records[slot].kind == EntryKind::Folder,
        is_alias(entry_name(records[slot])),
    ensures
        index_records(index, records).contains_key(entry_name(records[slot])),
        is_last_named(records, entry_name(records[slot]), slot) ==> index_records(
            index,
            records,
        )[entry_name(records[slot])] == records[slot],
        subfolders(records) == subfolders(records.take(slot)) + subfolders(
            records.skip(slot + 1),
        ),
{
    let name = entry_name(records[slot]);
    lemma_index_keys(index, records, name);
    if is_last_named(records, name, slot) {
        lemma_last_record_wins(index, records, name, slot);
    }
    let before = records.take(slot);
    let one = seq![records[slot]];
    let after = records.skip(slot + 1);
    assert(records =~= before + one + after);
    lemma_concat(index, before + one, after);
    lemma_concat(index, before, one);
    lemma_index_records_push(index, Seq::empty(), records[slot]);
}

} // verus!
