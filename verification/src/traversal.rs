//! Whole traversals.
//!
//! The reader visits one block per call; its caller repeats the call until
//! nothing is pending. This module says what such a run amounts to, and shows
//! that it is the recursive traversal of the tree: visit a block, then each
//! subfolder it names, in order and each to its end, then the block that
//! continues it.
//!
//! A stream is seen here through what a read at an offset yields: the records
//! of the block there, or nothing if fewer than 2560 bytes can be read.

use crate::entry::EntryView;
use crate::index::holds_no_empty_slot;
use crate::walk::{
    index_records, initial_state, is_last_named, lemma_concat, lemma_last_record_wins,
    lemma_no_empty_slot_enters, successors, visit, WalkState,
};
use vstd::prelude::*;

verus! {

/// How a recursive traversal ends.
pub enum Walked {
    /// Every block was read; this is the index.
    Complete(Map<Seq<char>, EntryView>),
    /// A block could not be read in full.
    Invalid,
    /// The tree is nested deeper than the traversal was allowed to go.
    TooDeep,
}

/// The state after at most `steps` visits from `state`, each of the block at
/// the head of the pending offsets as `archive` yields it. The run ends early
/// when nothing is pending, and is `None` if a block cannot be read in full.
pub open spec fn run(
    archive: spec_fn(u64) -> Option<Seq<EntryView>>,
    state: WalkState,
    steps: nat,
) -> Option<WalkState>
    decreases steps,
{
    if steps == 0 || state.pending.len() == 0 {
        Some(state)
    } else {
        match archive(state.pending[0]) {
            None => None,
            Some(records) => run(archive, visit(state, records), (steps - 1) as nat),
        }
    }
}

/// The records that enter the index during such a run, in the order in which
/// they do.
pub open spec fn records_seen(
    archive: spec_fn(u64) -> Option<Seq<EntryView>>,
    state: WalkState,
    steps: nat,
) -> Seq<EntryView>
    decreases steps,
{
    if steps == 0 || state.pending.len() == 0 {
        Seq::empty()
    } else {
        match archive(state.pending[0]) {
            None => Seq::empty(),
            Some(records) => records + records_seen(
                archive,
                visit(state, records),
                (steps - 1) as nat,
            ),
        }
    }
}

/// The recursive traversal from the block at `offset`, at most `depth` blocks
/// deep: index the records of the block, then traverse its successors.
pub open spec fn descend(
    archive: spec_fn(u64) -> Option<Seq<EntryView>>,
    offset: u64,
    index: Map<Seq<char>, EntryView>,
    depth: nat,
) -> Walked
    decreases depth, 0nat,
{
    if depth == 0 {
        Walked::TooDeep
    } else {
        match archive(offset) {
            None => Walked::Invalid,
            Some(records) => descend_each(
                archive,
                successors(records),
                index_records(index, records),
                (depth - 1) as nat,
            ),
        }
    }
}

/// The recursive traversal from each of `offsets` in turn, each to its end
/// before the next begins.
pub open spec fn descend_each(
    archive: spec_fn(u64) -> Option<Seq<EntryView>>,
    offsets: Seq<u64>,
    index: Map<Seq<char>, EntryView>,
    depth: nat,
) -> Walked
    decreases depth, offsets.len() + 1,
{
    if offsets.len() == 0 {
        Walked::Complete(index)
    } else {
        match descend(archive, offsets[0], index, depth) {
            Walked::Complete(next) => descend_each(archive, offsets.drop_first(), next, depth),
            other => other,
        }
    }
}

/// A run of `first + second` steps is a run of `first` steps followed by one
/// of `second` steps.
pub proof fn lemma_run_split(
    archive: spec_fn(u64) -> Option<Seq<EntryView>>,
    state: WalkState,
    first: nat,
    second: nat,
)
    ensures
        run(archive, state, first + second) == match run(archive, state, first) {
            None => None,
            Some(middle) => run(archive, middle, second),
        },
    decreases first,
{
    if first > 0 && state.pending.len() > 0 {
        if let Some(records) = archive(state.pending[0]) {
            lemma_run_split(archive, visit(state, records), (first - 1) as nat, second);
        }
    }
}

/// The index after a run is the index before it with the records seen
/// entered in order.
pub proof fn lemma_run_index(
    archive: spec_fn(u64) -> Option<Seq<EntryView>>,
    state: WalkState,
    steps: nat,
)
    ensures
        run(archive, state, steps) matches Some(end) ==> end.index == index_records(
            state.index,
            records_seen(archive, state, steps),
        ),
    decreases steps,
{
    if steps > 0 && state.pending.len() > 0 {
        if let Some(records) = archive(state.pending[0]) {
            let next = visit(state, records);
            lemma_run_index(archive, next, (steps - 1) as nat);
            lemma_concat(state.index, records, records_seen(archive, next, (steps - 1) as nat));
        }
    }
}

/// However far a traversal from the start has come, no empty slot is in its
/// index.
pub proof fn lemma_index_holds_no_empty_slot(
    archive: spec_fn(u64) -> Option<Seq<EntryView>>,
    steps: nat,
)
    ensures
        run(archive, initial_state(), steps) matches Some(end) ==> holds_no_empty_slot(
            end.index,
        ),
{
    lemma_run_index(archive, initial_state(), steps);
    lemma_no_empty_slot_enters(
        initial_state().index,
        records_seen(archive, initial_state(), steps),
    );
}

/// Where two records anywhere in the tree share a name, the index holds the
/// one that the traversal reaches later: of all records seen during a run,
/// the last one of a name is the entry of that name at its end.
pub proof fn lemma_later_record_wins(
    archive: spec_fn(u64) -> Option<Seq<EntryView>>,
    state: WalkState,
    steps: nat,
    name: Seq<char>,
    place: int,
)
    requires
        run(archive, state, steps) is Some,
        is_last_named(records_seen(archive, state, steps), name, place),
    ensures
        run(archive, state, steps)->0.index.contains_key(name),
        run(archive, state, steps)->0.index[name] == records_seen(archive, state, steps)[place],
{
    lemma_run_index(archive, state, steps);
    lemma_last_record_wins(state.index, records_seen(archive, state, steps), name, place);
}

/// The reader walks the tree as the recursive traversal does.
///
/// Let the block at `offset` be pending first, with `rest` behind it. If the
/// recursive traversal from `offset` completes, then after the returned
/// number of visits the reader holds the index that the traversal built and
/// `rest` is what is pending. If the traversal meets a block that cannot be
/// read in full, so does the reader within that number of visits.
pub proof fn lemma_descend_is_run(
    archive: spec_fn(u64) -> Option<Seq<EntryView>>,
    offset: u64,
    index: Map<Seq<char>, EntryView>,
    depth: nat,
    rest: Seq<u64>,
) -> (steps: nat)
    requires
        descend(archive, offset, index, depth) != Walked::TooDeep,
    ensures
        descend(archive, offset, index, depth) matches Walked::Complete(end) ==> run(
            archive,
            WalkState { index, pending: seq![offset] + rest },
            steps,
        ) == Some(WalkState { index: end, pending: rest }),
        descend(archive, offset, index, depth) == Walked::Invalid ==> run(
            archive,
            WalkState { index, pending: seq![offset] + rest },
            steps,
        ) == None::<WalkState>,
    decreases depth, 0nat,
{
    let start = WalkState { index, pending: seq![offset] + rest };
    match archive(offset) {
        None => 1,
        Some(records) => {
            assert(start.pending.drop_first() =~= rest);
            let more = lemma_descend_each_is_run(
                archive,
                successors(records),
                index_records(index, records),
                (depth - 1) as nat,
                rest,
            );
            (more + 1) as nat
        },
    }
}

/// The same for several offsets that are pending in front of `rest`.
pub proof fn lemma_descend_each_is_run(
    archive: spec_fn(u64) -> Option<Seq<EntryView>>,
    offsets: Seq<u64>,
    index: Map<Seq<char>, EntryView>,
    depth: nat,
    rest: Seq<u64>,
) -> (steps: nat)
    requires
        descend_each(archive, offsets, index, depth) != Walked::TooDeep,
    ensures
        descend_each(archive, offsets, index, depth) matches Walked::Complete(end) ==> run(
            archive,
            WalkState { index, pending: offsets + rest },
            steps,
        ) == Some(WalkState { index: end, pending: rest }),
        descend_each(archive, offsets, index, depth) == Walked::Invalid ==> run(
            archive,
            WalkState { index, pending: offsets + rest },
            steps,
        ) == None::<WalkState>,
    decreases depth, offsets.len() + 1,
{
    let start = WalkState { index, pending: offsets + rest };
    if offsets.len() == 0 {
        0
    } else {
        let behind = offsets.drop_first() + rest;
        assert(seq![offsets[0]] + behind =~= offsets + rest);
        let first = lemma_descend_is_run(archive, offsets[0], index, depth, behind);
        match descend(archive, offsets[0], index, depth) {
            Walked::Complete(next) => {
                let second = lemma_descend_each_is_run(
                    archive,
                    offsets.drop_first(),
                    next,
                    depth,
                    rest,
                );
                lemma_run_split(archive, start, first, second);
                first + second
            },
            _ => first,
        }
    }
}

} // verus!
