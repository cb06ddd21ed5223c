//! Queries over a range of keys.

use vstd::prelude::*;

use crate::batch::MAX_KEY_VALUE_SIZE;
use crate::bytes::{
    byte_order_less, bytes_less, lemma_byte_order_total, lemma_byte_order_transitive,
};
use crate::cursor::{DbIterator, KeyRange, RangeCursor};
use crate::db::read::{
    begin_read, chosen_source, foreign_snapshot, invalid_read_argument, invalid_read_view,
    poisoned_read_view, read_memory_error, read_memory_view, select_read_view, ReadRun,
    ReadSource,
};
use crate::error::{ErrorView, InstanceState, Operation, Result, StorageErrorKind};
use crate::index::range::UserKeyRange;
use crate::memory::{asked, Memory};
use crate::options::ReadOptions;
use crate::runtime::state::StateSnapshot;

verus! {

/// A bound that is longer than any key.
pub open spec fn unusable_bound(bound: Option<&[u8]>) -> bool {
    bound matches Some(bytes) && bytes@.len() > MAX_KEY_VALUE_SIZE
}

fn validate_range_bound(bound: Option<&[u8]>, state: InstanceState) -> (result: Result<()>)
    ensures
        match result {
            Ok(_) => !unusable_bound(bound),
            Err(error) => unusable_bound(bound) && error@ == invalid_read_view(
                Operation::Range,
                state,
            ),
        },
{
    match bound {
        Some(bytes) => {
            if bytes.len() > MAX_KEY_VALUE_SIZE {
                return Err(invalid_read_argument(Operation::Range, state));
            }
            Ok(())
        },
        None => Ok(()),
    }
}

fn clone_range_bound(memory: &mut Memory, bound: Option<&[u8]>, state: InstanceState) -> (result:
    Result<Option<Vec<u8>>>)
    requires
        !old(memory).refused(),
    ensures
        match result {
            Ok(copy) => !final(memory).refused() && match (copy, bound) {
                (Some(owned), Some(bytes)) => owned@ == bytes@,
                (None, None) => true,
                _ => false,
            },
            Err(error) => final(memory).refused() && error@ == read_memory_view(
                Operation::Range,
                state,
            ),
        },
        match bound {
            Some(bytes) => asked(*old(memory), *final(memory), 1, bytes@.len()),
            None => *final(memory) == *old(memory),
        },
{
    match bound {
        Some(bytes) => match memory.copy(bytes) {
            Some(owned) => Ok(Some(owned)),
            None => Err(read_memory_error(Operation::Range, state)),
        },
        None => Ok(None),
    }
}

/// A key lies in a range.
pub open spec fn in_range(range: KeyRange<'_>, key: Seq<u8>) -> bool {
    &&& range.start matches Some(start) ==> !byte_order_less(key, start@)
    &&& range.end matches Some(end) ==> byte_order_less(key, end@)
}

/// A query that gives nothing, as its bounds show.
pub open spec fn empty_query(range: KeyRange<'_>, limit: usize) -> bool {
    ||| limit == 0
    ||| (range.end matches Some(end) && range.start is None && end@.len() == 0)
    ||| (range.start matches Some(start) && (range.end matches Some(end) && !byte_order_less(
        start@,
        end@,
    )))
}

/// Why a query is refused before anything is read.
pub open spec fn range_refusal(
    state: StateSnapshot,
    instance: u64,
    options: ReadOptions<'_>,
    range: KeyRange<'_>,
) -> Option<ErrorView> {
    if state.instance_state == InstanceState::Poisoned {
        Some(poisoned_read_view(Operation::Range))
    } else if unusable_bound(range.start) || unusable_bound(range.end) || foreign_snapshot(
        options,
        instance,
    ) {
        Some(invalid_read_view(Operation::Range, state.instance_state))
    } else {
        None
    }
}

/// What a query has to read.
pub enum RangePlan {
    /// Nothing.
    Empty,
    /// The keys of a view in a range, up to the end.
    Scan { source: ReadSource, range: UserKeyRange, end: Option<Vec<u8>> },
}

/// How many reservations a query takes: two for its end and one for its start, where it has
/// them.
pub open spec fn range_reservations(range: KeyRange<'_>) -> nat {
    (if range.end is Some {
        2nat
    } else {
        0
    }) + (if range.start is Some {
        1nat
    } else {
        0
    })
}

/// Begins a query.
pub fn begin_range(
    memory: &mut Memory,
    state: StateSnapshot,
    instance: u64,
    options: &ReadOptions<'_>,
    range: KeyRange<'_>,
    limit: usize,
) -> (result: Result<(ReadRun, RangePlan)>)
    requires
        !old(memory).refused(),
    ensures
        match range_refusal(state, instance, *options, range) {
            Some(refusal) => result matches Err(error) && error@ == refusal,
            None => if final(memory).refused() {
                &&& !empty_query(range, limit)
                &&& result matches Err(error) && error@ == read_memory_view(
                    Operation::Range,
                    state.instance_state,
                )
            } else {
                &&& result matches Ok((run, plan)) && {
                    &&& run == (ReadRun { started: state, operation: Operation::Range })
                    &&& if empty_query(range, limit) {
                        plan is Empty
                    } else {
                        &&& plan matches RangePlan::Scan { source, range: keys, end } && {
                            &&& source == chosen_source(*options)
                            &&& forall|key: Seq<u8>| #[trigger]
                                keys.contains(key) == in_range(range, key)
                            &&& forall|key: Seq<u8>| #[trigger]
                                keys.contains(key) ==> (range.start matches Some(start)
                                    ==> start@ == key || byte_order_less(start@, key)) && (
                                range.end matches Some(end) ==> byte_order_less(key, end@))
                            &&& range.start matches Some(start) ==> keys.contains(start@)
                            &&& match (end, range.end) {
                                (Some(owned), Some(bytes)) => owned@ == bytes@,
                                (None, None) => true,
                                _ => false,
                            }
                        }
                    }
                }
            },
        },
        if range_refusal(state, instance, *options, range) is None && !empty_query(range, limit)
            && range_reservations(range) > 0 {
            asked(
                *old(memory),
                *final(memory),
                range_reservations(range),
                MAX_KEY_VALUE_SIZE as nat,
            )
        } else {
            *final(memory) == *old(memory)
        },
{
    let started = begin_read(state, Operation::Range)?;
    validate_range_bound(range.start, started.instance_state)?;
    validate_range_bound(range.end, started.instance_state)?;
    let source = select_read_view(options, instance, Operation::Range, started)?;
    let run = ReadRun { started, operation: Operation::Range };
    let is_empty = limit == 0 || match (range.start, range.end) {
        (None, Some(end)) => end.len() == 0,
        (Some(start), Some(end)) => !bytes_less(start, end),
        _ => false,
    };
    if is_empty {
        return Ok((run, RangePlan::Empty));
    }
    let end = clone_range_bound(memory, range.end, started.instance_state)?;
    let upper = clone_range_bound(memory, range.end, started.instance_state)?;
    let start = clone_range_bound(memory, range.start, started.instance_state)?;
    proof {
        if range.start is Some {
            let first = range.start->0@;
            lemma_byte_order_total(first, first);
            assert forall|key: Seq<u8>| !#[trigger] byte_order_less(key, first) implies first == key
                || byte_order_less(first, key) by {
                lemma_byte_order_total(key, first);
            }
        }
    }
    Ok((run, RangePlan::Scan { source, range: UserKeyRange::forward(start, upper), end }))
}

/// The cursor of a query that gives nothing.
pub fn empty_range_cursor() -> (cursor: RangeCursor)
    ensures
        !cursor@.valid(),
        cursor@.inner.error is None,
        cursor@.remaining == 0,
{
    RangeCursor::new(DbIterator::empty(Operation::Range), None, 0)
}

/// A query is refused exactly where the instance is poisoned, where a bound is longer than sixty
/// thousand bytes, and where it asks for a snapshot of another instance. It is told which.
pub proof fn law_query_is_refused_for_a_reason(
    state: StateSnapshot,
    instance: u64,
    options: ReadOptions<'_>,
    range: KeyRange<'_>,
)
    ensures
        ({
            let refusal = range_refusal(state, instance, options, range);
            let too_long = (range.start is Some && range.start->0@.len() > 60_000) || (
            range.end is Some && range.end->0@.len() > 60_000);
            let foreign = options.snapshot is Some && options.snapshot->0.instance != instance;
            &&& refusal is None <==> state.instance_state != InstanceState::Poisoned && !too_long
                && !foreign
            &&& refusal matches Some(error) ==> error.operation == Operation::Range
                && error.instance_state == Some(state.instance_state) && error.kind == (
            if state.instance_state == InstanceState::Poisoned {
                StorageErrorKind::StoragePoisoned
            } else {
                StorageErrorKind::InvalidArgument
            })
        }),
{
}

/// A query that is taken for empty has no key in its range, or may give none.
pub proof fn law_empty_query_has_no_key(range: KeyRange<'_>, limit: usize, key: Seq<u8>)
    requires
        empty_query(range, limit),
        limit > 0,
    ensures
        !in_range(range, key),
{
    if range.start is Some && range.end is Some {
        let start = range.start->0@;
        let end = range.end->0@;
        lemma_byte_order_total(start, end);
        lemma_byte_order_total(key, start);
        lemma_byte_order_total(key, end);
        if byte_order_less(end, start) && byte_order_less(start, key) {
            lemma_byte_order_transitive(end, start, key);
        }
    }
}

} // verus!
