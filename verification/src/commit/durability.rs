//! Writing the durable frontier together with a commit.

use vstd::prelude::*;

use crate::commit::metadata::DurableFrontier;
use crate::commit::preflight::{
    preflight_view, resource_exhausted, write_invalid_view, write_memory_view,
};
use crate::commit::prepare::push_index;
use crate::error::{Operation, Result, RetryAdvice, StorageError, StorageErrorKind};
use crate::index::batch::{
    durable_frontier_key, durable_frontier_name, lemma_system_keys_differ, ChangeView,
    IndexAtomicBatch, IndexMutation, InternalIndexSpace,
};
use crate::memory::{asked, Memory};

verus! {

/// A frontier or a batch could not be made.
fn remap_construction(kind: StorageErrorKind, operation: Operation) -> (error: StorageError)
    ensures
        error@ == preflight_view(
            kind,
            operation,
            if kind == StorageErrorKind::ResourceExhausted {
                RetryAdvice::RetrySameInstance
            } else {
                RetryAdvice::FixRequestAndRetrySameInstance
            },
        ),
{
    let retry_advice = if kind == StorageErrorKind::ResourceExhausted {
        RetryAdvice::RetrySameInstance
    } else {
        RetryAdvice::FixRequestAndRetrySameInstance
    };
    StorageError::write_preflight(kind, operation, retry_advice)
}

/// The change that writes a frontier.
pub open spec fn frontier_change(frontier: DurableFrontier) -> ChangeView {
    ChangeView::PutInternal {
        space: InternalIndexSpace::System,
        key: durable_frontier_key(),
        value: frontier.encoded(),
    }
}

/// The most elements that a list is to have room for when a frontier is added to a batch: the
/// bytes of its key or of its value, or the changes with the new one.
pub open spec fn most_for_frontier(batch: Seq<ChangeView>, frontier: DurableFrontier) -> nat {
    durable_frontier_key().len() + frontier.encoded().len() + batch.len() + 1
}

/// Adds a frontier to a batch.
pub fn add_frontier_to_batch(
    memory: &mut Memory,
    batch: &mut IndexAtomicBatch,
    frontier: DurableFrontier,
    operation: Operation,
) -> (result: Result<()>)
    requires
        !old(memory).refused(),
    ensures
        final(memory).refused() ==> {
            &&& result matches Err(error) && error@ == write_memory_view(operation)
            &&& final(batch)@ == old(batch)@
        },
        !final(memory).refused() ==> if frontier.valid() {
            result is Ok && final(batch)@ == old(batch)@.push(frontier_change(frontier))
        } else {
            &&& result matches Err(error) && error@ == write_invalid_view(operation)
            &&& final(batch)@ == old(batch)@
        },
        if frontier.valid() {
            asked(*old(memory), *final(memory), 3, most_for_frontier(old(batch)@, frontier))
        } else {
            *final(memory) == *old(memory)
        },
{
    let encoded = match frontier.encode() {
        Ok(encoded) => encoded,
        Err(error) => return Err(remap_construction(error.kind, operation)),
    };
    let key = match memory.copy(&durable_frontier_name()) {
        Some(key) => key,
        None => return Err(resource_exhausted(operation)),
    };
    let value = match memory.copy(encoded.as_slice()) {
        Some(value) => value,
        None => return Err(resource_exhausted(operation)),
    };
    proof {
        lemma_system_keys_differ();
        crate::bytes::lemma_le_bytes_len(
            crate::checksum::crc32c_of(frontier.body()) as nat,
            4,
        );
        assert(frontier.encoded().len() > 0);
    }
    push_index(
        memory,
        batch,
        IndexMutation::PutInternal { space: InternalIndexSpace::System, key, value },
        operation,
    )
}

/// A batch that writes a frontier and nothing else.
pub fn frontier_only_batch(memory: &mut Memory, frontier: DurableFrontier, operation: Operation) -> (result:
    Result<IndexAtomicBatch>)
    requires
        !old(memory).refused(),
    ensures
        final(memory).refused() ==> (result matches Err(error) && error@ == write_memory_view(
            operation,
        )),
        !final(memory).refused() ==> if frontier.valid() {
            result matches Ok(batch) && batch@ == seq![frontier_change(frontier)]
        } else {
            result matches Err(error) && error@ == write_invalid_view(operation)
        },
        asked(
            *old(memory),
            *final(memory),
            if frontier.valid() {
                4
            } else {
                1
            },
            most_for_frontier(Seq::empty(), frontier),
        ),
{
    let mut batch = match IndexAtomicBatch::try_with_capacity(memory, 1) {
        Ok(batch) => batch,
        Err(error) => return Err(remap_construction(error.kind, operation)),
    };
    add_frontier_to_batch(memory, &mut batch, frontier, operation)?;
    proof {
        assert(batch@ =~= seq![frontier_change(frontier)]);
    }
    Ok(batch)
}

} // verus!
