//! Failures of the work that goes on behind the callers' backs.

use vstd::prelude::*;

use crate::db::failure::{general_advice, retry_advice_for};
use crate::error::{
    detached_error, ErrorView, InstanceState, Operation, ProtocolStage, RetryAdvice, StorageError,
    StorageErrorKind,
};
use crate::index::batch::{IndexApplyState, IndexCommitError, InternalIndexError};
use crate::io_failure::IoFailure;
use crate::runtime::state::{sent_away, RuntimeControl, RuntimeView};

verus! {

/// An error of the work in the background.
pub open spec fn background_view(kind: StorageErrorKind, retry_advice: RetryAdvice) -> ErrorView {
    detached_error(kind, Operation::Background, ProtocolStage::Maintenance, None, retry_advice)
}

pub open spec fn background_corruption_view() -> ErrorView {
    background_view(StorageErrorKind::Corruption, RetryAdvice::RestoreOrRepair)
}

pub open spec fn background_memory_view() -> ErrorView {
    background_view(StorageErrorKind::ResourceExhausted, RetryAdvice::RetrySameInstance)
}

/// An error of the index as the work in the background sees it.
pub open spec fn seen_in_background(error: ErrorView) -> ErrorView {
    ErrorView {
        retry_advice: if error.kind == StorageErrorKind::Busy || error.kind
            == StorageErrorKind::ResourceExhausted {
            RetryAdvice::RetrySameInstance
        } else {
            error.retry_advice
        },
        ..error.seen_by(Operation::Background, ProtocolStage::Maintenance)
    }
}

pub fn background_index_error(error: StorageError) -> (seen: StorageError)
    ensures
        seen@ == seen_in_background(error@),
{
    let mut seen = error;
    seen.operation = Operation::Background;
    seen.protocol_stage = ProtocolStage::Maintenance;
    seen.write_outcome = None;
    seen.instance_state = None;
    if seen.kind == StorageErrorKind::Busy || seen.kind == StorageErrorKind::ResourceExhausted {
        seen.retry_advice = RetryAdvice::RetrySameInstance;
    }
    seen
}

pub fn background_corruption() -> (error: StorageError)
    ensures
        error@ == background_corruption_view(),
{
    StorageError::codec_error(
        StorageErrorKind::Corruption,
        Operation::Background,
        ProtocolStage::Maintenance,
        None,
        RetryAdvice::RestoreOrRepair,
    )
}

pub fn background_resource_exhausted() -> (error: StorageError)
    ensures
        error@ == background_memory_view(),
{
    StorageError::codec_error(
        StorageErrorKind::ResourceExhausted,
        Operation::Background,
        ProtocolStage::Maintenance,
        None,
        RetryAdvice::RetrySameInstance,
    )
}

/// A batch of the work in the background could not be made.
pub open spec fn background_batch_view(error: InternalIndexError) -> ErrorView {
    background_view(error.kind, general_advice(error.kind)).with_os_code(error.os_code)
}

pub fn background_internal_index_error(error: InternalIndexError) -> (seen: StorageError)
    ensures
        seen@ == background_batch_view(error),
{
    let mut seen = StorageError::codec_error(
        error.kind,
        Operation::Background,
        ProtocolStage::Maintenance,
        None,
        retry_advice_for(error.kind),
    );
    seen.os_code = error.os_code;
    seen
}

/// A batch of the work in the background could not be committed. Another try on the same
/// instance is only worth while where the batch is known not to have been applied; and an index
/// that could not be read or written is not to be trusted any more.
pub open spec fn background_commit_view(error: IndexCommitError) -> ErrorView {
    ErrorView {
        retry_advice: match error.apply_state {
            IndexApplyState::Unknown => RetryAdvice::ReopenAndVerify,
            IndexApplyState::NotApplied => if error.source.kind == StorageErrorKind::Io {
                RetryAdvice::ReopenAndVerify
            } else {
                general_advice(error.source.kind)
            },
        },
        ..background_batch_view(error.source)
    }
}

pub fn background_cleanup_commit_error(error: IndexCommitError) -> (seen: StorageError)
    ensures
        seen@ == background_commit_view(error),
{
    let mut seen = background_internal_index_error(error.source);
    match error.apply_state {
        IndexApplyState::Unknown => {
            seen.retry_advice = RetryAdvice::ReopenAndVerify;
        },
        IndexApplyState::NotApplied => {
            if seen.kind == StorageErrorKind::Busy || seen.kind
                == StorageErrorKind::ResourceExhausted {
                seen.retry_advice = RetryAdvice::RetrySameInstance;
            } else if seen.kind == StorageErrorKind::Io {
                seen.retry_advice = RetryAdvice::ReopenAndVerify;
            }
        },
    }
    seen
}

/// The state that a failure in the background takes the instance to. The advice decides: what
/// may be tried again changes nothing.
pub open spec fn background_state(error: ErrorView) -> Option<InstanceState> {
    if error.retry_advice == RetryAdvice::RetrySameInstance {
        None
    } else if error.kind == StorageErrorKind::StorageWriteStopped {
        Some(InstanceState::WriteStopped)
    } else {
        Some(InstanceState::Poisoned)
    }
}

pub fn background_failure_target(error: &StorageError) -> (target: Option<InstanceState>)
    ensures
        target == background_state(error@),
{
    if error.retry_advice == RetryAdvice::RetrySameInstance {
        return None;
    }
    if error.kind == StorageErrorKind::StorageWriteStopped {
        Some(InstanceState::WriteStopped)
    } else {
        Some(InstanceState::Poisoned)
    }
}

/// The instance after a failure in the background.
pub open spec fn after_background_failure(before: RuntimeView, error: ErrorView) -> RuntimeView {
    match background_state(error) {
        Some(target) => before.latched(target, error),
        None => before,
    }
}

/// Takes a failure in the background. Gives the writes that are sent away.
pub fn latch_background_failure(runtime: &mut RuntimeControl, error: &StorageError) -> (cancelled: Vec<
    u64,
>)
    ensures
        final(runtime)@ == after_background_failure(old(runtime)@, error@),
        cancelled@ == sent_away(old(runtime)@, final(runtime)@),
{
    let before = runtime.state();
    match background_failure_target(error) {
        Some(target) => {
            let (_, cancelled) = runtime.latch_failure(target, error);
            cancelled
        },
        None => Vec::new(),
    }
}

/// The worker could not be started.
pub fn background_spawn_error(failure: IoFailure) -> (error: StorageError)
    ensures
        error@ == detached_error(
            StorageErrorKind::ResourceExhausted,
            Operation::Open,
            ProtocolStage::Lifecycle,
            None,
            RetryAdvice::RetrySameInstance,
        ).with_os_code(failure.os_code),
{
    let mut error = StorageError::codec_error(
        StorageErrorKind::ResourceExhausted,
        Operation::Open,
        ProtocolStage::Lifecycle,
        None,
        RetryAdvice::RetrySameInstance,
    );
    error.os_code = failure.os_code;
    error
}

/// The worker is gone.
pub fn background_worker_stopped_error() -> (error: StorageError)
    ensures
        error@ == background_view(StorageErrorKind::StoragePoisoned, RetryAdvice::ReopenAndVerify),
{
    StorageError::codec_error(
        StorageErrorKind::StoragePoisoned,
        Operation::Background,
        ProtocolStage::Maintenance,
        None,
        RetryAdvice::ReopenAndVerify,
    )
}

/// A batch whose fate is not known never leaves the instance as it was: it takes no write any
/// more, and is poisoned unless the index itself had stopped taking writes.
pub proof fn law_unknown_cleanup_stops_writes(before: RuntimeView, error: IndexCommitError)
    requires
        before.valid(),
        error.apply_state == IndexApplyState::Unknown,
    ensures
        ({
            let after = after_background_failure(before, background_commit_view(error));
            &&& after.state.instance_state != InstanceState::Healthy
            &&& !after.accepting_writes
            &&& error.source.kind != StorageErrorKind::StorageWriteStopped
                ==> after.state.instance_state == InstanceState::Poisoned
        }),
{
}

/// A failure in the background leaves the instance as it is exactly where the same work may be
/// done again later. Otherwise no more writes are taken, and reads neither, unless the index
/// only stopped taking writes.
pub proof fn law_background_failure_decides_state(before: RuntimeView, error: ErrorView)
    requires
        before.valid(),
        before.state.instance_state == InstanceState::Healthy,
        error.write_outcome is None,
        error.protocol_stage == ProtocolStage::Maintenance,
    ensures
        ({
            let after = after_background_failure(before, error);
            let again = error.retry_advice == RetryAdvice::RetrySameInstance;
            &&& again ==> after == before
            &&& !again && error.kind == StorageErrorKind::StorageWriteStopped
                ==> after.state.instance_state == InstanceState::WriteStopped
            &&& !again && error.kind != StorageErrorKind::StorageWriteStopped
                ==> after.state.instance_state == InstanceState::Poisoned
            &&& !again ==> !after.accepting_writes && after.queue.len() == 0
        }),
{
}

/// A batch of the background work that failed is told of with its kind and code. It may be
/// handed over again at this instance exactly where it is known not to have been applied and
/// the index was busy or out of memory.
pub proof fn law_failed_cleanup_is_repeated_when_safe(error: IndexCommitError)
    ensures
        ({
            let told = background_commit_view(error);
            let kind = error.source.kind;
            &&& told.kind == kind
            &&& told.os_code == error.source.os_code
            &&& told.operation == Operation::Background
            &&& told.protocol_stage == ProtocolStage::Maintenance
            &&& told.write_outcome is None
            &&& told.instance_state is None
            &&& told.retry_advice == RetryAdvice::RetrySameInstance <==> error.apply_state
                == IndexApplyState::NotApplied && (kind == StorageErrorKind::Busy || kind
                == StorageErrorKind::ResourceExhausted)
            &&& told.retry_advice == RetryAdvice::ReopenAndVerify <==> error.apply_state
                == IndexApplyState::Unknown || kind == StorageErrorKind::Io || kind
                == StorageErrorKind::StoragePoisoned
            &&& background_state(told) is None <==> told.retry_advice
                == RetryAdvice::RetrySameInstance
        }),
{
}

/// An error of the index is the same error in the background, but that an index that is busy or
/// out of memory may always be asked again.
pub proof fn law_background_sees_the_same_error(error: ErrorView)
    ensures
        ({
            let seen = seen_in_background(error);
            let passing = error.kind == StorageErrorKind::Busy || error.kind
                == StorageErrorKind::ResourceExhausted;
            &&& seen.kind == error.kind
            &&& seen.os_code == error.os_code
            &&& seen.vlog_file_id == error.vlog_file_id
            &&& seen.vlog_offset == error.vlog_offset
            &&& seen.commit_seq == error.commit_seq
            &&& seen.operation == Operation::Background
            &&& seen.protocol_stage == ProtocolStage::Maintenance
            &&& seen.write_outcome is None
            &&& seen.instance_state is None
            &&& passing ==> seen.retry_advice == RetryAdvice::RetrySameInstance
            &&& !passing ==> seen.retry_advice == error.retry_advice
        }),
{
}

/// Work in the background without memory may be tried again. It has no write of a caller's.
pub proof fn law_background_without_memory(error: InternalIndexError)
    ensures
        background_memory_view().kind == StorageErrorKind::ResourceExhausted,
        background_memory_view().retry_advice == RetryAdvice::RetrySameInstance,
        background_memory_view().operation == Operation::Background,
        background_memory_view().write_outcome is None,
        background_batch_view(error).kind == error.kind,
        background_batch_view(error).os_code == error.os_code,
        background_batch_view(error).operation == Operation::Background,
        background_batch_view(error).protocol_stage == ProtocolStage::Maintenance,
        background_batch_view(error).write_outcome is None,
{
}

} // verus!
