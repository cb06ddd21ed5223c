//! Recovery: what a database does, when it is opened, to return to a state that is wholly on
//! disk.

use vstd::prelude::*;

use crate::error::{
    detached_error, ErrorView, Operation, ProtocolStage, RetryAdvice, StorageError,
    StorageErrorKind,
};
use crate::index::batch::{IndexApplyState, IndexCommitError, InternalIndexError};
use crate::vlog::writer_error::{open_context, seen_by_open};

pub mod analysis;
pub mod descriptors;
pub mod envelope;
pub mod execute;
pub mod plan;
pub mod read_back;
pub mod topology;
pub mod trim;
pub mod undo;

verus! {

/// An error of a recovery.
pub open spec fn recovery_view(kind: StorageErrorKind, retry_advice: RetryAdvice) -> ErrorView {
    detached_error(kind, Operation::Open, ProtocolStage::Recovery, None, retry_advice)
}

pub open spec fn recovery_corruption_view() -> ErrorView {
    recovery_view(StorageErrorKind::Corruption, RetryAdvice::RestoreOrRepair)
}

pub open spec fn recovery_resource_view() -> ErrorView {
    recovery_view(StorageErrorKind::ResourceExhausted, RetryAdvice::RetrySameInstance)
}

/// An error as a recovery sees it.
pub open spec fn seen_by_recovery(error: ErrorView) -> ErrorView {
    seen_by_open(error, None)
}

pub fn recovery_corruption() -> (error: StorageError)
    ensures
        error@ == recovery_corruption_view(),
{
    StorageError::codec_error(
        StorageErrorKind::Corruption,
        Operation::Open,
        ProtocolStage::Recovery,
        None,
        RetryAdvice::RestoreOrRepair,
    )
}

pub fn recovery_resource() -> (error: StorageError)
    ensures
        error@ == recovery_resource_view(),
{
    StorageError::codec_error(
        StorageErrorKind::ResourceExhausted,
        Operation::Open,
        ProtocolStage::Recovery,
        None,
        RetryAdvice::RetrySameInstance,
    )
}

pub fn recovery_context(error: StorageError) -> (seen: StorageError)
    ensures
        seen@ == seen_by_recovery(error@),
{
    open_context(error, None)
}

/// What a caller should do about a failed recovery.
pub open spec fn recovery_advice(kind: StorageErrorKind) -> RetryAdvice {
    match kind {
        StorageErrorKind::InvalidArgument
        | StorageErrorKind::IncompatibleFormat
        | StorageErrorKind::Unsupported => RetryAdvice::DoNotRetry,
        StorageErrorKind::Busy | StorageErrorKind::ResourceExhausted =>
            RetryAdvice::RetrySameInstance,
        StorageErrorKind::Corruption
        | StorageErrorKind::InvalidLayout
        | StorageErrorKind::Unrecoverable
        | StorageErrorKind::NotFound => RetryAdvice::RestoreOrRepair,
        StorageErrorKind::CapacityExceeded
        | StorageErrorKind::Io
        | StorageErrorKind::StorageWriteStopped
        | StorageErrorKind::StoragePoisoned => RetryAdvice::FixEnvironmentAndReopen,
    }
}

fn recovery_retry_advice(kind: StorageErrorKind) -> (advice: RetryAdvice)
    ensures
        advice == recovery_advice(kind),
{
    match kind {
        StorageErrorKind::InvalidArgument
        | StorageErrorKind::IncompatibleFormat
        | StorageErrorKind::Unsupported => RetryAdvice::DoNotRetry,
        StorageErrorKind::Busy | StorageErrorKind::ResourceExhausted =>
            RetryAdvice::RetrySameInstance,
        StorageErrorKind::Corruption
        | StorageErrorKind::InvalidLayout
        | StorageErrorKind::Unrecoverable
        | StorageErrorKind::NotFound => RetryAdvice::RestoreOrRepair,
        StorageErrorKind::CapacityExceeded
        | StorageErrorKind::Io
        | StorageErrorKind::StorageWriteStopped
        | StorageErrorKind::StoragePoisoned => RetryAdvice::FixEnvironmentAndReopen,
    }
}

/// A batch of the recovery could not be made.
pub fn index_batch_context(error: InternalIndexError) -> (seen: StorageError)
    ensures
        seen@ == recovery_view(error.kind, recovery_advice(error.kind)).with_os_code(
            error.os_code,
        ),
{
    let mut seen = StorageError::codec_error(
        error.kind,
        Operation::Open,
        ProtocolStage::Recovery,
        None,
        recovery_retry_advice(error.kind),
    );
    seen.os_code = error.os_code;
    seen
}

/// A batch of the recovery could not be committed. Where it is not known whether it was, the
/// database has to be opened again.
pub fn recovery_commit_error(error: IndexCommitError) -> (seen: StorageError)
    ensures
        seen@ == recovery_view(
            error.source.kind,
            match error.apply_state {
                IndexApplyState::Unknown => RetryAdvice::ReopenAndVerify,
                IndexApplyState::NotApplied => recovery_advice(error.source.kind),
            },
        ).with_os_code(error.source.os_code),
{
    let retry_advice = match error.apply_state {
        IndexApplyState::Unknown => RetryAdvice::ReopenAndVerify,
        IndexApplyState::NotApplied => recovery_retry_advice(error.source.kind),
    };
    let mut seen = StorageError::codec_error(
        error.source.kind,
        Operation::Open,
        ProtocolStage::Recovery,
        None,
        retry_advice,
    );
    seen.os_code = error.source.os_code;
    seen
}

/// A recovery that fails is worth another try where the failure may pass; damage has to be
/// repaired; what the surroundings keep from working, such as a full disk, has to be mended
/// there; and what no version of this library can do is not tried again.
pub proof fn law_recovery_advice(kind: StorageErrorKind)
    ensures
        ({
            let advice = recovery_advice(kind);
            &&& advice == RetryAdvice::RetrySameInstance <==> kind == StorageErrorKind::Busy
                || kind == StorageErrorKind::ResourceExhausted
            &&& advice == RetryAdvice::RestoreOrRepair <==> kind == StorageErrorKind::Corruption
                || kind == StorageErrorKind::InvalidLayout || kind
                == StorageErrorKind::Unrecoverable || kind == StorageErrorKind::NotFound
            &&& advice == RetryAdvice::FixEnvironmentAndReopen <==> kind
                == StorageErrorKind::CapacityExceeded || kind == StorageErrorKind::Io || kind
                == StorageErrorKind::StorageWriteStopped || kind
                == StorageErrorKind::StoragePoisoned
            &&& advice == RetryAdvice::DoNotRetry <==> kind == StorageErrorKind::InvalidArgument
                || kind == StorageErrorKind::IncompatibleFormat || kind
                == StorageErrorKind::Unsupported
        }),
{
}

/// A recovery tells of the same error, as one of the opening, with no outcome of a write and no
/// state of an instance.
pub proof fn law_recovery_sees_the_same_error(error: ErrorView)
    ensures
        ({
            let seen = seen_by_recovery(error);
            &&& seen.kind == error.kind
            &&& seen.retry_advice == error.retry_advice
            &&& seen.os_code == error.os_code
            &&& seen.vlog_file_id == error.vlog_file_id
            &&& seen.vlog_offset == error.vlog_offset
            &&& seen.commit_seq == error.commit_seq
            &&& seen.operation == Operation::Open
            &&& seen.protocol_stage == ProtocolStage::Recovery
            &&& seen.write_outcome is None
            &&& seen.instance_state is None
        }),
{
}

/// A recovery without memory may be tried again, and damage is to be repaired.
pub proof fn law_recovery_without_memory()
    ensures
        recovery_resource_view().kind == StorageErrorKind::ResourceExhausted,
        recovery_resource_view().retry_advice == recovery_advice(
            StorageErrorKind::ResourceExhausted,
        ),
        recovery_resource_view().retry_advice == RetryAdvice::RetrySameInstance,
        recovery_resource_view().operation == Operation::Open,
        recovery_corruption_view().kind == StorageErrorKind::Corruption,
        recovery_corruption_view().retry_advice == RetryAdvice::RestoreOrRepair,
{
}

} // verus!
