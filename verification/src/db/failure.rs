//! Errors of the database as a whole.

use vstd::prelude::*;

use crate::error::{
    detached_error, is_write_operation, plain_error, ErrorView, InstanceState, Operation,
    ProtocolStage, RetryAdvice, StorageError, StorageErrorKind, WriteOutcome,
};
use crate::index::batch::{IndexApplyState, IndexCommitError, InternalIndexError};
use crate::io_failure::{open_io_error, open_io_view, IoFailure};
use crate::recovery::{recovery_context, seen_by_recovery};

verus! {

/// What a caller should do about an error of some kind, where nothing else is known.
pub open spec fn general_advice(kind: StorageErrorKind) -> RetryAdvice {
    match kind {
        StorageErrorKind::InvalidArgument => RetryAdvice::FixRequestAndRetrySameInstance,
        StorageErrorKind::Busy | StorageErrorKind::ResourceExhausted =>
            RetryAdvice::RetrySameInstance,
        StorageErrorKind::Io => RetryAdvice::FixEnvironmentAndReopen,
        StorageErrorKind::StoragePoisoned => RetryAdvice::ReopenAndVerify,
        StorageErrorKind::Corruption
        | StorageErrorKind::InvalidLayout
        | StorageErrorKind::Unrecoverable => RetryAdvice::RestoreOrRepair,
        _ => RetryAdvice::DoNotRetry,
    }
}

pub fn retry_advice_for(kind: StorageErrorKind) -> (advice: RetryAdvice)
    ensures
        advice == general_advice(kind),
{
    match kind {
        StorageErrorKind::InvalidArgument => RetryAdvice::FixRequestAndRetrySameInstance,
        StorageErrorKind::Busy | StorageErrorKind::ResourceExhausted =>
            RetryAdvice::RetrySameInstance,
        StorageErrorKind::Io => RetryAdvice::FixEnvironmentAndReopen,
        StorageErrorKind::StoragePoisoned => RetryAdvice::ReopenAndVerify,
        StorageErrorKind::Corruption
        | StorageErrorKind::InvalidLayout
        | StorageErrorKind::Unrecoverable => RetryAdvice::RestoreOrRepair,
        _ => RetryAdvice::DoNotRetry,
    }
}

/// An error in what a database says of itself.
pub open spec fn metadata_view(kind: StorageErrorKind) -> ErrorView {
    detached_error(kind, Operation::Open, ProtocolStage::Recovery, None, general_advice(kind))
}

pub fn metadata_error(kind: StorageErrorKind) -> (error: StorageError)
    ensures
        error@ == metadata_view(kind),
{
    StorageError::codec_error(
        kind,
        Operation::Open,
        ProtocolStage::Recovery,
        None,
        retry_advice_for(kind),
    )
}

/// The first batch of a database could not be made.
pub fn index_preflight_error(error: InternalIndexError) -> (seen: StorageError)
    ensures
        seen@ == (ErrorView {
            protocol_stage: ProtocolStage::Preflight,
            os_code: error.os_code,
            ..metadata_view(error.kind)
        }),
{
    let mut seen = metadata_error(error.kind);
    seen.protocol_stage = ProtocolStage::Preflight;
    seen.os_code = error.os_code;
    seen
}

/// The first batch of a database could not be committed.
pub fn initialization_commit_error(error: IndexCommitError) -> (seen: StorageError)
    ensures
        seen@ == detached_error(
            error.source.kind,
            Operation::Open,
            ProtocolStage::IndexCommit,
            None,
            match error.apply_state {
                IndexApplyState::Unknown => RetryAdvice::ReopenAndVerify,
                IndexApplyState::NotApplied => general_advice(error.source.kind),
            },
        ).with_os_code(error.source.os_code),
{
    let retry_advice = match error.apply_state {
        IndexApplyState::Unknown => RetryAdvice::ReopenAndVerify,
        IndexApplyState::NotApplied => retry_advice_for(error.source.kind),
    };
    let mut seen = StorageError::codec_error(
        error.source.kind,
        Operation::Open,
        ProtocolStage::IndexCommit,
        None,
        retry_advice,
    );
    seen.os_code = error.source.os_code;
    seen
}

/// A file of the log that was found could not be opened.
pub fn inventory_file_error(failure: IoFailure, file_id: u32) -> (error: StorageError)
    ensures
        error@ == (ErrorView {
            vlog_file_id: Some(file_id),
            ..seen_by_recovery(open_io_view(failure))
        }),
{
    let mut error = recovery_context(open_io_error(failure));
    error.vlog_file_id = Some(file_id);
    error
}

/// A file of the log is not as it was found.
pub open spec fn inventory_corruption_view(file_id: u32) -> ErrorView {
    ErrorView {
        vlog_file_id: Some(file_id),
        ..metadata_view(StorageErrorKind::Corruption)
    }
}

pub fn inventory_corruption(file_id: u32) -> (error: StorageError)
    ensures
        error@ == inventory_corruption_view(file_id),
{
    let mut error = metadata_error(StorageErrorKind::Corruption);
    error.vlog_file_id = Some(file_id);
    error
}

/// What is answered to an operation at an instance that is closing.
pub open spec fn lifecycle_admission_view(operation: Operation, state: InstanceState) -> ErrorView {
    plain_error(
        StorageErrorKind::StoragePoisoned,
        operation,
        ProtocolStage::Admission,
        if is_write_operation(operation) {
            Some(WriteOutcome::NotCommitted)
        } else {
            None
        },
        Some(state),
        RetryAdvice::ReopenAndVerify,
    )
}

pub fn lifecycle_admission_error(operation: Operation, state: InstanceState) -> (error: StorageError)
    ensures
        error@ == lifecycle_admission_view(operation, state),
{
    let write_outcome = if operation == Operation::Put || operation == Operation::Delete
        || operation == Operation::WriteBatch || operation == Operation::Sync {
        Some(WriteOutcome::NotCommitted)
    } else {
        None
    };
    let mut error = StorageError::codec_error(
        StorageErrorKind::StoragePoisoned,
        operation,
        ProtocolStage::Admission,
        write_outcome,
        RetryAdvice::ReopenAndVerify,
    );
    error.instance_state = Some(state);
    error
}

/// The parts of an instance could not be put together.
pub fn lifecycle_binding_error() -> (error: StorageError)
    ensures
        error@ == detached_error(
            StorageErrorKind::StoragePoisoned,
            Operation::Open,
            ProtocolStage::Lifecycle,
            None,
            RetryAdvice::ReopenAndVerify,
        ),
{
    StorageError::codec_error(
        StorageErrorKind::StoragePoisoned,
        Operation::Open,
        ProtocolStage::Lifecycle,
        None,
        RetryAdvice::ReopenAndVerify,
    )
}

/// The advice on a kind of error says who can help: the caller, time, the surroundings, another
/// opening, a repair, or nobody.
pub proof fn law_general_advice(kind: StorageErrorKind)
    ensures
        ({
            let advice = general_advice(kind);
            &&& advice == RetryAdvice::FixRequestAndRetrySameInstance <==> kind
                == StorageErrorKind::InvalidArgument
            &&& advice == RetryAdvice::RetrySameInstance <==> kind == StorageErrorKind::Busy
                || kind == StorageErrorKind::ResourceExhausted
            &&& advice == RetryAdvice::FixEnvironmentAndReopen <==> kind == StorageErrorKind::Io
            &&& advice == RetryAdvice::ReopenAndVerify <==> kind
                == StorageErrorKind::StoragePoisoned
            &&& advice == RetryAdvice::RestoreOrRepair <==> kind == StorageErrorKind::Corruption
                || kind == StorageErrorKind::InvalidLayout || kind
                == StorageErrorKind::Unrecoverable
            &&& metadata_view(kind).kind == kind
            &&& metadata_view(kind).operation == Operation::Open
            &&& metadata_view(kind).protocol_stage == ProtocolStage::Recovery
            &&& metadata_view(kind).retry_advice == advice
        }),
{
}

/// An operation at an instance that is closing is sent away with the state of the instance; a
/// write is told that nothing was committed, and only a write is told of an outcome.
pub proof fn law_closing_instance_sends_away(operation: Operation, state: InstanceState)
    ensures
        ({
            let error = lifecycle_admission_view(operation, state);
            let writes = operation == Operation::Put || operation == Operation::Delete || operation
                == Operation::WriteBatch || operation == Operation::Sync;
            &&& error.kind == StorageErrorKind::StoragePoisoned
            &&& error.operation == operation
            &&& error.protocol_stage == ProtocolStage::Admission
            &&& error.instance_state == Some(state)
            &&& error.retry_advice == RetryAdvice::ReopenAndVerify
            &&& writes ==> error.write_outcome == Some(WriteOutcome::NotCommitted)
            &&& !writes ==> error.write_outcome is None
        }),
{
}

/// A file of the log that is not as it was found is damage, in that file.
pub proof fn law_changed_file_is_damage(file_id: u32)
    ensures
        inventory_corruption_view(file_id).kind == StorageErrorKind::Corruption,
        inventory_corruption_view(file_id).vlog_file_id == Some(file_id),
        inventory_corruption_view(file_id).retry_advice == RetryAdvice::RestoreOrRepair,
        inventory_corruption_view(file_id).operation == Operation::Open,
{
}

} // verus!
