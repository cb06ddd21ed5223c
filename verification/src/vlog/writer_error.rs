//! What the writer of the value log answers when something fails.

use vstd::prelude::*;

use crate::error::{
    detached_error, ErrorView, Operation, ProtocolStage, RetryAdvice, StorageError,
    StorageErrorKind, WriteOutcome,
};
use crate::io_failure::{IoCause, IoFailure};
use crate::vlog::geometry::VLogPosition;

verus! {

/// The bytes to append do not fit the place where the log ends.
pub open spec fn append_layout_view(position: VLogPosition) -> ErrorView {
    detached_error(
        StorageErrorKind::InvalidLayout,
        Operation::WriteBatch,
        ProtocolStage::VLogAppend,
        Some(WriteOutcome::NotCommitted),
        RetryAdvice::RestoreOrRepair,
    ).with_place(Some(position.file_id), Some(position.offset))
}

pub fn append_layout(position: VLogPosition) -> (error: StorageError)
    ensures
        error@ == append_layout_view(position),
{
    let mut error = StorageError::codec_error(
        StorageErrorKind::InvalidLayout,
        Operation::WriteBatch,
        ProtocolStage::VLogAppend,
        Some(WriteOutcome::NotCommitted),
        RetryAdvice::RestoreOrRepair,
    );
    error.vlog_file_id = Some(position.file_id);
    error.vlog_offset = Some(position.offset);
    error
}

/// The headers of a file that belongs to the log are not its own.
pub open spec fn accepted_header_view(file_id: u32, offset: u64) -> ErrorView {
    detached_error(
        StorageErrorKind::Corruption,
        Operation::Open,
        ProtocolStage::Recovery,
        None,
        RetryAdvice::RestoreOrRepair,
    ).with_place(Some(file_id), Some(offset))
}

pub fn accepted_header_corruption(file_id: u32, offset: u64) -> (error: StorageError)
    ensures
        error@ == accepted_header_view(file_id, offset),
{
    let mut error = StorageError::codec_error(
        StorageErrorKind::Corruption,
        Operation::Open,
        ProtocolStage::Recovery,
        None,
        RetryAdvice::RestoreOrRepair,
    );
    error.vlog_file_id = Some(file_id);
    error.vlog_offset = Some(offset);
    error
}

/// Another writer holds the directory.
pub open spec fn claim_busy_view() -> ErrorView {
    detached_error(
        StorageErrorKind::Busy,
        Operation::Open,
        ProtocolStage::Recovery,
        None,
        RetryAdvice::RetrySameInstance,
    )
}

pub fn writer_claim_busy() -> (error: StorageError)
    ensures
        error@ == claim_busy_view(),
{
    StorageError::codec_error(
        StorageErrorKind::Busy,
        Operation::Open,
        ProtocolStage::Recovery,
        None,
        RetryAdvice::RetrySameInstance,
    )
}

/// A call failed while bytes were appended. Only where nothing of the envelope was written can
/// a transient failure be repeated.
pub open spec fn append_io_view(
    commit_seq: u64,
    position: VLogPosition,
    physical_progress: bool,
    failure: IoFailure,
) -> ErrorView {
    let passes = !physical_progress && failure.transient();
    detached_error(
        if failure.cause == IoCause::StorageFull {
            StorageErrorKind::CapacityExceeded
        } else if passes {
            StorageErrorKind::ResourceExhausted
        } else {
            StorageErrorKind::Io
        },
        Operation::WriteBatch,
        ProtocolStage::VLogAppend,
        Some(WriteOutcome::NotCommitted),
        if passes {
            RetryAdvice::RetrySameInstance
        } else {
            RetryAdvice::FixEnvironmentAndReopen
        },
    ).with_os_code(failure.os_code).with_commit(commit_seq).with_place(
        Some(position.file_id),
        Some(position.offset),
    )
}

pub fn append_io(
    commit_seq: u64,
    position: VLogPosition,
    physical_progress: bool,
    failure: IoFailure,
) -> (error: StorageError)
    ensures
        error@ == append_io_view(commit_seq, position, physical_progress, failure),
{
    let passes = !physical_progress && failure.is_transient();
    let kind = if failure.cause == IoCause::StorageFull {
        StorageErrorKind::CapacityExceeded
    } else if passes {
        StorageErrorKind::ResourceExhausted
    } else {
        StorageErrorKind::Io
    };
    let retry_advice = if passes {
        RetryAdvice::RetrySameInstance
    } else {
        RetryAdvice::FixEnvironmentAndReopen
    };
    let mut error = StorageError::codec_error(
        kind,
        Operation::WriteBatch,
        ProtocolStage::VLogAppend,
        Some(WriteOutcome::NotCommitted),
        retry_advice,
    );
    error.os_code = failure.os_code;
    error.commit_seq = Some(commit_seq);
    error.vlog_file_id = Some(position.file_id);
    error.vlog_offset = Some(position.offset);
    error
}

/// A call failed while the log was opened for writing.
pub open spec fn writer_open_view(position: VLogPosition, failure: IoFailure) -> ErrorView {
    let lost = failure.cause == IoCause::NotFound || failure.cause == IoCause::TooManyLinks;
    detached_error(
        if lost {
            StorageErrorKind::Corruption
        } else {
            StorageErrorKind::Io
        },
        Operation::Open,
        ProtocolStage::Recovery,
        None,
        if lost {
            RetryAdvice::RestoreOrRepair
        } else {
            RetryAdvice::FixEnvironmentAndReopen
        },
    ).with_os_code(failure.os_code).with_place(Some(position.file_id), Some(position.offset))
}

pub fn writer_open_io(position: VLogPosition, failure: IoFailure) -> (error: StorageError)
    ensures
        error@ == writer_open_view(position, failure),
{
    let lost = failure.cause == IoCause::NotFound || failure.cause == IoCause::TooManyLinks;
    let (kind, retry_advice) = if lost {
        (StorageErrorKind::Corruption, RetryAdvice::RestoreOrRepair)
    } else {
        (StorageErrorKind::Io, RetryAdvice::FixEnvironmentAndReopen)
    };
    let mut error = StorageError::codec_error(
        kind,
        Operation::Open,
        ProtocolStage::Recovery,
        None,
        retry_advice,
    );
    error.os_code = failure.os_code;
    error.vlog_file_id = Some(position.file_id);
    error.vlog_offset = Some(position.offset);
    error
}

/// An error as the opening of the log sees it.
pub open spec fn seen_by_open(error: ErrorView, position: Option<VLogPosition>) -> ErrorView {
    let seen = error.seen_by(Operation::Open, ProtocolStage::Recovery);
    match position {
        Some(place) => seen.with_place(Some(place.file_id), Some(place.offset)),
        None => seen,
    }
}

pub fn open_context(error: StorageError, position: Option<VLogPosition>) -> (seen: StorageError)
    ensures
        seen@ == seen_by_open(error@, position),
{
    let mut seen = error;
    seen.operation = Operation::Open;
    seen.protocol_stage = ProtocolStage::Recovery;
    seen.write_outcome = None;
    seen.instance_state = None;
    match position {
        Some(place) => {
            seen.vlog_file_id = Some(place.file_id);
            seen.vlog_offset = Some(place.offset);
        },
        None => {},
    }
    seen
}

/// An error as a write sees it.
pub open spec fn seen_by_append(
    error: ErrorView,
    commit_seq: u64,
    position: VLogPosition,
) -> ErrorView {
    let seen = error.seen_by(Operation::WriteBatch, ProtocolStage::VLogAppend).with_commit(
        commit_seq,
    ).with_place(Some(position.file_id), Some(position.offset));
    ErrorView { write_outcome: Some(WriteOutcome::NotCommitted), ..seen }
}

pub fn append_context(error: StorageError, commit_seq: u64, position: VLogPosition) -> (seen:
    StorageError)
    ensures
        seen@ == seen_by_append(error@, commit_seq, position),
{
    let mut seen = error;
    seen.operation = Operation::WriteBatch;
    seen.protocol_stage = ProtocolStage::VLogAppend;
    seen.write_outcome = Some(WriteOutcome::NotCommitted);
    seen.instance_state = None;
    seen.commit_seq = Some(commit_seq);
    seen.vlog_file_id = Some(position.file_id);
    seen.vlog_offset = Some(position.offset);
    seen
}

/// An error as a synchronization sees it.
pub open spec fn seen_by_sync(
    error: ErrorView,
    target_seq: u64,
    target_end: Option<VLogPosition>,
    file_id: u32,
) -> ErrorView {
    let seen = error.seen_by(Operation::Sync, ProtocolStage::VLogSync).with_commit(
        target_seq,
    ).with_place(
        Some(file_id),
        match target_end {
            Some(end) => if end.file_id == file_id {
                Some(end.offset)
            } else {
                None
            },
            None => None,
        },
    );
    ErrorView { write_outcome: Some(WriteOutcome::NotCommitted), ..seen }
}

pub fn sync_context(
    error: StorageError,
    target_seq: u64,
    target_end: Option<VLogPosition>,
    file_id: u32,
) -> (seen: StorageError)
    ensures
        seen@ == seen_by_sync(error@, target_seq, target_end, file_id),
{
    let mut seen = error;
    seen.operation = Operation::Sync;
    seen.protocol_stage = ProtocolStage::VLogSync;
    seen.write_outcome = Some(WriteOutcome::NotCommitted);
    seen.instance_state = None;
    seen.commit_seq = Some(target_seq);
    seen.vlog_file_id = Some(file_id);
    seen.vlog_offset = match target_end {
        Some(end) => if end.file_id == file_id {
            Some(end.offset)
        } else {
            None
        },
        None => None,
    };
    seen
}

/// A write that is not admitted: the writer has stopped, or a synchronization is not settled.
pub open spec fn append_refused_view(
    kind: StorageErrorKind,
    retry_advice: RetryAdvice,
    commit_seq: u64,
    position: VLogPosition,
) -> ErrorView {
    detached_error(
        kind,
        Operation::WriteBatch,
        ProtocolStage::Admission,
        Some(WriteOutcome::NotCommitted),
        retry_advice,
    ).with_commit(commit_seq).with_place(Some(position.file_id), Some(position.offset))
}

pub open spec fn writer_stopped_view(commit_seq: u64, position: VLogPosition) -> ErrorView {
    append_refused_view(
        StorageErrorKind::StorageWriteStopped,
        RetryAdvice::FixEnvironmentAndReopen,
        commit_seq,
        position,
    )
}

pub open spec fn writer_busy_view(commit_seq: u64, position: VLogPosition) -> ErrorView {
    append_refused_view(
        StorageErrorKind::Busy,
        RetryAdvice::RetrySameInstance,
        commit_seq,
        position,
    )
}

fn append_refused(
    kind: StorageErrorKind,
    retry_advice: RetryAdvice,
    commit_seq: u64,
    position: VLogPosition,
) -> (error: StorageError)
    ensures
        error@ == append_refused_view(kind, retry_advice, commit_seq, position),
{
    let mut error = StorageError::codec_error(
        kind,
        Operation::WriteBatch,
        ProtocolStage::Admission,
        Some(WriteOutcome::NotCommitted),
        retry_advice,
    );
    error.commit_seq = Some(commit_seq);
    error.vlog_file_id = Some(position.file_id);
    error.vlog_offset = Some(position.offset);
    error
}

pub fn writer_stopped(commit_seq: u64, position: VLogPosition) -> (error: StorageError)
    ensures
        error@ == writer_stopped_view(commit_seq, position),
{
    append_refused(
        StorageErrorKind::StorageWriteStopped,
        RetryAdvice::FixEnvironmentAndReopen,
        commit_seq,
        position,
    )
}

pub fn writer_busy(commit_seq: u64, position: VLogPosition) -> (error: StorageError)
    ensures
        error@ == writer_busy_view(commit_seq, position),
{
    append_refused(StorageErrorKind::Busy, RetryAdvice::RetrySameInstance, commit_seq, position)
}

/// An error of a synchronization, placed at the end that it was to reach.
pub open spec fn sync_error_view(
    kind: StorageErrorKind,
    protocol_stage: ProtocolStage,
    retry_advice: RetryAdvice,
    target_seq: u64,
    target_end: Option<VLogPosition>,
) -> ErrorView {
    let error = detached_error(
        kind,
        Operation::Sync,
        protocol_stage,
        Some(WriteOutcome::NotCommitted),
        retry_advice,
    ).with_commit(target_seq);
    match target_end {
        Some(end) => error.with_place(Some(end.file_id), Some(end.offset)),
        None => error,
    }
}

fn sync_error(
    kind: StorageErrorKind,
    protocol_stage: ProtocolStage,
    retry_advice: RetryAdvice,
    target_seq: u64,
    target_end: Option<VLogPosition>,
) -> (error: StorageError)
    ensures
        error@ == sync_error_view(kind, protocol_stage, retry_advice, target_seq, target_end),
{
    let mut error = StorageError::codec_error(
        kind,
        Operation::Sync,
        protocol_stage,
        Some(WriteOutcome::NotCommitted),
        retry_advice,
    );
    error.commit_seq = Some(target_seq);
    match target_end {
        Some(end) => {
            error.vlog_file_id = Some(end.file_id);
            error.vlog_offset = Some(end.offset);
        },
        None => {},
    }
    error
}

/// The writer has stopped.
pub open spec fn sync_stopped_view(target_seq: u64, target_end: Option<VLogPosition>) -> ErrorView {
    sync_error_view(
        StorageErrorKind::StorageWriteStopped,
        ProtocolStage::Admission,
        RetryAdvice::FixEnvironmentAndReopen,
        target_seq,
        target_end,
    )
}

pub fn sync_stopped(target_seq: u64, target_end: Option<VLogPosition>) -> (error: StorageError)
    ensures
        error@ == sync_stopped_view(target_seq, target_end),
{
    sync_error(
        StorageErrorKind::StorageWriteStopped,
        ProtocolStage::Admission,
        RetryAdvice::FixEnvironmentAndReopen,
        target_seq,
        target_end,
    )
}

/// The target is not what was appended last.
pub open spec fn sync_state_view(target_seq: u64, target_end: Option<VLogPosition>) -> ErrorView {
    sync_error_view(
        StorageErrorKind::InvalidArgument,
        ProtocolStage::VLogSync,
        RetryAdvice::DoNotRetry,
        target_seq,
        target_end,
    )
}

pub fn sync_state_error(target_seq: u64, target_end: Option<VLogPosition>) -> (error: StorageError)
    ensures
        error@ == sync_state_view(target_seq, target_end),
{
    sync_error(
        StorageErrorKind::InvalidArgument,
        ProtocolStage::VLogSync,
        RetryAdvice::DoNotRetry,
        target_seq,
        target_end,
    )
}

/// A call failed while the directory was synchronized.
pub open spec fn sync_directory_view(
    target_seq: u64,
    target_end: Option<VLogPosition>,
    failure: IoFailure,
) -> ErrorView {
    sync_error_view(
        StorageErrorKind::Io,
        ProtocolStage::VLogSync,
        RetryAdvice::FixEnvironmentAndReopen,
        target_seq,
        target_end,
    ).with_os_code(failure.os_code)
}

pub fn sync_directory_io(target_seq: u64, target_end: Option<VLogPosition>, failure: IoFailure) -> (error:
    StorageError)
    ensures
        error@ == sync_directory_view(target_seq, target_end, failure),
{
    let mut error = sync_error(
        StorageErrorKind::Io,
        ProtocolStage::VLogSync,
        RetryAdvice::FixEnvironmentAndReopen,
        target_seq,
        target_end,
    );
    error.os_code = failure.os_code;
    error
}

/// A call failed while a file was synchronized.
pub open spec fn sync_file_view(
    target_seq: u64,
    file_id: u32,
    offset: Option<u64>,
    failure: IoFailure,
) -> ErrorView {
    sync_error_view(
        StorageErrorKind::Io,
        ProtocolStage::VLogSync,
        RetryAdvice::FixEnvironmentAndReopen,
        target_seq,
        None,
    ).with_os_code(failure.os_code).with_place(Some(file_id), offset)
}

pub fn sync_file_io(target_seq: u64, file_id: u32, offset: Option<u64>, failure: IoFailure) -> (error:
    StorageError)
    ensures
        error@ == sync_file_view(target_seq, file_id, offset, failure),
{
    let mut error = sync_error(
        StorageErrorKind::Io,
        ProtocolStage::VLogSync,
        RetryAdvice::FixEnvironmentAndReopen,
        target_seq,
        None,
    );
    error.os_code = failure.os_code;
    error.vlog_file_id = Some(file_id);
    error.vlog_offset = offset;
    error
}

/// A failed call of an append is told with its commit and its place. The write is not committed. It
/// may be tried again only where nothing was written and the failure may pass.
pub proof fn law_failed_call_of_an_append(
    commit_seq: u64,
    position: VLogPosition,
    physical_progress: bool,
    failure: IoFailure,
)
    ensures
        ({
            let error = append_io_view(commit_seq, position, physical_progress, failure);
            let passes = failure.cause == IoCause::Interrupted || failure.cause
                == IoCause::WouldBlock;
            &&& error.operation == Operation::WriteBatch
            &&& error.protocol_stage == ProtocolStage::VLogAppend
            &&& error.write_outcome == Some(WriteOutcome::NotCommitted)
            &&& error.commit_seq == Some(commit_seq) && error.os_code == failure.os_code
            &&& error.vlog_file_id == Some(position.file_id)
            &&& error.vlog_offset == Some(position.offset)
            &&& error.retry_advice == RetryAdvice::RetrySameInstance <==> passes
                && !physical_progress
            &&& error.retry_advice == RetryAdvice::FixEnvironmentAndReopen <==> !passes
                || physical_progress
            &&& error.kind == StorageErrorKind::CapacityExceeded <==> failure.cause
                == IoCause::StorageFull
            &&& error.kind == StorageErrorKind::ResourceExhausted <==> passes && !physical_progress
            &&& error.kind == StorageErrorKind::Io <==> failure.cause != IoCause::StorageFull && (
            !passes || physical_progress)
        }),
{
}

/// A call that fails while the log is opened for writing is told with its place. A file that is
/// gone, or that is a link, is damage; anything else is a matter of the environment.
pub proof fn law_failed_call_of_an_opening(
    position: VLogPosition,
    failure: IoFailure,
    file_id: u32,
    offset: u64,
)
    ensures
        ({
            let error = writer_open_view(position, failure);
            &&& error.operation == Operation::Open
            &&& error.protocol_stage == ProtocolStage::Recovery
            &&& error.write_outcome is None && error.os_code == failure.os_code
            &&& error.vlog_file_id == Some(position.file_id)
            &&& error.vlog_offset == Some(position.offset)
            &&& error.kind == StorageErrorKind::Corruption <==> failure.cause == IoCause::NotFound
                || failure.cause == IoCause::TooManyLinks
            &&& error.kind == StorageErrorKind::Corruption || error.kind == StorageErrorKind::Io
            &&& error.retry_advice == RetryAdvice::RestoreOrRepair <==> error.kind
                == StorageErrorKind::Corruption
            &&& error.retry_advice == RetryAdvice::FixEnvironmentAndReopen <==> error.kind
                == StorageErrorKind::Io
        }),
        ({
            let error = accepted_header_view(file_id, offset);
            &&& error.kind == StorageErrorKind::Corruption && error.operation == Operation::Open
            &&& error.vlog_file_id == Some(file_id) && error.vlog_offset == Some(offset)
            &&& error.retry_advice == RetryAdvice::RestoreOrRepair
        }),
        claim_busy_view().kind == StorageErrorKind::Busy,
        claim_busy_view().retry_advice == RetryAdvice::RetrySameInstance,
{
}

/// An error that a write or an opening meets stays what it is: its kind, its advice and its code are
/// the same. A write says that it is not committed.
pub proof fn law_met_error_stays_the_same(
    error: ErrorView,
    commit_seq: u64,
    position: VLogPosition,
    target_end: Option<VLogPosition>,
    file_id: u32,
)
    ensures
        ({
            let written = seen_by_append(error, commit_seq, position);
            let synced = seen_by_sync(error, commit_seq, target_end, file_id);
            let opened = seen_by_open(error, target_end);
            &&& written.kind == error.kind && synced.kind == error.kind && opened.kind == error.kind
            &&& written.retry_advice == error.retry_advice
            &&& synced.retry_advice == error.retry_advice
            &&& opened.retry_advice == error.retry_advice
            &&& written.os_code == error.os_code && synced.os_code == error.os_code
            &&& opened.os_code == error.os_code
            &&& written.operation == Operation::WriteBatch && synced.operation == Operation::Sync
            &&& opened.operation == Operation::Open
            &&& written.write_outcome == Some(WriteOutcome::NotCommitted)
            &&& synced.write_outcome == Some(WriteOutcome::NotCommitted)
            &&& opened.write_outcome is None
            &&& written.commit_seq == Some(commit_seq) && synced.commit_seq == Some(commit_seq)
            &&& written.vlog_file_id == Some(position.file_id)
            &&& written.vlog_offset == Some(position.offset)
            &&& synced.vlog_file_id == Some(file_id)
            &&& synced.vlog_offset is Some ==> target_end == Some(
                VLogPosition { file_id, offset: synced.vlog_offset->0 },
            )
            &&& target_end is Some && target_end->0.file_id == file_id ==> synced.vlog_offset
                is Some
            &&& target_end matches Some(end) ==> opened.vlog_file_id == Some(end.file_id)
                && opened.vlog_offset == Some(end.offset)
        }),
{
}

/// A write or a sync that a writer does not take is not committed, and is told its commit and its
/// place. One may try again only while another is on its way.
pub proof fn law_write_that_is_not_taken(
    commit_seq: u64,
    position: VLogPosition,
    target_end: Option<VLogPosition>,
    failure: IoFailure,
)
    ensures
        ({
            let stopped = writer_stopped_view(commit_seq, position);
            let busy = writer_busy_view(commit_seq, position);
            let layout = append_layout_view(position);
            &&& stopped.kind == StorageErrorKind::StorageWriteStopped
            &&& stopped.retry_advice == RetryAdvice::FixEnvironmentAndReopen
            &&& busy.kind == StorageErrorKind::Busy
            &&& busy.retry_advice == RetryAdvice::RetrySameInstance
            &&& layout.kind == StorageErrorKind::InvalidLayout
            &&& layout.retry_advice == RetryAdvice::RestoreOrRepair
            &&& stopped.write_outcome == Some(WriteOutcome::NotCommitted)
            &&& busy.write_outcome == Some(WriteOutcome::NotCommitted)
            &&& layout.write_outcome == Some(WriteOutcome::NotCommitted)
            &&& stopped.commit_seq == Some(commit_seq) && busy.commit_seq == Some(commit_seq)
            &&& stopped.vlog_file_id == Some(position.file_id)
            &&& busy.vlog_offset == Some(position.offset)
            &&& layout.vlog_file_id == Some(position.file_id)
            &&& layout.vlog_offset == Some(position.offset)
        }),
        ({
            let stopped = sync_stopped_view(commit_seq, target_end);
            let misplaced = sync_state_view(commit_seq, target_end);
            let failed = sync_directory_view(commit_seq, target_end, failure);
            &&& stopped.kind == StorageErrorKind::StorageWriteStopped
            &&& stopped.retry_advice == RetryAdvice::FixEnvironmentAndReopen
            &&& misplaced.kind == StorageErrorKind::InvalidArgument
            &&& misplaced.retry_advice == RetryAdvice::DoNotRetry
            &&& failed.kind == StorageErrorKind::Io && failed.os_code == failure.os_code
            &&& failed.retry_advice == RetryAdvice::FixEnvironmentAndReopen
            &&& stopped.operation == Operation::Sync && misplaced.operation == Operation::Sync
            &&& failed.operation == Operation::Sync
            &&& stopped.commit_seq == Some(commit_seq) && misplaced.commit_seq == Some(commit_seq)
            &&& failed.commit_seq == Some(commit_seq)
            &&& stopped.write_outcome == Some(WriteOutcome::NotCommitted)
            &&& failed.write_outcome == Some(WriteOutcome::NotCommitted)
        }),
        ({
            let failed = sync_file_view(
                commit_seq,
                position.file_id,
                Some(position.offset),
                failure,
            );
            &&& failed.kind == StorageErrorKind::Io && failed.os_code == failure.os_code
            &&& failed.vlog_file_id == Some(position.file_id)
            &&& failed.vlog_offset == Some(position.offset)
            &&& failed.retry_advice == RetryAdvice::FixEnvironmentAndReopen
            &&& failed.commit_seq == Some(commit_seq)
        }),
{
}

} // verus!
