//! The order of a commit: the log first, then the index, then what the instance knows.

use vstd::prelude::*;

use crate::commit::durability::{add_frontier_to_batch, frontier_change, most_for_frontier};
use crate::commit::metadata::{end_fits, CommitSeq, DurableFrontier, DurableVLogEnd};
use crate::commit::preflight::write_memory_view;
use crate::commit::prepare::{PreparedCommit, PreparedView};
use crate::error::{
    detached_error, plain_error, ErrorView, InstanceState, Operation, ProtocolStage, Result,
    RetryAdvice, StorageError, StorageErrorKind, WriteOutcome,
};
use crate::index::batch::{IndexApplyState, IndexCommitError, IndexCommitMode};
use crate::memory::{asked, Memory};
use crate::runtime::state::{
    failure_state, required_failure_state, sent_away, RuntimeControl, RuntimeView,
};
use crate::stats::{DbStats, StatsState};
use crate::vlog::geometry::{VLogGeometry, VLogPosition};
use crate::vlog::writer::{advanced, files_in, AppendState, ValueLogWriter, WriterView};

verus! {

/// Codes of the operating system that say that the storage is full or cannot be written.
pub open spec fn is_full_code(os_code: Option<i32>) -> bool {
    os_code == Some(28i32) || os_code == Some(30i32) || os_code == Some(69i32) || os_code == Some(
        122i32,
    )
}

/// What a commit knows of the log and the index.
#[derive(Clone, Copy, Debug, PartialEq, Eq, Structural)]
pub struct CommitState {
    pub head_seq: CommitSeq,
    pub durable_frontier: DurableFrontier,
    pub head_vlog_end: DurableVLogEnd,
}

impl CommitState {
    /// The frontier is not ahead of the head, and both ends of the log fit their commits.
    pub open spec fn valid(self) -> bool {
        &&& self.durable_frontier.valid()
        &&& self.durable_frontier.durable_seq <= self.head_seq
        &&& end_fits(self.head_seq, self.head_vlog_end)
    }

    /// Takes up the state that a recovery left: everything is durable, and the writer stands
    /// where the log ends.
    pub fn initial(head_seq: CommitSeq, frontier: DurableFrontier, writer: &ValueLogWriter) -> (result: Result<
        Self,
    >)
        ensures
            ({
                let fits = frontier.valid() && frontier.durable_seq == head_seq
                    && writer@.position() == (match frontier.durable_vlog_end {
                    DurableVLogEnd::Empty => VLogPosition { file_id: 0, offset: 0 },
                    DurableVLogEnd::Position(end) => end,
                });
                match result {
                    Ok(state) => fits && state == (CommitState {
                        head_seq,
                        durable_frontier: frontier,
                        head_vlog_end: frontier.durable_vlog_end,
                    }) && state.valid(),
                    Err(error) => !fits && error@ == detached_error(
                        StorageErrorKind::InvalidLayout,
                        Operation::Open,
                        ProtocolStage::Preflight,
                        None,
                        RetryAdvice::RestoreOrRepair,
                    ),
                }
            }),
    {
        let expected = match frontier.durable_vlog_end {
            DurableVLogEnd::Empty => VLogPosition { file_id: 0, offset: 0 },
            DurableVLogEnd::Position(end) => end,
        };
        if frontier.validate_against_head(head_seq).is_err() || frontier.durable_seq != head_seq
            || writer.position() != expected {
            return Err(
                StorageError::codec_error(
                    StorageErrorKind::InvalidLayout,
                    Operation::Open,
                    ProtocolStage::Preflight,
                    None,
                    RetryAdvice::RestoreOrRepair,
                ),
            );
        }
        Ok(
            CommitState {
                head_seq,
                durable_frontier: frontier,
                head_vlog_end: frontier.durable_vlog_end,
            },
        )
    }

    /// A commit is in the index: the head moves to it, and the frontier too where it was made
    /// durable.
    pub fn publish_commit(&mut self, run: &CommitRun)
        requires
            old(self).valid(),
            run.commit_seq == old(self).head_seq + 1,
            run.vlog_end.valid(),
        ensures
            final(self).valid(),
            *final(self) == (CommitState {
                head_seq: run.commit_seq,
                head_vlog_end: DurableVLogEnd::Position(run.vlog_end),
                durable_frontier: if run.sync {
                    run.frontier()
                } else {
                    old(self).durable_frontier
                },
            }),
    {
        self.head_seq = run.commit_seq;
        self.head_vlog_end = DurableVLogEnd::Position(run.vlog_end);
        if run.sync {
            self.durable_frontier = run.target_frontier();
        }
    }

    /// A barrier is in the index: the frontier moves to it.
    pub fn publish_barrier(&mut self, frontier: DurableFrontier)
        requires
            old(self).valid(),
            frontier.valid(),
            frontier.durable_seq <= old(self).head_seq,
        ensures
            final(self).valid(),
            *final(self) == (CommitState { durable_frontier: frontier, ..*old(self) }),
    {
        self.durable_frontier = frontier;
    }

    /// The frontier that a barrier has to reach, if anything is not durable.
    pub fn barrier(&self) -> (frontier: Option<DurableFrontier>)
        requires
            self.valid(),
        ensures
            match frontier {
                Some(frontier) => {
                    &&& self.head_seq > self.durable_frontier.durable_seq
                    &&& frontier == (DurableFrontier {
                        durable_seq: self.head_seq,
                        durable_vlog_end: self.head_vlog_end,
                    })
                    &&& frontier.valid()
                },
                None => self.head_seq == self.durable_frontier.durable_seq,
            },
    {
        if self.head_seq == self.durable_frontier.durable_seq {
            None
        } else {
            Some(
                DurableFrontier {
                    durable_seq: self.head_seq,
                    durable_vlog_end: self.head_vlog_end,
                },
            )
        }
    }

    /// Whether someone else reached the frontier of a barrier in the meantime.
    pub fn is_reached(&self, frontier: DurableFrontier) -> (reached: bool)
        ensures
            reached == (self.durable_frontier.durable_seq >= frontier.durable_seq),
    {
        self.durable_frontier.durable_seq >= frontier.durable_seq
    }

    /// Reports the progress to the statistics.
    pub fn publish_stats(&self, writer: &ValueLogWriter, stats: &mut StatsState)
        requires
            self.valid(),
        ensures
            final(stats)@ == (DbStats {
                head_seq: self.head_seq,
                durable_seq: self.durable_frontier.durable_seq,
                durability_lag: (self.head_seq - self.durable_frontier.durable_seq) as u64,
                durable_vlog_end: match self.durable_frontier.durable_vlog_end {
                    DurableVLogEnd::Empty => None,
                    DurableVLogEnd::Position(end) => Some(
                        crate::stats::VLogPosition { file_id: end.file_id, offset: end.offset },
                    ),
                },
                active_vlog_file_id: active_file(writer@),
                vlog_file_count: file_count(writer@),
                vlog_logical_bytes: logical_bytes(writer@),
                ..old(stats)@
            }),
    {
        let end = match self.durable_frontier.durable_vlog_end {
            DurableVLogEnd::Empty => None,
            DurableVLogEnd::Position(end) => Some((end.file_id, end.offset)),
        };
        stats.update_commit_state(
            self.head_seq,
            self.durable_frontier.durable_seq,
            end,
            writer.active_file_id(),
            writer.file_count(),
            writer.logical_bytes(),
        );
    }
}

/// The file that can be appended to, if there is one.
pub open spec fn active_file(writer: WriterView) -> Option<u32> {
    match writer.state {
        AppendState::Open { file_id, .. } => Some(file_id),
        _ => None,
    }
}

/// How many files the log has.
pub open spec fn file_count(writer: WriterView) -> u32 {
    match writer.state {
        AppendState::Empty => 0,
        _ => if writer.position().file_id < u32::MAX {
            (writer.position().file_id + 1) as u32
        } else {
            u32::MAX
        },
    }
}

/// How many bytes the files of the log have together. All but the last one are full.
pub open spec fn logical_bytes(writer: WriterView) -> u64 {
    let full = writer.position().file_id * writer.geometry.max_file_size;
    if full + writer.position().offset <= u64::MAX {
        (full + writer.position().offset) as u64
    } else {
        u64::MAX
    }
}

impl ValueLogWriter {
    pub fn active_file_id(&self) -> (file_id: Option<u32>)
        ensures
            file_id == active_file(self@),
    {
        match self.append_state() {
            AppendState::Open { file_id, .. } => Some(file_id),
            _ => None,
        }
    }

    pub fn file_count(&self) -> (count: u32)
        ensures
            count == file_count(self@),
    {
        match self.append_state() {
            AppendState::Empty => 0,
            _ => {
                let file_id: u32 = self.position().file_id;
                if file_id < u32::MAX {
                    file_id + 1
                } else {
                    u32::MAX
                }
            },
        }
    }

    pub fn logical_bytes(&self) -> (bytes: u64)
        ensures
            bytes == logical_bytes(self@),
    {
        let position = self.position();
        let size: u64 = self.log_geometry().max_file_size;
        match (position.file_id as u64).checked_mul(size) {
            Some(full) => match full.checked_add(position.offset) {
                Some(bytes) => bytes,
                None => u64::MAX,
            },
            None => u64::MAX,
        }
    }
}

/// What a commit does next.
#[derive(Clone, Copy, Debug, PartialEq, Eq, Structural)]
pub enum CommitStage {
    /// Append the envelope to the log.
    Append,
    /// Bring the log to the disk.
    Sync,
    /// Commit the batch to the index.
    CommitIndex,
    /// The commit is in the index.
    Committed,
}

/// A commit on its way.
#[derive(Clone, Copy, Debug)]
pub struct CommitRun {
    pub operation: Operation,
    pub sync: bool,
    pub commit_seq: CommitSeq,
    pub tx_uuid: [u8; 16],
    pub vlog_end: VLogPosition,
    pub stage: CommitStage,
}

impl CommitRun {
    /// The frontier that a synchronized commit reaches.
    pub open spec fn frontier(self) -> DurableFrontier {
        DurableFrontier {
            durable_seq: self.commit_seq,
            durable_vlog_end: DurableVLogEnd::Position(self.vlog_end),
        }
    }

    fn target_frontier(&self) -> (frontier: DurableFrontier)
        ensures
            frontier == self.frontier(),
    {
        DurableFrontier {
            durable_seq: self.commit_seq,
            durable_vlog_end: DurableVLogEnd::Position(self.vlog_end),
        }
    }

    /// Begins a prepared commit. A commit that has to be durable takes the frontier into its
    /// batch.
    pub fn begin(memory: &mut Memory, prepared: &mut PreparedCommit, operation: Operation) -> (result: Result<
        Self,
    >)
        requires
            !old(memory).refused(),
            old(prepared).commit_seq != 0,
            old(prepared).vlog_end.valid(),
        ensures
            final(memory).refused() ==> {
                &&& result matches Err(error) && error@ == write_memory_view(operation)
                &&& final(prepared).envelope == old(prepared).envelope
                &&& final(prepared)@ == old(prepared)@
            },
            !final(memory).refused() ==> (result matches Ok(run) && {
                &&& run == (CommitRun {
                    operation,
                    sync: old(prepared).sync,
                    commit_seq: old(prepared).commit_seq,
                    tx_uuid: old(prepared).tx_uuid,
                    vlog_end: old(prepared).vlog_end,
                    stage: CommitStage::Append,
                })
                &&& final(prepared).envelope == old(prepared).envelope
                &&& final(prepared)@ == (PreparedView {
                    index_batch: if run.sync {
                        old(prepared)@.index_batch.push(frontier_change(run.frontier()))
                    } else {
                        old(prepared)@.index_batch
                    },
                    ..old(prepared)@
                })
            }),
            if old(prepared).sync {
                asked(
                    *old(memory),
                    *final(memory),
                    3,
                    most_for_frontier(
                        old(prepared)@.index_batch,
                        DurableFrontier {
                            durable_seq: old(prepared).commit_seq,
                            durable_vlog_end: DurableVLogEnd::Position(old(prepared).vlog_end),
                        },
                    ),
                )
            } else {
                *final(memory) == *old(memory)
            },
    {
        let run = CommitRun {
            operation,
            sync: prepared.sync,
            commit_seq: prepared.commit_seq,
            tx_uuid: prepared.tx_uuid,
            vlog_end: prepared.vlog_end,
            stage: CommitStage::Append,
        };
        if run.sync {
            let frontier = run.target_frontier();
            add_frontier_to_batch(memory, &mut prepared.index_batch, frontier, operation)?;
        }
        Ok(run)
    }

    /// How the index commits the batch.
    pub fn mode(&self) -> (mode: IndexCommitMode)
        ensures
            mode == (if self.sync {
                IndexCommitMode::SyncAll
            } else {
                IndexCommitMode::Buffer
            }),
    {
        if self.sync {
            IndexCommitMode::SyncAll
        } else {
            IndexCommitMode::Buffer
        }
    }

    /// The stage behind one that is done: a synchronized commit brings the log to the disk
    /// before it reaches the index.
    pub open spec fn next_stage(self) -> CommitStage {
        match self.stage {
            CommitStage::Append => if self.sync {
                CommitStage::Sync
            } else {
                CommitStage::CommitIndex
            },
            CommitStage::Sync => CommitStage::CommitIndex,
            CommitStage::CommitIndex | CommitStage::Committed => CommitStage::Committed,
        }
    }

    /// A stage is done.
    pub fn advance(&mut self)
        ensures
            *final(self) == (CommitRun { stage: old(self).next_stage(), ..*old(self) }),
    {
        self.stage = match self.stage {
            CommitStage::Append => if self.sync {
                CommitStage::Sync
            } else {
                CommitStage::CommitIndex
            },
            CommitStage::Sync => CommitStage::CommitIndex,
            CommitStage::CommitIndex | CommitStage::Committed => CommitStage::Committed,
        };
    }
}

/// The index is reached only behind the log, and behind a synchronized log where the commit has
/// to be durable.
pub proof fn law_log_before_index(run: CommitRun)
    ensures
        run.next_stage() == CommitStage::CommitIndex && run.sync ==> run.stage
            == CommitStage::Sync,
        run.next_stage() == CommitStage::Sync ==> run.stage == CommitStage::Append,
        run.next_stage() == CommitStage::Committed ==> run.stage == CommitStage::CommitIndex
            || run.stage == CommitStage::Committed,
{
}

/// The state that a failed append leads to: none where the writer goes on, an end of writes
/// where the storage is full, and otherwise a poisoned instance.
pub open spec fn append_failure_state(error: ErrorView, stopped: bool) -> InstanceState {
    if !stopped {
        InstanceState::Healthy
    } else if error.kind == StorageErrorKind::CapacityExceeded || is_full_code(error.os_code) {
        InstanceState::WriteStopped
    } else {
        InstanceState::Poisoned
    }
}

pub fn classify_vlog_append_failure(error: &StorageError, stopped: bool) -> (state: InstanceState)
    ensures
        state == append_failure_state(error@, stopped),
{
    if !stopped {
        return InstanceState::Healthy;
    }
    let full = match error.os_code {
        Some(code) => code == 28 || code == 30 || code == 69 || code == 122,
        None => false,
    };
    if error.kind == StorageErrorKind::CapacityExceeded || full {
        InstanceState::WriteStopped
    } else {
        InstanceState::Poisoned
    }
}

/// An error of the writer as the operation of the user sees it.
pub fn remap_writer_operation(error: StorageError, operation: Operation) -> (mapped: StorageError)
    ensures
        mapped@ == (ErrorView { operation, ..error@ }),
{
    let mut mapped = error;
    mapped.operation = operation;
    mapped
}

/// What a failed commit of the index means: the outcome, the state, and what to do.
pub open spec fn index_failure(error: IndexCommitError) -> (WriteOutcome, InstanceState, RetryAdvice) {
    match error.apply_state {
        IndexApplyState::Unknown => (
            WriteOutcome::CommitUnknown,
            InstanceState::Poisoned,
            RetryAdvice::ReopenAndVerify,
        ),
        IndexApplyState::NotApplied => match error.source.kind {
            StorageErrorKind::Corruption
            | StorageErrorKind::InvalidLayout
            | StorageErrorKind::Unrecoverable => (
                WriteOutcome::NotCommitted,
                InstanceState::Poisoned,
                RetryAdvice::RestoreOrRepair,
            ),
            StorageErrorKind::IncompatibleFormat => (
                WriteOutcome::NotCommitted,
                InstanceState::Poisoned,
                RetryAdvice::DoNotRetry,
            ),
            StorageErrorKind::Io | StorageErrorKind::StoragePoisoned => (
                WriteOutcome::NotCommitted,
                InstanceState::Poisoned,
                RetryAdvice::ReopenAndVerify,
            ),
            _ => (
                WriteOutcome::NotCommitted,
                InstanceState::WriteStopped,
                RetryAdvice::FixEnvironmentAndReopen,
            ),
        },
    }
}

/// A failed commit of the index as the operation of the user sees it.
pub open spec fn index_failure_view(
    error: IndexCommitError,
    operation: Operation,
    stage: ProtocolStage,
    identity: Option<(CommitSeq, [u8; 16])>,
) -> ErrorView {
    let (outcome, state, retry_advice) = index_failure(error);
    identified(
        plain_error(
            error.source.kind,
            operation,
            stage,
            Some(outcome),
            Some(state),
            retry_advice,
        ).with_os_code(error.source.os_code),
        identity,
    )
}

/// An error that names its commit, where there is one.
pub open spec fn identified(error: ErrorView, identity: Option<(CommitSeq, [u8; 16])>) -> ErrorView {
    match identity {
        Some((commit_seq, tx_uuid)) => ErrorView {
            commit_seq: Some(commit_seq),
            tx_uuid: Some(tx_uuid),
            ..error
        },
        None => error,
    }
}

pub fn map_index_commit_error(
    error: IndexCommitError,
    operation: Operation,
    stage: ProtocolStage,
    identity: Option<(CommitSeq, [u8; 16])>,
) -> (mapped: (StorageError, InstanceState))
    ensures
        mapped.0@ == index_failure_view(error, operation, stage, identity),
        mapped.1 == index_failure(error).1,
{
    let (outcome, state, retry_advice) = match error.apply_state {
        IndexApplyState::Unknown => (
            WriteOutcome::CommitUnknown,
            InstanceState::Poisoned,
            RetryAdvice::ReopenAndVerify,
        ),
        IndexApplyState::NotApplied => match error.source.kind {
            StorageErrorKind::Corruption
            | StorageErrorKind::InvalidLayout
            | StorageErrorKind::Unrecoverable => (
                WriteOutcome::NotCommitted,
                InstanceState::Poisoned,
                RetryAdvice::RestoreOrRepair,
            ),
            StorageErrorKind::IncompatibleFormat => (
                WriteOutcome::NotCommitted,
                InstanceState::Poisoned,
                RetryAdvice::DoNotRetry,
            ),
            StorageErrorKind::Io | StorageErrorKind::StoragePoisoned => (
                WriteOutcome::NotCommitted,
                InstanceState::Poisoned,
                RetryAdvice::ReopenAndVerify,
            ),
            _ => (
                WriteOutcome::NotCommitted,
                InstanceState::WriteStopped,
                RetryAdvice::FixEnvironmentAndReopen,
            ),
        },
    };
    let mut mapped = StorageError::write_protocol(
        error.source.kind,
        operation,
        stage,
        outcome,
        state,
        retry_advice,
    );
    mapped.os_code = error.source.os_code;
    match identity {
        Some((commit_seq, tx_uuid)) => {
            mapped.commit_seq = Some(commit_seq);
            mapped.tx_uuid = Some(tx_uuid);
        },
        None => {},
    }
    (mapped, state)
}

/// What to do about an error at an instance that is in some state.
pub open spec fn advice_in_state(error: ErrorView, state: InstanceState) -> RetryAdvice {
    if error.write_outcome == Some(WriteOutcome::CommitUnknown) {
        RetryAdvice::ReopenAndVerify
    } else if error.instance_state == Some(state) {
        error.retry_advice
    } else {
        match state {
            InstanceState::Healthy => error.retry_advice,
            InstanceState::WriteStopped => RetryAdvice::FixEnvironmentAndReopen,
            InstanceState::Poisoned => match error.kind {
                StorageErrorKind::Corruption
                | StorageErrorKind::InvalidLayout
                | StorageErrorKind::Unrecoverable => RetryAdvice::RestoreOrRepair,
                StorageErrorKind::IncompatibleFormat => RetryAdvice::DoNotRetry,
                _ => RetryAdvice::ReopenAndVerify,
            },
        }
    }
}

fn retry_for_state(error: &StorageError, state: InstanceState) -> (advice: RetryAdvice)
    ensures
        advice == advice_in_state(error@, state),
{
    if error.write_outcome == Some(WriteOutcome::CommitUnknown) {
        return RetryAdvice::ReopenAndVerify;
    }
    if error.instance_state == Some(state) {
        return error.retry_advice;
    }
    match state {
        InstanceState::Healthy => error.retry_advice,
        InstanceState::WriteStopped => RetryAdvice::FixEnvironmentAndReopen,
        InstanceState::Poisoned => match error.kind {
            StorageErrorKind::Corruption
            | StorageErrorKind::InvalidLayout
            | StorageErrorKind::Unrecoverable => RetryAdvice::RestoreOrRepair,
            StorageErrorKind::IncompatibleFormat => RetryAdvice::DoNotRetry,
            _ => RetryAdvice::ReopenAndVerify,
        },
    }
}

/// An error with the advice for an instance in some state.
pub open spec fn in_state(error: ErrorView, state: InstanceState) -> ErrorView {
    ErrorView {
        retry_advice: advice_in_state(error, state),
        instance_state: Some(state),
        ..error
    }
}

/// What becomes of an instance when a write that had begun fails, and what its user is told.
pub open spec fn write_failed_at(
    runtime: RuntimeView,
    error: ErrorView,
    requested: Option<InstanceState>,
    identity: Option<(CommitSeq, [u8; 16])>,
) -> (RuntimeView, ErrorView) {
    let named = identified(error, identity);
    let wanted = match requested {
        Some(state) => state,
        None => match named.instance_state {
            Some(state) => state,
            None => InstanceState::Healthy,
        },
    };
    let target = failure_state(wanted, named);
    let told = in_state(named, target);
    let after = if target != InstanceState::Healthy {
        runtime.latched(target, told)
    } else {
        runtime
    };
    (after, in_state(told, after.state.instance_state))
}

/// Takes the failure of a write that had begun. The writes that waited behind it are sent away
/// where the instance got worse.
pub fn fail_started(
    runtime: &mut RuntimeControl,
    error: StorageError,
    requested_state: Option<InstanceState>,
    identity: Option<(CommitSeq, [u8; 16])>,
) -> (failed: (StorageError, Vec<u64>))
    ensures
        ({
            let (after, told) = write_failed_at(
                old(runtime)@,
                error@,
                requested_state,
                identity,
            );
            &&& final(runtime)@ == after
            &&& failed.0@ == told
            &&& failed.1@ == sent_away(old(runtime)@, after)
        }),
{
    let mut told = error;
    match identity {
        Some((commit_seq, tx_uuid)) => {
            told.commit_seq = Some(commit_seq);
            told.tx_uuid = Some(tx_uuid);
        },
        None => {},
    }
    let wanted = match requested_state {
        Some(state) => state,
        None => match told.instance_state {
            Some(state) => state,
            None => InstanceState::Healthy,
        },
    };
    let target = required_failure_state(wanted, &told);
    told.retry_advice = retry_for_state(&told, target);
    told.instance_state = Some(target);
    let ghost before = runtime@;
    let mut cancelled: Vec<u64> = Vec::new();
    if target != InstanceState::Healthy {
        let latched = runtime.latch_failure(target, &told);
        proof {
            assert(failure_state(target, told@) == target);
        }
        cancelled = latched.1;
    }
    let state = runtime.state().instance_state;
    told.retry_advice = retry_for_state(&told, state);
    told.instance_state = Some(state);
    (told, cancelled)
}

/// A frontier that the writer does not know is an error that poisons the instance.
pub fn unsettled_frontier_error(error: StorageError, operation: Operation) -> (mapped: StorageError)
    ensures
        mapped@ == (ErrorView {
            operation,
            instance_state: Some(InstanceState::Poisoned),
            retry_advice: RetryAdvice::ReopenAndVerify,
            ..error@
        }),
{
    let mut mapped = error;
    mapped.operation = operation;
    mapped.instance_state = Some(InstanceState::Poisoned);
    mapped.retry_advice = RetryAdvice::ReopenAndVerify;
    mapped
}

/// An unknown outcome always poisons the instance, and its user is told to open it again and
/// look; a user is never told of a state better than the one that the instance is in.
pub proof fn law_unknown_outcome_poisons(
    runtime: RuntimeView,
    error: ErrorView,
    requested: Option<InstanceState>,
    identity: Option<(CommitSeq, [u8; 16])>,
)
    requires
        runtime.valid(),
    ensures
        ({
            let (after, told) = write_failed_at(runtime, error, requested, identity);
            &&& after.valid()
            &&& told.instance_state == Some(after.state.instance_state)
            &&& error.write_outcome == Some(WriteOutcome::CommitUnknown) ==> {
                &&& after.state.instance_state == InstanceState::Poisoned
                &&& told.retry_advice == RetryAdvice::ReopenAndVerify
            }
        }),
{
}

/// Advice to try again with the same instance.
pub open spec fn retries_here(advice: RetryAdvice) -> bool {
    advice == RetryAdvice::RetrySameInstance || advice
        == RetryAdvice::FixRequestAndRetrySameInstance
}

/// The user of a write that failed is told to try again with the same instance only while that
/// instance is healthy, whatever the failure was.
pub proof fn law_no_retry_in_a_worse_state(
    runtime: RuntimeView,
    error: ErrorView,
    requested: Option<InstanceState>,
    identity: Option<(CommitSeq, [u8; 16])>,
)
    requires
        runtime.valid(),
        error.instance_state is Some && error.instance_state != Some(InstanceState::Healthy)
            ==> !retries_here(error.retry_advice),
    ensures
        ({
            let (after, told) = write_failed_at(runtime, error, requested, identity);
            retries_here(told.retry_advice) ==> after.state.instance_state
                == InstanceState::Healthy && told.instance_state == Some(InstanceState::Healthy)
        }),
{
}

/// A commit that has to be durable passes the log, the disk and the index, in this order; any
/// other one passes the log and the index. Then it is committed.
pub proof fn law_commit_passes_its_stages(run: CommitRun)
    requires
        run.stage == CommitStage::Append,
    ensures
        ({
            let second = CommitRun { stage: run.next_stage(), ..run };
            let third = CommitRun { stage: second.next_stage(), ..run };
            let fourth = CommitRun { stage: third.next_stage(), ..run };
            &&& run.sync ==> second.stage == CommitStage::Sync && third.stage
                == CommitStage::CommitIndex && fourth.stage == CommitStage::Committed
            &&& !run.sync ==> second.stage == CommitStage::CommitIndex && third.stage
                == CommitStage::Committed && fourth.stage == CommitStage::Committed
        }),
{
}

/// A failed append leaves the instance healthy exactly where the writer goes on. A writer that
/// stopped for want of room, or because the storage takes no more, ends the writes; one that
/// stopped for anything else poisons the instance.
pub proof fn law_failed_append_decides_state(error: ErrorView, stopped: bool)
    ensures
        ({
            let state = append_failure_state(error, stopped);
            let no_room = error.kind == StorageErrorKind::CapacityExceeded || error.os_code
                == Some(28i32) || error.os_code == Some(30i32) || error.os_code == Some(69i32)
                || error.os_code == Some(122i32);
            &&& state == InstanceState::Healthy <==> !stopped
            &&& state == InstanceState::WriteStopped <==> stopped && no_room
            &&& state == InstanceState::Poisoned <==> stopped && !no_room
        }),
{
}

/// A commit that the index failed to take is unknown exactly where the index cannot tell whether
/// it took it. The instance is never left healthy: it is poisoned where the outcome is unknown,
/// the storage failed or its contents are damaged, and takes no more writes otherwise. The user
/// is told of the same error, of the commit, and never to try again at once.
pub proof fn law_failed_index_commit_decides_state(
    error: IndexCommitError,
    operation: Operation,
    stage: ProtocolStage,
    identity: Option<(CommitSeq, [u8; 16])>,
)
    ensures
        ({
            let (outcome, state, advice) = index_failure(error);
            let told = index_failure_view(error, operation, stage, identity);
            let kind = error.source.kind;
            let unknown = error.apply_state == IndexApplyState::Unknown;
            let damaged = kind == StorageErrorKind::Corruption || kind
                == StorageErrorKind::InvalidLayout || kind == StorageErrorKind::Unrecoverable;
            let other_format = kind == StorageErrorKind::IncompatibleFormat;
            let broken = kind == StorageErrorKind::Io || kind == StorageErrorKind::StoragePoisoned;
            &&& outcome == WriteOutcome::CommitUnknown <==> unknown
            &&& state != InstanceState::Healthy
            &&& state == InstanceState::Poisoned <==> unknown || damaged || other_format || broken
            &&& advice == RetryAdvice::ReopenAndVerify <==> unknown || broken
            &&& advice == RetryAdvice::RestoreOrRepair <==> !unknown && damaged
            &&& advice == RetryAdvice::DoNotRetry <==> !unknown && other_format
            &&& advice == RetryAdvice::FixEnvironmentAndReopen <==> state
                == InstanceState::WriteStopped
            &&& told.kind == kind
            &&& told.operation == operation
            &&& told.protocol_stage == stage
            &&& told.write_outcome == Some(outcome)
            &&& told.instance_state == Some(state)
            &&& told.retry_advice == advice
            &&& told.os_code == error.source.os_code
            &&& identity is None ==> told.commit_seq is None && told.tx_uuid is None
            &&& identity matches Some((commit_seq, tx_uuid)) ==> told.commit_seq == Some(
                commit_seq,
            ) && told.tx_uuid == Some(tx_uuid)
        }),
{
}

/// A write that fails makes the instance as bad as it is asked to and as the error calls for, and
/// no worse. Its user is told of the same error, in the state that the instance is in now; the
/// advice stays where that is the state that the error came with, and is else what that state
/// asks for.
pub proof fn law_failed_write_is_told_of(
    runtime: RuntimeView,
    error: ErrorView,
    requested: Option<InstanceState>,
    identity: Option<(CommitSeq, [u8; 16])>,
)
    requires
        runtime.valid(),
    ensures
        ({
            let (after, told) = write_failed_at(runtime, error, requested, identity);
            let state = after.state.instance_state;
            let wanted = if requested is Some {
                requested->0
            } else if error.instance_state is Some {
                error.instance_state->0
            } else {
                InstanceState::Healthy
            };
            let unknown = error.write_outcome == Some(WriteOutcome::CommitUnknown);
            let damaged = error.kind == StorageErrorKind::Corruption || error.kind
                == StorageErrorKind::InvalidLayout || error.kind
                == StorageErrorKind::Unrecoverable;
            &&& state == failure_state(wanted, error) || (state == runtime.state.instance_state
                && state != InstanceState::Healthy)
            &&& state == runtime.state.instance_state ==> after == runtime
            &&& state != runtime.state.instance_state ==> after.queue.len() == 0
                && !after.accepting_writes
            &&& after.active == runtime.active
            &&& told.instance_state == Some(state)
            &&& told.kind == error.kind
            &&& told.operation == error.operation
            &&& told.protocol_stage == error.protocol_stage
            &&& told.write_outcome == error.write_outcome
            &&& told.os_code == error.os_code
            &&& told.vlog_file_id == error.vlog_file_id
            &&& told.vlog_offset == error.vlog_offset
            &&& identity is None ==> told.commit_seq == error.commit_seq && told.tx_uuid
                == error.tx_uuid
            &&& identity matches Some((commit_seq, tx_uuid)) ==> told.commit_seq == Some(
                commit_seq,
            ) && told.tx_uuid == Some(tx_uuid)
            &&& !unknown && (state == InstanceState::Healthy || (error.instance_state == Some(state)
                && failure_state(wanted, error) == state)) ==> told.retry_advice
                == error.retry_advice
            &&& !unknown && state == InstanceState::WriteStopped && error.instance_state != Some(
                state,
            ) ==> told.retry_advice == RetryAdvice::FixEnvironmentAndReopen
            &&& !unknown && state == InstanceState::Poisoned && error.instance_state != Some(state)
                ==> told.retry_advice == if damaged {
                RetryAdvice::RestoreOrRepair
            } else if error.kind == StorageErrorKind::IncompatibleFormat {
                RetryAdvice::DoNotRetry
            } else {
                RetryAdvice::ReopenAndVerify
            }
        }),
{
}

/// The statistics count the files that the log has, name the one that is open, and count every
/// byte once: bytes that are appended add to the sum, and to leave a full file for a new one
/// does not.
pub proof fn law_statistics_follow_the_log(
    writer: WriterView,
    geometry: VLogGeometry,
    file_id: u32,
    offset: u64,
    written: u64,
)
    requires
        file_id < 0xffff_ffff,
        (file_id + 1) * geometry.max_file_size <= u64::MAX,
        offset + written <= geometry.max_file_size,
    ensures
        ({
            let at = |state: AppendState| WriterView { state, geometry, ..writer };
            let open = at(AppendState::Open { file_id, offset });
            let full = at(AppendState::AtFileLimit { last_file_id: file_id });
            let next = at(AppendState::Open { file_id: (file_id + 1) as u32, offset: 0 });
            let empty = at(AppendState::Empty);
            &&& file_count(open) == files_in(open.state)
            &&& file_count(full) == files_in(full.state)
            &&& file_count(empty) == 0
            &&& active_file(open) == Some(file_id)
            &&& active_file(full) is None
            &&& active_file(empty) is None
            &&& logical_bytes(advanced(open, written)) == logical_bytes(open) + written
            &&& logical_bytes(next) == logical_bytes(full)
            &&& logical_bytes(at(AppendState::Open { file_id, offset: geometry.max_file_size }))
                == logical_bytes(full)
            &&& logical_bytes(empty) == 0
        }),
{
    let size = geometry.max_file_size as int;
    assert((file_id + 1) * size == file_id * size + size) by (nonlinear_arith);
    assert(0 * size == 0) by (nonlinear_arith);
}

} // verus!
