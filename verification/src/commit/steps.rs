//! A commit, step by step: what each outcome of the log and of the index does to the instance.

use vstd::prelude::*;

use crate::commit::coordinator::{
    active_file, append_failure_state, classify_vlog_append_failure, fail_started, file_count,
    index_failure, index_failure_view, logical_bytes, map_index_commit_error,
    remap_writer_operation, unsettled_frontier_error, write_failed_at, CommitRun, CommitStage,
    CommitState,
};
use crate::commit::durability::{frontier_change, frontier_only_batch, most_for_frontier};
use crate::commit::metadata::{CommitSeq, DurableFrontier, DurableVLogEnd};
use crate::commit::preflight::write_memory_view;
use crate::commit::prepare::{PreparedCommit, PreparedView};
use crate::error::{
    ErrorView, InstanceState, Operation, ProtocolStage, Result, RetryAdvice, StorageError,
};
use crate::index::batch::{IndexAtomicBatch, IndexCommitError, IndexCommitMode};
use crate::memory::{asked, Memory};
use crate::runtime::state::{sent_away, RuntimeControl, RuntimeView};
use crate::stats::{DbStats, StatsState};
use crate::vlog::writer::{ValueLogWriter, WriterView};
use crate::vlog::writer_error::sync_state_view;
use crate::vlog::writer_sync::{settled, unsettled, FrontierSync, SyncView};

verus! {

/// Everything that a commit changes. The caller guards it with a lock of its own.
pub struct CommitCoordinator {
    pub runtime: RuntimeControl,
    pub stats: StatsState,
    pub writer: ValueLogWriter,
    pub state: CommitState,
}

/// What a commit has to do next.
pub enum CommitStep {
    /// Append the envelope.
    Append,
    /// Bring the log to the disk, through the commit.
    Sync,
    /// Hand the batch to the index.
    CommitIndex(IndexCommitMode),
    /// The commit has ended well; the writes with these numbers are sent away.
    Done { cancelled: Vec<u64> },
    /// The commit has failed; the writes with these numbers are sent away.
    Failed { error: StorageError, cancelled: Vec<u64> },
}

/// The statistics after the progress of a commit was reported.
pub open spec fn reported(stats: DbStats, state: CommitState, writer: WriterView) -> DbStats {
    DbStats {
        head_seq: state.head_seq,
        durable_seq: state.durable_frontier.durable_seq,
        durability_lag: (state.head_seq - state.durable_frontier.durable_seq) as u64,
        durable_vlog_end: match state.durable_frontier.durable_vlog_end {
            DurableVLogEnd::Empty => None,
            DurableVLogEnd::Position(end) => Some(
                crate::stats::VLogPosition { file_id: end.file_id, offset: end.offset },
            ),
        },
        active_vlog_file_id: active_file(writer),
        vlog_file_count: file_count(writer),
        vlog_logical_bytes: logical_bytes(writer),
        ..stats
    }
}

/// What a frontier that was settled does to the writer and the instance. A frontier that the
/// writer does not know poisons the instance.
pub open spec fn frontier_settled(
    writer: WriterView,
    runtime: RuntimeView,
    synced: Option<FrontierSync>,
    operation: Operation,
) -> (WriterView, RuntimeView) {
    match synced {
        None => (writer, runtime),
        Some(synced) => if writer.pending_sync_id == Some(synced@.id) {
            (settled(writer, synced@), runtime)
        } else {
            (
                writer,
                runtime.latched(
                    InstanceState::Poisoned,
                    unsettled_view(synced@, operation),
                ),
            )
        },
    }
}

/// The error of a frontier that the writer does not know.
pub open spec fn unsettled_view(synced: SyncView, operation: Operation) -> ErrorView {
    ErrorView {
        operation,
        instance_state: Some(InstanceState::Poisoned),
        retry_advice: RetryAdvice::ReopenAndVerify,
        ..sync_state_view(synced.target_seq, synced.target_end)
    }
}

/// The log was brought to the disk through a frontier.
pub open spec fn reaches_frontier(synced: Option<FrontierSync>, frontier: DurableFrontier) -> bool {
    synced matches Some(synced) && synced@.target_seq == frontier.durable_seq && synced@.target_end
        == (match frontier.durable_vlog_end {
        DurableVLogEnd::Empty => None,
        DurableVLogEnd::Position(end) => Some(end),
    })
}

/// Whether the log was brought to the disk through a frontier.
pub fn is_synced_through(synced: &Option<FrontierSync>, frontier: DurableFrontier) -> (reached:
    bool)
    ensures
        reached == reaches_frontier(*synced, frontier),
{
    match synced {
        Some(synced) => synced.target_seq() == frontier.durable_seq && match (
            synced.target_end(),
            frontier.durable_vlog_end,
        ) {
            (None, DurableVLogEnd::Empty) => true,
            (Some(end), DurableVLogEnd::Position(wanted)) => end == wanted,
            _ => false,
        },
        None => false,
    }
}

/// The writer after the index did not take a frontier.
pub open spec fn frontier_dropped(writer: WriterView, synced: Option<FrontierSync>) -> WriterView {
    match synced {
        None => writer,
        Some(synced) => if writer.pending_sync_id == Some(synced@.id) {
            unsettled(writer)
        } else {
            writer
        },
    }
}

impl CommitRun {
    /// The log was brought to the disk through the commit exactly where that was asked for.
    pub open spec fn log_ready(self, synced: Option<FrontierSync>) -> bool {
        if self.sync {
            reaches_frontier(synced, self.frontier())
        } else {
            synced is None
        }
    }

    /// Whether the log is as the commit asks for.
    pub fn is_log_ready(&self, synced: &Option<FrontierSync>) -> (ready: bool)
        ensures
            ready == self.log_ready(*synced),
    {
        if self.sync {
            is_synced_through(
                synced,
                DurableFrontier {
                    durable_seq: self.commit_seq,
                    durable_vlog_end: DurableVLogEnd::Position(self.vlog_end),
                },
            )
        } else {
            synced.is_none()
        }
    }
}

impl CommitCoordinator {
    /// A commit failed: only the state of the instance changes, as the failure demands.
    pub open spec fn failed(
        before: CommitCoordinator,
        after: CommitCoordinator,
        step: CommitStep,
        error: ErrorView,
        requested: Option<InstanceState>,
        identity: Option<(CommitSeq, [u8; 16])>,
    ) -> bool {
        let (runtime, told) = write_failed_at(before.runtime@, error, requested, identity);
        &&& after.runtime@ == runtime
        &&& after.writer@ == before.writer@
        &&& after.state == before.state
        &&& after.stats@ == reported(before.stats@, before.state, before.writer@)
        &&& step matches CommitStep::Failed { error: given, cancelled } && {
            &&& given@ == told
            &&& cancelled@ == sent_away(before.runtime@, runtime)
        }
    }

    fn fail(
        &mut self,
        error: StorageError,
        requested: Option<InstanceState>,
        identity: Option<(CommitSeq, [u8; 16])>,
    ) -> (step: CommitStep)
        requires
            old(self).state.valid(),
        ensures
            CommitCoordinator::failed(
                *old(self),
                *final(self),
                step,
                error@,
                requested,
                identity,
            ),
    {
        let (told, cancelled) = fail_started(&mut self.runtime, error, requested, identity);
        self.state.publish_stats(&self.writer, &mut self.stats);
        CommitStep::Failed { error: told, cancelled }
    }

    /// Takes a commit that was prepared, or why it could not be.
    pub fn prepared(
        &mut self,
        memory: &mut Memory,
        prepared: &mut PreparedCommit,
        operation: Operation,
    ) -> (begun: (Option<CommitRun>, CommitStep))
        requires
            !old(memory).refused(),
            old(self).state.valid(),
            old(prepared).commit_seq != 0,
            old(prepared).vlog_end.valid(),
        ensures
            final(self).state.valid(),
            final(memory).refused() ==> {
                &&& begun.0 is None
                &&& CommitCoordinator::failed(
                    *old(self),
                    *final(self),
                    begun.1,
                    write_memory_view(operation),
                    None,
                    None,
                )
                &&& final(prepared).envelope == old(prepared).envelope
                &&& final(prepared)@ == old(prepared)@
            },
            !final(memory).refused() ==> {
                &&& *final(self) == *old(self)
                &&& begun.1 is Append
                &&& begun.0 matches Some(run) && {
                    &&& run == (CommitRun {
                        operation,
                        sync: old(prepared).sync,
                        commit_seq: old(prepared).commit_seq,
                        tx_uuid: old(prepared).tx_uuid,
                        vlog_end: old(prepared).vlog_end,
                        stage: CommitStage::Append,
                    })
                    &&& final(prepared).envelope == old(prepared).envelope
                    &&& final(prepared)@ == (PreparedView {
                        index_batch: if run.sync {
                            old(prepared)@.index_batch.push(frontier_change(run.frontier()))
                        } else {
                            old(prepared)@.index_batch
                        },
                        ..old(prepared)@
                    })
                }
            },
            if old(prepared).sync {
                asked(
                    *old(memory),
                    *final(memory),
                    3,
                    most_for_frontier(
                        old(prepared)@.index_batch,
                        DurableFrontier {
                            durable_seq: old(prepared).commit_seq,
                            durable_vlog_end: DurableVLogEnd::Position(old(prepared).vlog_end),
                        },
                    ),
                )
            } else {
                *final(memory) == *old(memory)
            },
    {
        match CommitRun::begin(memory, prepared, operation) {
            Ok(run) => (Some(run), CommitStep::Append),
            Err(error) => (None, self.fail(error, None, None)),
        }
    }

    /// A commit could not be prepared: nothing is in the log, and nothing in the index.
    pub fn not_prepared(&mut self, error: StorageError) -> (step: CommitStep)
        requires
            old(self).state.valid(),
        ensures
            CommitCoordinator::failed(*old(self), *final(self), step, error@, None, None),
    {
        self.fail(error, None, None)
    }

    /// The envelope is in the log, or is not.
    pub fn append_ended(&mut self, run: &mut CommitRun, outcome: Result<()>) -> (step: CommitStep)
        requires
            old(self).state.valid(),
            old(run).stage == CommitStage::Append,
        ensures
            final(self).state.valid(),
            match outcome {
                Ok(_) => {
                    &&& *final(self) == *old(self)
                    &&& *final(run) == (CommitRun { stage: old(run).next_stage(), ..*old(run) })
                    &&& step == (if old(run).sync {
                        CommitStep::Sync
                    } else {
                        CommitStep::CommitIndex(IndexCommitMode::Buffer)
                    })
                },
                Err(failure) => {
                    let seen = ErrorView { operation: old(run).operation, ..failure@ };
                    &&& *final(run) == *old(run)
                    &&& CommitCoordinator::failed(
                        *old(self),
                        *final(self),
                        step,
                        seen,
                        Some(append_failure_state(seen, old(self).writer@.append_failed)),
                        Some((old(run).commit_seq, old(run).tx_uuid)),
                    )
                },
            },
    {
        match outcome {
            Ok(_) => {
                run.advance();
                if run.sync {
                    CommitStep::Sync
                } else {
                    CommitStep::CommitIndex(IndexCommitMode::Buffer)
                }
            },
            Err(error) => {
                let seen = remap_writer_operation(error, run.operation);
                let stopped = self.writer.has_terminal_failure();
                let target = classify_vlog_append_failure(&seen, stopped);
                self.fail(seen, Some(target), Some((run.commit_seq, run.tx_uuid)))
            },
        }
    }

    /// The log is on the disk, or is not. Where it is not, nobody knows what is.
    pub fn sync_ended(&mut self, run: &mut CommitRun, outcome: Result<()>) -> (step: CommitStep)
        requires
            old(self).state.valid(),
            old(run).stage == CommitStage::Sync,
            old(run).sync,
        ensures
            final(self).state.valid(),
            match outcome {
                Ok(_) => {
                    &&& *final(self) == *old(self)
                    &&& *final(run) == (CommitRun { stage: CommitStage::CommitIndex, ..*old(run) })
                    &&& step == CommitStep::CommitIndex(IndexCommitMode::SyncAll)
                },
                Err(failure) => {
                    &&& *final(run) == *old(run)
                    &&& CommitCoordinator::failed(
                        *old(self),
                        *final(self),
                        step,
                        ErrorView { operation: old(run).operation, ..failure@ },
                        Some(InstanceState::Poisoned),
                        Some((old(run).commit_seq, old(run).tx_uuid)),
                    )
                },
            },
    {
        match outcome {
            Ok(_) => {
                run.advance();
                CommitStep::CommitIndex(IndexCommitMode::SyncAll)
            },
            Err(error) => {
                let seen = remap_writer_operation(error, run.operation);
                self.fail(
                    seen,
                    Some(InstanceState::Poisoned),
                    Some((run.commit_seq, run.tx_uuid)),
                )
            },
        }
    }

    fn settle_frontier(&mut self, synced: Option<FrontierSync>, operation: Operation) -> (cancelled:
        Vec<u64>)
        ensures
            ({
                let (writer, runtime) = frontier_settled(
                    old(self).writer@,
                    old(self).runtime@,
                    synced,
                    operation,
                );
                &&& final(self).writer@ == writer && final(self).runtime@ == runtime
                &&& cancelled@ == sent_away(old(self).runtime@, runtime)
            }),
            final(self).state == old(self).state,
            final(self).stats@ == old(self).stats@,
    {
        match synced {
            None => Vec::new(),
            Some(frontier) => match self.writer.frontier_succeeded(frontier) {
                Ok(_) => Vec::new(),
                Err(error) => {
                    let seen = unsettled_frontier_error(error, operation);
                    self.runtime.latch_failure(InstanceState::Poisoned, &seen).1
                },
            },
        }
    }

    fn drop_frontier(&mut self, synced: Option<FrontierSync>)
        ensures
            final(self).writer@ == frontier_dropped(old(self).writer@, synced),
            final(self).runtime == old(self).runtime,
            final(self).state == old(self).state,
            final(self).stats == old(self).stats,
    {
        match synced {
            None => {},
            Some(frontier) => {
                let _ = self.writer.frontier_failed(frontier);
            },
        }
    }

    /// The index took the batch, or did not. Only where it did is the commit there. The log was
    /// brought to the disk through the commit exactly where that was asked for.
    pub fn index_ended(
        &mut self,
        run: &mut CommitRun,
        synced: Option<FrontierSync>,
        outcome: std::result::Result<(), IndexCommitError>,
    ) -> (step: CommitStep)
        requires
            old(self).state.valid(),
            old(run).stage == CommitStage::CommitIndex,
            old(run).commit_seq == old(self).state.head_seq + 1,
            old(run).vlog_end.valid(),
            old(run).log_ready(synced),
        ensures
            final(self).state.valid(),
            match outcome {
                Ok(_) => {
                    let (writer, runtime) = frontier_settled(
                        old(self).writer@,
                        old(self).runtime@,
                        synced,
                        old(run).operation,
                    );
                    &&& step matches CommitStep::Done { cancelled } && cancelled@ == sent_away(
                        old(self).runtime@,
                        runtime,
                    )
                    &&& *final(run) == (CommitRun { stage: CommitStage::Committed, ..*old(run) })
                    &&& final(self).writer@ == writer && final(self).runtime@ == runtime
                    &&& final(self).state == (CommitState {
                        head_seq: old(run).commit_seq,
                        head_vlog_end: DurableVLogEnd::Position(old(run).vlog_end),
                        durable_frontier: if old(run).sync {
                            old(run).frontier()
                        } else {
                            old(self).state.durable_frontier
                        },
                    })
                    &&& final(self).stats@ == reported(
                        old(self).stats@,
                        final(self).state,
                        final(self).writer@,
                    )
                },
                Err(failure) => {
                    let (runtime, told) = write_failed_at(
                        old(self).runtime@,
                        index_failure_view(
                            failure,
                            old(run).operation,
                            ProtocolStage::IndexCommit,
                            Some((old(run).commit_seq, old(run).tx_uuid)),
                        ),
                        Some(index_failure(failure).1),
                        None,
                    );
                    &&& *final(run) == *old(run)
                    &&& step matches CommitStep::Failed { error, cancelled } && error@ == told
                        && cancelled@ == sent_away(old(self).runtime@, runtime)
                    &&& final(self).writer@ == frontier_dropped(old(self).writer@, synced)
                    &&& final(self).runtime@ == runtime
                    &&& final(self).state == old(self).state
                    &&& final(self).stats@ == reported(
                        old(self).stats@,
                        old(self).state,
                        final(self).writer@,
                    )
                },
            },
    {
        match outcome {
            Ok(_) => {
                let cancelled = self.settle_frontier(synced, run.operation);
                self.state.publish_commit(run);
                self.state.publish_stats(&self.writer, &mut self.stats);
                run.advance();
                CommitStep::Done { cancelled }
            },
            Err(failure) => {
                self.drop_frontier(synced);
                let (error, target) = map_index_commit_error(
                    failure,
                    run.operation,
                    ProtocolStage::IndexCommit,
                    Some((run.commit_seq, run.tx_uuid)),
                );
                self.fail(error, Some(target), None)
            },
        }
    }

    /// Begins a barrier: everything that was committed is to be durable. `None` where it is.
    pub fn begin_barrier(&mut self, memory: &mut Memory) -> (begun: std::result::Result<
        Option<(DurableFrontier, IndexAtomicBatch)>,
        CommitStep,
    >)
        requires
            !old(memory).refused(),
            old(self).state.valid(),
        ensures
            final(self).state.valid(),
            final(memory).refused() ==> (begun matches Err(step) && CommitCoordinator::failed(
                *old(self),
                *final(self),
                step,
                write_memory_view(Operation::WriteBatch),
                None,
                None,
            )),
            !final(memory).refused() ==> {
                let state = old(self).state;
                &&& *final(self) == *old(self)
                &&& if state.head_seq == state.durable_frontier.durable_seq {
                    begun matches Ok(None)
                } else {
                    begun matches Ok(Some(barrier)) && {
                        &&& barrier.0 == (DurableFrontier {
                            durable_seq: state.head_seq,
                            durable_vlog_end: state.head_vlog_end,
                        })
                        &&& barrier.1@ == seq![frontier_change(barrier.0)]
                    }
                }
            },
            ({
                let state = old(self).state;
                if state.head_seq == state.durable_frontier.durable_seq {
                    *final(memory) == *old(memory)
                } else {
                    asked(
                        *old(memory),
                        *final(memory),
                        4,
                        most_for_frontier(
                            Seq::empty(),
                            DurableFrontier {
                                durable_seq: state.head_seq,
                                durable_vlog_end: state.head_vlog_end,
                            },
                        ),
                    )
                }
            }),
    {
        let frontier = match self.state.barrier() {
            Some(frontier) => frontier,
            None => return Ok(None),
        };
        match frontier_only_batch(memory, frontier, Operation::WriteBatch) {
            Ok(batch) => Ok(Some((frontier, batch))),
            Err(error) => Err(self.fail(error, None, None)),
        }
    }

    /// The log could not be brought to the disk for a barrier.
    pub fn barrier_not_synced(&mut self, error: StorageError) -> (step: CommitStep)
        requires
            old(self).state.valid(),
        ensures
            CommitCoordinator::failed(
                *old(self),
                *final(self),
                step,
                ErrorView { operation: Operation::WriteBatch, ..error@ },
                Some(InstanceState::Poisoned),
                None,
            ),
    {
        let seen = remap_writer_operation(error, Operation::WriteBatch);
        self.fail(seen, Some(InstanceState::Poisoned), None)
    }

    /// The log is on the disk for a barrier. Where someone else reached the frontier in the
    /// meantime, the barrier has ended.
    pub fn barrier_synced(&mut self, frontier: DurableFrontier, synced: FrontierSync) -> (next: (
        CommitStep,
        Option<FrontierSync>,
    ))
        requires
            old(self).state.valid(),
        ensures
            final(self).state == old(self).state,
            if old(self).state.durable_frontier.durable_seq >= frontier.durable_seq {
                let (writer, runtime) = frontier_settled(
                    old(self).writer@,
                    old(self).runtime@,
                    Some(synced),
                    Operation::WriteBatch,
                );
                &&& next.0 matches CommitStep::Done { cancelled } && cancelled@ == sent_away(
                    old(self).runtime@,
                    runtime,
                )
                &&& next.1 is None
                &&& final(self).writer@ == writer && final(self).runtime@ == runtime
                &&& final(self).stats@ == old(self).stats@
            } else {
                &&& next.0 == CommitStep::CommitIndex(IndexCommitMode::SyncAll)
                &&& next.1 == Some(synced)
                &&& *final(self) == *old(self)
            },
    {
        if self.state.is_reached(frontier) {
            let cancelled = self.settle_frontier(Some(synced), Operation::WriteBatch);
            (CommitStep::Done { cancelled }, None)
        } else {
            (CommitStep::CommitIndex(IndexCommitMode::SyncAll), Some(synced))
        }
    }

    /// The index took the frontier of a barrier, or did not.
    pub fn barrier_ended(
        &mut self,
        frontier: DurableFrontier,
        synced: Option<FrontierSync>,
        outcome: std::result::Result<(), IndexCommitError>,
    ) -> (step: CommitStep)
        requires
            old(self).state.valid(),
            frontier.valid(),
            frontier.durable_seq <= old(self).state.head_seq,
            reaches_frontier(synced, frontier),
        ensures
            final(self).state.valid(),
            match outcome {
                Ok(_) => {
                    let (writer, runtime) = frontier_settled(
                        old(self).writer@,
                        old(self).runtime@,
                        synced,
                        Operation::WriteBatch,
                    );
                    &&& step matches CommitStep::Done { cancelled } && cancelled@ == sent_away(
                        old(self).runtime@,
                        runtime,
                    )
                    &&& final(self).writer@ == writer && final(self).runtime@ == runtime
                    &&& final(self).state == (CommitState {
                        durable_frontier: frontier,
                        ..old(self).state
                    })
                    &&& final(self).stats@ == reported(
                        old(self).stats@,
                        final(self).state,
                        final(self).writer@,
                    )
                },
                Err(failure) => {
                    let (runtime, told) = write_failed_at(
                        old(self).runtime@,
                        index_failure_view(
                            failure,
                            Operation::WriteBatch,
                            ProtocolStage::DurableFrontier,
                            None,
                        ),
                        Some(index_failure(failure).1),
                        None,
                    );
                    &&& step matches CommitStep::Failed { error, cancelled } && error@ == told
                        && cancelled@ == sent_away(old(self).runtime@, runtime)
                    &&& final(self).writer@ == frontier_dropped(old(self).writer@, synced)
                    &&& final(self).runtime@ == runtime
                    &&& final(self).state == old(self).state
                    &&& final(self).stats@ == reported(
                        old(self).stats@,
                        old(self).state,
                        final(self).writer@,
                    )
                },
            },
    {
        match outcome {
            Ok(_) => {
                let cancelled = self.settle_frontier(synced, Operation::WriteBatch);
                self.state.publish_barrier(frontier);
                self.state.publish_stats(&self.writer, &mut self.stats);
                CommitStep::Done { cancelled }
            },
            Err(failure) => {
                self.drop_frontier(synced);
                let (error, target) = map_index_commit_error(
                    failure,
                    Operation::WriteBatch,
                    ProtocolStage::DurableFrontier,
                    None,
                );
                self.fail(error, Some(target), None)
            },
        }
    }
}

/// What is reported of a commit is how far the commits have come, and how far of that would
/// survive a crash: the lag is the number of commits in between. The state of the instance is
/// not touched.
pub proof fn law_report_shows_progress(stats: DbStats, state: CommitState, writer: WriterView)
    requires
        state.valid(),
    ensures
        ({
            let shown = reported(stats, state, writer);
            &&& shown.well_formed()
            &&& shown.head_seq == state.head_seq
            &&& shown.durable_seq == state.durable_frontier.durable_seq
            &&& shown.durability_lag + shown.durable_seq == shown.head_seq
            &&& shown.durable_vlog_end is None <==> shown.durable_seq == 0
            &&& shown.durable_vlog_end matches Some(end)
                ==> state.durable_frontier.durable_vlog_end matches DurableVLogEnd::Position(at)
                && at.file_id == end.file_id && at.offset == end.offset
            &&& shown.active_vlog_file_id == active_file(writer)
            &&& shown.vlog_file_count == file_count(writer)
            &&& shown.vlog_logical_bytes == logical_bytes(writer)
            &&& shown.instance_state == stats.instance_state
            &&& shown.state_epoch == stats.state_epoch
            &&& shown.first_latched_error == stats.first_latched_error
            &&& shown.schema_version == stats.schema_version
        }),
{
}

/// A commit goes to the index behind a log that was brought to the disk through that very commit
/// where it has to be durable, and behind one that was not asked to be where it has not.
pub proof fn law_log_is_ready_for_its_commit(run: CommitRun, synced: Option<FrontierSync>)
    ensures
        run.log_ready(synced) <==> if run.sync {
            synced is Some && synced->0@.target_seq == run.commit_seq && synced->0@.target_end
                == Some(run.vlog_end)
        } else {
            synced is None
        },
        run.frontier().durable_seq == run.commit_seq,
        run.frontier().durable_vlog_end == DurableVLogEnd::Position(run.vlog_end),
{
}

/// A frontier that the writer waits for is settled without a change to the instance, and the
/// writer goes on where it stood, with nothing left to bring to the disk of what was listed. One
/// that it does not wait for changes nothing at the writer and poisons the instance.
pub proof fn law_frontier_is_settled_once(
    writer: WriterView,
    runtime: RuntimeView,
    synced: FrontierSync,
    operation: Operation,
)
    requires
        runtime.valid(),
        writer.pending_sync_id is Some,
    ensures
        ({
            let (after, state) = frontier_settled(writer, runtime, Some(synced), operation);
            let awaited = writer.pending_sync_id == Some(synced@.id);
            let (again, later) = frontier_settled(after, state, Some(synced), operation);
            &&& frontier_settled(writer, runtime, None, operation) == (writer, runtime)
            &&& awaited ==> {
                &&& state == runtime
                &&& after.pending_sync_id is None
                &&& after.append_failed == writer.append_failed
                &&& after.state == writer.state
                &&& after.last_appended == writer.last_appended
                &&& after.next_sync_id == writer.next_sync_id
                &&& forall|file_id: u32| #[trigger]
                    after.dirty_files.contains(file_id) <==> writer.dirty_files.contains(file_id)
                        && !synced@.files.contains(file_id)
                &&& forall|file_id: u32| #[trigger]
                    after.pending_directory_entries.dom().contains(file_id)
                        <==> writer.pending_directory_entries.dom().contains(file_id)
                        && !synced@.directory_entries.contains(file_id)
                &&& again == after
                &&& later.state.instance_state == InstanceState::Poisoned
            }
            &&& !awaited ==> after == writer && state.state.instance_state
                == InstanceState::Poisoned
        }),
{
}

/// A writer whose frontier the index did not take is not written to any more, and waits no
/// longer.
pub proof fn law_dropped_frontier_stops_writer(writer: WriterView, synced: FrontierSync)
    ensures
        ({
            let after = frontier_dropped(writer, Some(synced));
            &&& frontier_dropped(writer, None) == writer
            &&& writer.pending_sync_id == Some(synced@.id) ==> after.append_failed
                && after.pending_sync_id is None && after.dirty_files == writer.dirty_files
                && after.pending_directory_entries == writer.pending_directory_entries
                && after.state == writer.state && after.last_appended == writer.last_appended
            &&& writer.pending_sync_id != Some(synced@.id) ==> after == writer
        }),
{
}

} // verus!
