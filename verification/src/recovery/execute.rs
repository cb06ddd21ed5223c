//! Carrying a recovery out, one action after the other.
//!
//! Every action is written to the index before the next one begins, so that a recovery that is
//! cut short goes on where it stopped.

use vstd::prelude::*;

use crate::bytes::le_bytes;
use crate::commit::metadata::{
    check_identity, identity_refusal, metadata_decode_view, CommitSeq, DurableFrontier,
    DurableVLogEnd, RecoveryPhase, RecoveryState,
};
use crate::error::Result;
use crate::index::batch::{
    durable_frontier_key, durable_frontier_name, head_seq_key, lemma_system_keys_differ,
    recovery_state_key, recovery_state_name, ChangeView, IndexAtomicBatch, IndexMutation,
    InternalIndexSpace,
};
use crate::memory::{asked, Memory};
use crate::recovery::descriptors::{law_loaded_heads_are_valid, loaded, UnstableView};
use crate::recovery::plan::{
    accepted_commit, phase_allows, recovery_plan, search_limit, state_agrees, PlanView,
    RecoveryPlan,
};
use crate::recovery::topology::{
    tail_matches, PhysicalTail, RecoveryTopology, VLogInventoryEntry,
};
use crate::recovery::undo::{most_for_state, push_head, push_recovery, push_recovery_state};
use crate::recovery::{
    index_batch_context, recovery_context, recovery_corruption, recovery_corruption_view,
    recovery_resource, recovery_resource_view, seen_by_recovery,
};

verus! {

/// What a recovery has to do next.
#[derive(Clone, Copy, Debug, PartialEq, Eq, Structural)]
pub enum RecoveryAction {
    /// Write down that a recovery was begun.
    WriteState(RecoveryState),
    /// Undo a transaction, and write down the next state with it.
    Undo { commit_seq: CommitSeq, next_state: RecoveryState },
    /// Bring the accepted part of the log to the disk.
    SyncAccepted { from: DurableVLogEnd, to: DurableVLogEnd },
    /// Read the last accepted envelope again.
    CheckBoundary,
    /// Write down the new head and frontier, and the next state where there is one.
    MoveFrontier { frontier: DurableFrontier, next_state: Option<RecoveryState> },
    /// Cut the log off behind an end.
    Trim { end: DurableVLogEnd },
    /// Write down that the recovery has ended.
    DeleteState,
    /// Look at everything once more.
    Verify { head_seq: CommitSeq, frontier: DurableFrontier },
    Finished,
}

/// Where a recovery is.
#[derive(Clone, Copy, Debug, PartialEq, Eq, Structural)]
pub enum RecoveryStage {
    Begin,
    Undoing,
    Checking,
    Moving,
    Cutting,
    Deleting,
    Verifying,
    Finished,
}

/// A recovery on its way.
#[derive(Clone, Copy, Debug, PartialEq, Eq, Structural)]
pub struct RecoveryRun {
    pub stage: RecoveryStage,
    pub head_seq: CommitSeq,
    pub frontier: DurableFrontier,
    pub state: Option<RecoveryState>,
    pub accepted: DurableFrontier,
    pub needs_undo: bool,
    pub needs_promote: bool,
    pub needs_trim: bool,
}

/// The state with which a recovery begins.
pub open spec fn first_state(run: RecoveryRun) -> RecoveryState {
    RecoveryState {
        phase: RecoveryPhase::Undo,
        original_head: run.head_seq,
        target_seq: run.accepted.durable_seq,
        target_vlog_end: run.accepted.durable_vlog_end,
        next_undo_seq: run.head_seq,
        trim_required: run.needs_trim,
    }
}

/// The state behind an undo that is done.
pub open spec fn state_after_undo(state: RecoveryState) -> RecoveryState {
    RecoveryState {
        phase: if state.trim_required {
            RecoveryPhase::Trim
        } else {
            RecoveryPhase::Finalize
        },
        next_undo_seq: state.target_seq,
        ..state
    }
}

impl RecoveryRun {
    /// The plan makes sense, and a state that was found belongs to it.
    pub open spec fn valid(self) -> bool {
        &&& self.accepted.valid()
        &&& self.frontier.valid()
        &&& self.accepted.durable_seq <= self.head_seq
        &&& self.needs_promote == (self.accepted.durable_seq > self.frontier.durable_seq)
            || self.stage != RecoveryStage::Begin
        &&& self.state matches Some(state) ==> {
            &&& state.valid()
            &&& state.target_seq == self.accepted.durable_seq
            &&& state.target_vlog_end == self.accepted.durable_vlog_end
            &&& state.phase == RecoveryPhase::Undo ==> self.head_seq == state.next_undo_seq
        }
        &&& match self.stage {
            RecoveryStage::Undoing => self.state matches Some(state) && state.phase
                == RecoveryPhase::Undo,
            RecoveryStage::Checking | RecoveryStage::Moving => {
                self.state matches Some(state) ==> state.phase == RecoveryPhase::Undo
                    && state.next_undo_seq == state.target_seq
            },
            RecoveryStage::Cutting => self.state matches Some(state) && state.phase
                == RecoveryPhase::Trim,
            RecoveryStage::Deleting => self.state is Some,
            RecoveryStage::Verifying | RecoveryStage::Finished => self.state is None,
            RecoveryStage::Begin => true,
        }
    }

    /// What is due.
    pub open spec fn due(self) -> RecoveryAction {
        match self.stage {
            RecoveryStage::Begin => match self.state {
                None => if self.needs_undo || self.needs_trim {
                    RecoveryAction::WriteState(first_state(self))
                } else if self.needs_promote {
                    self.sync_due()
                } else {
                    self.verify_due()
                },
                Some(state) => match state.phase {
                    RecoveryPhase::Undo => self.undo_due(state),
                    RecoveryPhase::Trim => self.trim_due(),
                    RecoveryPhase::Finalize => RecoveryAction::DeleteState,
                },
            },
            RecoveryStage::Undoing => self.undo_due(self.state->0),
            RecoveryStage::Checking => RecoveryAction::CheckBoundary,
            RecoveryStage::Moving => RecoveryAction::MoveFrontier {
                frontier: self.accepted,
                next_state: match self.state {
                    Some(state) => Some(state_after_undo(state)),
                    None => None,
                },
            },
            RecoveryStage::Cutting => self.trim_due(),
            RecoveryStage::Deleting => RecoveryAction::DeleteState,
            RecoveryStage::Verifying => self.verify_due(),
            RecoveryStage::Finished => RecoveryAction::Finished,
        }
    }

    pub open spec fn sync_due(self) -> RecoveryAction {
        RecoveryAction::SyncAccepted {
            from: self.frontier.durable_vlog_end,
            to: self.accepted.durable_vlog_end,
        }
    }

    pub open spec fn trim_due(self) -> RecoveryAction {
        RecoveryAction::Trim { end: self.accepted.durable_vlog_end }
    }

    pub open spec fn verify_due(self) -> RecoveryAction {
        RecoveryAction::Verify { head_seq: self.head_seq, frontier: self.frontier }
    }

    pub open spec fn undo_due(self, state: RecoveryState) -> RecoveryAction {
        if state.next_undo_seq > state.target_seq {
            RecoveryAction::Undo {
                commit_seq: state.next_undo_seq,
                next_state: RecoveryState {
                    next_undo_seq: (state.next_undo_seq - 1) as u64,
                    ..state
                },
            }
        } else {
            self.sync_due()
        }
    }

    /// The recovery after what was due is done.
    pub open spec fn after(self) -> RecoveryRun {
        match self.due() {
            RecoveryAction::WriteState(state) => RecoveryRun {
                stage: RecoveryStage::Undoing,
                state: Some(state),
                ..self
            },
            RecoveryAction::Undo { commit_seq, next_state } => RecoveryRun {
                stage: RecoveryStage::Undoing,
                head_seq: next_state.next_undo_seq,
                state: Some(next_state),
                ..self
            },
            RecoveryAction::SyncAccepted { .. } => RecoveryRun {
                stage: RecoveryStage::Checking,
                ..self
            },
            RecoveryAction::CheckBoundary => RecoveryRun { stage: RecoveryStage::Moving, ..self },
            RecoveryAction::MoveFrontier { frontier, next_state } => RecoveryRun {
                stage: match next_state {
                    Some(state) => if state.phase == RecoveryPhase::Trim {
                        RecoveryStage::Cutting
                    } else {
                        RecoveryStage::Deleting
                    },
                    None => RecoveryStage::Verifying,
                },
                head_seq: frontier.durable_seq,
                frontier,
                state: next_state,
                ..self
            },
            RecoveryAction::Trim { .. } => RecoveryRun { stage: RecoveryStage::Deleting, ..self },
            RecoveryAction::DeleteState => RecoveryRun {
                stage: RecoveryStage::Verifying,
                state: None,
                ..self
            },
            RecoveryAction::Verify { .. } => RecoveryRun {
                stage: RecoveryStage::Finished,
                ..self
            },
            RecoveryAction::Finished => self,
        }
    }

    /// How much there is left to do.
    pub open spec fn remaining(self) -> nat {
        let stages: nat = match self.stage {
            RecoveryStage::Begin => 9,
            RecoveryStage::Undoing => 8,
            RecoveryStage::Checking => 6,
            RecoveryStage::Moving => 5,
            RecoveryStage::Cutting => 4,
            RecoveryStage::Deleting => 3,
            RecoveryStage::Verifying => 2,
            RecoveryStage::Finished => 0,
        };
        let undos = match self.state {
            Some(state) => state.next_undo_seq as nat,
            None => if self.stage == RecoveryStage::Begin {
                self.head_seq as nat
            } else {
                0
            },
        };
        stages + undos
    }

    /// The run with which a plan is begun.
    pub open spec fn begun(plan: PlanView) -> RecoveryRun {
        RecoveryRun {
            stage: RecoveryStage::Begin,
            head_seq: plan.head_seq,
            frontier: plan.durable_frontier,
            state: plan.recovery_state,
            accepted: DurableFrontier {
                durable_seq: plan.accepted_seq,
                durable_vlog_end: plan.accepted_end,
            },
            needs_undo: plan.needs_undo,
            needs_promote: plan.needs_promote,
            needs_trim: plan.needs_trim,
        }
    }

    pub fn begin(plan: &RecoveryPlan) -> (run: Self)
        ensures
            run == RecoveryRun::begun(plan@),
    {
        RecoveryRun {
            stage: RecoveryStage::Begin,
            head_seq: plan.head_seq,
            frontier: plan.durable_frontier,
            state: plan.recovery_state,
            accepted: DurableFrontier {
                durable_seq: plan.accepted_seq,
                durable_vlog_end: plan.accepted_end,
            },
            needs_undo: plan.needs_undo,
            needs_promote: plan.needs_promote,
            needs_trim: plan.needs_trim,
        }
    }

    /// Whether a run that has not done anything yet makes sense.
    pub fn can_begin(&self) -> (valid: bool)
        requires
            self.stage == RecoveryStage::Begin,
        ensures
            valid == self.valid(),
    {
        let belongs = match self.state {
            Some(state) => state.is_valid() && state.target_seq == self.accepted.durable_seq
                && state.target_vlog_end == self.accepted.durable_vlog_end && (state.phase
                != RecoveryPhase::Undo || self.head_seq == state.next_undo_seq),
            None => true,
        };
        belongs && self.accepted.is_valid() && self.frontier.is_valid()
            && self.accepted.durable_seq <= self.head_seq && self.needs_promote == (
        self.accepted.durable_seq > self.frontier.durable_seq)
    }

    fn undo_next(&self, state: RecoveryState) -> (action: RecoveryAction)
        ensures
            action == self.undo_due(state),
    {
        if state.next_undo_seq > state.target_seq {
            let next_state = RecoveryState {
                phase: state.phase,
                original_head: state.original_head,
                target_seq: state.target_seq,
                target_vlog_end: state.target_vlog_end,
                next_undo_seq: state.next_undo_seq - 1,
                trim_required: state.trim_required,
            };
            RecoveryAction::Undo { commit_seq: state.next_undo_seq, next_state }
        } else {
            RecoveryAction::SyncAccepted {
                from: self.frontier.durable_vlog_end,
                to: self.accepted.durable_vlog_end,
            }
        }
    }

    /// What is to be done next.
    pub fn next(&self) -> (action: RecoveryAction)
        requires
            self.valid(),
        ensures
            action == self.due(),
    {
        match self.stage {
            RecoveryStage::Begin => match self.state {
                None => if self.needs_undo || self.needs_trim {
                    RecoveryAction::WriteState(
                        RecoveryState {
                            phase: RecoveryPhase::Undo,
                            original_head: self.head_seq,
                            target_seq: self.accepted.durable_seq,
                            target_vlog_end: self.accepted.durable_vlog_end,
                            next_undo_seq: self.head_seq,
                            trim_required: self.needs_trim,
                        },
                    )
                } else if self.needs_promote {
                    RecoveryAction::SyncAccepted {
                        from: self.frontier.durable_vlog_end,
                        to: self.accepted.durable_vlog_end,
                    }
                } else {
                    RecoveryAction::Verify { head_seq: self.head_seq, frontier: self.frontier }
                },
                Some(state) => match state.phase {
                    RecoveryPhase::Undo => self.undo_next(state),
                    RecoveryPhase::Trim => RecoveryAction::Trim {
                        end: self.accepted.durable_vlog_end,
                    },
                    RecoveryPhase::Finalize => RecoveryAction::DeleteState,
                },
            },
            RecoveryStage::Undoing => match self.state {
                Some(state) => self.undo_next(state),
                None => RecoveryAction::Finished,
            },
            RecoveryStage::Checking => RecoveryAction::CheckBoundary,
            RecoveryStage::Moving => {
                let next_state = match self.state {
                    Some(state) => Some(
                        RecoveryState {
                            phase: if state.trim_required {
                                RecoveryPhase::Trim
                            } else {
                                RecoveryPhase::Finalize
                            },
                            original_head: state.original_head,
                            target_seq: state.target_seq,
                            target_vlog_end: state.target_vlog_end,
                            next_undo_seq: state.target_seq,
                            trim_required: state.trim_required,
                        },
                    ),
                    None => None,
                };
                RecoveryAction::MoveFrontier { frontier: self.accepted, next_state }
            },
            RecoveryStage::Cutting => RecoveryAction::Trim {
                end: self.accepted.durable_vlog_end,
            },
            RecoveryStage::Deleting => RecoveryAction::DeleteState,
            RecoveryStage::Verifying => RecoveryAction::Verify {
                head_seq: self.head_seq,
                frontier: self.frontier,
            },
            RecoveryStage::Finished => RecoveryAction::Finished,
        }
    }

    /// What was due is done.
    pub fn done(&mut self)
        requires
            old(self).valid(),
        ensures
            *final(self) == old(self).after(),
            final(self).valid(),
    {
        match self.next() {
            RecoveryAction::WriteState(state) => {
                self.stage = RecoveryStage::Undoing;
                self.state = Some(state);
            },
            RecoveryAction::Undo { next_state, .. } => {
                self.stage = RecoveryStage::Undoing;
                self.head_seq = next_state.next_undo_seq;
                self.state = Some(next_state);
            },
            RecoveryAction::SyncAccepted { .. } => {
                self.stage = RecoveryStage::Checking;
            },
            RecoveryAction::CheckBoundary => {
                self.stage = RecoveryStage::Moving;
            },
            RecoveryAction::MoveFrontier { frontier, next_state } => {
                self.stage = match next_state {
                    Some(state) => if state.phase == RecoveryPhase::Trim {
                        RecoveryStage::Cutting
                    } else {
                        RecoveryStage::Deleting
                    },
                    None => RecoveryStage::Verifying,
                };
                self.head_seq = frontier.durable_seq;
                self.frontier = frontier;
                self.state = next_state;
            },
            RecoveryAction::Trim { .. } => {
                self.stage = RecoveryStage::Deleting;
            },
            RecoveryAction::DeleteState => {
                self.stage = RecoveryStage::Verifying;
                self.state = None;
            },
            RecoveryAction::Verify { .. } => {
                self.stage = RecoveryStage::Finished;
            },
            RecoveryAction::Finished => {},
        }
    }
}

/// A run that is begun with a plan makes sense, where the plan was made from what the index says
/// and from the transactions that were loaded behind the durable ones.
pub proof fn law_planned_run_is_valid(
    frontier: DurableFrontier,
    head_seq: CommitSeq,
    accepted: nat,
    unstable: UnstableView,
    state: Option<RecoveryState>,
    files: Seq<VLogInventoryEntry>,
    tail: PhysicalTail,
)
    requires
        frontier.valid(),
        state matches Some(begun) ==> begun.valid() && state_agrees(begun, frontier, head_seq),
        unstable.durable_seq == frontier.durable_seq,
        unstable.durable_seq + unstable.groups.len() <= u64::MAX,
        loaded(unstable, frontier.durable_vlog_end) is Ok,
        recovery_plan(
            frontier,
            head_seq,
            accepted_commit(frontier, state, accepted),
            loaded(unstable, frontier.durable_vlog_end)->Ok_0,
            state,
            files,
            tail,
        ) is Some,
    ensures
        RecoveryRun::begun(
            recovery_plan(
                frontier,
                head_seq,
                accepted_commit(frontier, state, accepted),
                loaded(unstable, frontier.durable_vlog_end)->Ok_0,
                state,
                files,
                tail,
            )->0,
        ).valid(),
        is_planned(
            RecoveryRun::begun(
                recovery_plan(
                    frontier,
                    head_seq,
                    accepted_commit(frontier, state, accepted),
                    loaded(unstable, frontier.durable_vlog_end)->Ok_0,
                    state,
                    files,
                    tail,
                )->0,
            ),
        ),
{
    let accepted_seq = accepted_commit(frontier, state, accepted);
    if accepted_seq > frontier.durable_seq {
        law_loaded_heads_are_valid(
            unstable,
            frontier.durable_vlog_end,
            accepted_seq - frontier.durable_seq - 1,
        );
    }
}

/// A recovery ends: each action leaves less to do.
pub proof fn law_recovery_ends(run: RecoveryRun)
    requires
        run.valid(),
        run.stage != RecoveryStage::Finished,
    ensures
        run.after().valid(),
        run.after().remaining() < run.remaining(),
{
}

/// A recovery that has anything to do ends with the accepted commit as head and as frontier:
/// wherever it stops, the frontier is the old one or the accepted one, and where it is looked
/// at for the last time, after a move, head and frontier are the accepted ones.
pub proof fn law_recovery_reaches_accepted_commit(run: RecoveryRun)
    requires
        run.valid(),
    ensures
        run.after().frontier == run.frontier || run.after().frontier == run.accepted,
        run.after().accepted == run.accepted,
        run.due() is MoveFrontier ==> run.after().frontier == run.accepted && run.after().head_seq
            == run.accepted.durable_seq,
        run.due() is Undo ==> run.after().head_seq == run.head_seq - 1,
        run.due() is Undo ==> run.after().head_seq >= run.accepted.durable_seq,
{
}

/// A run as a plan makes it: the accepted commit is not before the frontier, and is the frontier
/// where it has its number; without a state there is something to undo exactly where the head is
/// behind the accepted commit; and where everything was undone before, head and frontier are the
/// accepted ones already.
pub open spec fn is_planned(run: RecoveryRun) -> bool {
    &&& run.stage == RecoveryStage::Begin
    &&& run.frontier.durable_seq <= run.accepted.durable_seq
    &&& run.frontier.durable_seq == run.accepted.durable_seq ==> run.frontier == run.accepted
    &&& match run.state {
        None => run.needs_undo == (run.accepted.durable_seq < run.head_seq),
        Some(state) => state.phase != RecoveryPhase::Undo ==> run.head_seq
            == run.accepted.durable_seq && run.frontier == run.accepted,
    }
}

/// The run after so many of its actions.
pub open spec fn carried_out(run: RecoveryRun, steps: nat) -> RecoveryRun
    decreases steps,
{
    if steps == 0 {
        run
    } else {
        carried_out(run.after(), (steps - 1) as nat)
    }
}

/// The first so many actions of a run, in their order.
pub open spec fn actions_of(run: RecoveryRun, steps: nat) -> Seq<RecoveryAction>
    decreases steps,
{
    if steps == 0 {
        Seq::empty()
    } else {
        seq![run.due()] + actions_of(run.after(), (steps - 1) as nat)
    }
}

/// The undoing of every commit from the head of an undo down to the one behind its target.
pub open spec fn undo_actions(state: RecoveryState) -> Seq<RecoveryAction> {
    Seq::new(
        (state.next_undo_seq - state.target_seq) as nat,
        |i: int|
            RecoveryAction::Undo {
                commit_seq: (state.next_undo_seq - i) as u64,
                next_state: RecoveryState {
                    next_undo_seq: (state.next_undo_seq - i - 1) as u64,
                    ..state
                },
            },
    )
}

/// The actions of an undo that was written down, from its head to the end of the recovery.
pub open spec fn actions_from_undo(
    state: RecoveryState,
    frontier: DurableFrontier,
    accepted: DurableFrontier,
) -> Seq<RecoveryAction> {
    let undone = RecoveryState { next_undo_seq: state.target_seq, ..state };
    let to_disk = RecoveryAction::SyncAccepted {
        from: frontier.durable_vlog_end,
        to: accepted.durable_vlog_end,
    };
    let verify = RecoveryAction::Verify { head_seq: accepted.durable_seq, frontier: accepted };
    undo_actions(state) + seq![to_disk, RecoveryAction::CheckBoundary] + if state.trim_required {
        seq![
            RecoveryAction::MoveFrontier {
                frontier: accepted,
                next_state: Some(RecoveryState { phase: RecoveryPhase::Trim, ..undone }),
            },
            RecoveryAction::Trim { end: accepted.durable_vlog_end },
            RecoveryAction::DeleteState,
            verify,
        ]
    } else {
        seq![
            RecoveryAction::MoveFrontier {
                frontier: accepted,
                next_state: Some(RecoveryState { phase: RecoveryPhase::Finalize, ..undone }),
            },
            RecoveryAction::DeleteState,
            verify,
        ]
    }
}

/// What a recovery has to do from its beginning to its end. Where commits are given up or the
/// log is cut off, that is written down first. Where the accepted commit is ahead of the
/// frontier, the log is brought to the disk up to it and looked at again, and head and frontier
/// move to it. Everything is looked at last.
pub open spec fn actions_wanted(run: RecoveryRun) -> Seq<RecoveryAction> {
    let accepted = run.accepted;
    let verify = RecoveryAction::Verify { head_seq: accepted.durable_seq, frontier: accepted };
    match run.state {
        None => if run.accepted.durable_seq < run.head_seq || run.needs_trim {
            let begun = RecoveryState {
                phase: RecoveryPhase::Undo,
                original_head: run.head_seq,
                target_seq: accepted.durable_seq,
                target_vlog_end: accepted.durable_vlog_end,
                next_undo_seq: run.head_seq,
                trim_required: run.needs_trim,
            };
            seq![RecoveryAction::WriteState(begun)] + actions_from_undo(
                begun,
                run.frontier,
                accepted,
            )
        } else if run.frontier.durable_seq < accepted.durable_seq {
            seq![
                RecoveryAction::SyncAccepted {
                    from: run.frontier.durable_vlog_end,
                    to: accepted.durable_vlog_end,
                },
                RecoveryAction::CheckBoundary,
                RecoveryAction::MoveFrontier { frontier: accepted, next_state: None },
                verify,
            ]
        } else {
            seq![verify]
        },
        Some(state) => match state.phase {
            RecoveryPhase::Undo => actions_from_undo(state, run.frontier, accepted),
            RecoveryPhase::Trim => seq![
                RecoveryAction::Trim { end: accepted.durable_vlog_end },
                RecoveryAction::DeleteState,
                verify,
            ],
            RecoveryPhase::Finalize => seq![RecoveryAction::DeleteState, verify],
        },
    }
}

proof fn lemma_actions_compose(run: RecoveryRun, first: nat, second: nat)
    ensures
        carried_out(run, first + second) == carried_out(carried_out(run, first), second),
        actions_of(run, first + second) == actions_of(run, first) + actions_of(
            carried_out(run, first),
            second,
        ),
    decreases first,
{
    if first == 0 {
        assert(actions_of(run, second) =~= actions_of(run, 0) + actions_of(run, second));
    } else {
        let rest = (first - 1) as nat;
        lemma_actions_compose(run.after(), rest, second);
        assert(first + second - 1 == rest + second);
        assert(actions_of(run, first + second) =~= actions_of(run, first) + actions_of(
            carried_out(run, first),
            second,
        ));
    }
}

proof fn lemma_undos(run: RecoveryRun)
    requires
        run.valid(),
        run.stage == RecoveryStage::Undoing || run.stage == RecoveryStage::Begin,
        run.state matches Some(state) && state.phase == RecoveryPhase::Undo,
    ensures
        ({
            let state = run.state->0;
            let count = (state.next_undo_seq - state.target_seq) as nat;
            let after = carried_out(run, count);
            &&& actions_of(run, count) == undo_actions(state)
            &&& after.valid()
            &&& after == (RecoveryRun {
                stage: after.stage,
                head_seq: state.target_seq,
                state: Some(RecoveryState { next_undo_seq: state.target_seq, ..state }),
                ..run
            })
            &&& after.stage == RecoveryStage::Undoing || after.stage == RecoveryStage::Begin
        }),
    decreases run.state->0.next_undo_seq,
{
    let state = run.state->0;
    if state.next_undo_seq > state.target_seq {
        let next = run.after();
        lemma_undos(next);
        let rest = (state.next_undo_seq - 1 - state.target_seq) as nat;
        assert(undo_actions(state) =~= seq![run.due()] + undo_actions(next.state->0));
        assert(rest + 1 == (state.next_undo_seq - state.target_seq) as nat);
    } else {
        assert(actions_of(run, 0) =~= undo_actions(state));
    }
}

/// What follows an undo that is done.
proof fn lemma_undone(run: RecoveryRun)
    requires
        run.valid(),
        run.stage == RecoveryStage::Undoing || run.stage == RecoveryStage::Begin,
        run.state matches Some(state) && state.phase == RecoveryPhase::Undo
            && state.next_undo_seq == state.target_seq,
    ensures
        ({
            let wanted = actions_from_undo(run.state->0, run.frontier, run.accepted);
            let after = carried_out(run, wanted.len());
            &&& actions_of(run, wanted.len()) == wanted
            &&& after.stage == RecoveryStage::Finished
            &&& after.frontier == run.accepted && after.head_seq == run.accepted.durable_seq
            &&& after.state is None
        }),
{
    let state = run.state->0;
    let wanted = actions_from_undo(state, run.frontier, run.accepted);
    assert(undo_actions(state) =~= Seq::empty());
    let checking = run.after();
    let moving = checking.after();
    let moved = moving.after();
    let deleting = if state.trim_required {
        moved.after()
    } else {
        moved
    };
    let verifying = deleting.after();
    let finished = verifying.after();
    assert(run.due() == wanted[0] && checking.stage == RecoveryStage::Checking);
    assert(checking.due() == wanted[1] && moving.stage == RecoveryStage::Moving);
    assert(moving.due() == wanted[2]);
    assert(deleting.stage == RecoveryStage::Deleting);
    assert(verifying.stage == RecoveryStage::Verifying);
    assert(finished.stage == RecoveryStage::Finished);
    assert(actions_of(finished, 0) =~= Seq::empty() && carried_out(finished, 0) == finished);
    assert(actions_of(verifying, 1) =~= seq![verifying.due()] && carried_out(verifying, 1)
        == finished);
    assert(actions_of(deleting, 2) =~= seq![deleting.due(), verifying.due()] && carried_out(
        deleting,
        2,
    ) == finished);
    let left: nat = if state.trim_required {
        3
    } else {
        2
    };
    assert(actions_of(moved, left) =~= wanted.skip(3) && carried_out(moved, left) == finished);
    assert(actions_of(moving, left + 1) =~= seq![moving.due()] + wanted.skip(3) && carried_out(
        moving,
        left + 1,
    ) == finished);
    assert(actions_of(checking, left + 2) =~= wanted.skip(1) && carried_out(checking, left + 2)
        == finished);
    assert(actions_of(run, left + 3) =~= wanted && carried_out(run, left + 3) == finished);
}

proof fn lemma_from_undo(run: RecoveryRun)
    requires
        run.valid(),
        run.stage == RecoveryStage::Undoing || run.stage == RecoveryStage::Begin,
        run.state matches Some(state) && state.phase == RecoveryPhase::Undo,
    ensures
        ({
            let wanted = actions_from_undo(run.state->0, run.frontier, run.accepted);
            let after = carried_out(run, wanted.len());
            &&& actions_of(run, wanted.len()) == wanted
            &&& after.stage == RecoveryStage::Finished
            &&& after.frontier == run.accepted && after.head_seq == run.accepted.durable_seq
            &&& after.state is None
        }),
{
    let state = run.state->0;
    let wanted = actions_from_undo(state, run.frontier, run.accepted);
    let undos = undo_actions(state);
    let tail = wanted.skip(undos.len() as int);
    lemma_undos(run);
    let undone = carried_out(run, undos.len());
    lemma_undone(undone);
    lemma_actions_compose(run, undos.len(), tail.len());
    assert(wanted =~= undos + tail);
}

/// A recovery that is carried out does what it has to do, in the right order and nothing else:
/// every commit behind the accepted one is undone, from the head down, each once; the log is on
/// the disk up to the accepted commit, and its last envelope was read again, before head and
/// frontier move there; the log is cut off only afterwards. In the end head and frontier are the
/// accepted ones, whichever of undoing, promotion and cutting off it took.
pub proof fn law_recovery_ends_at_accepted_commit(run: RecoveryRun)
    requires
        run.valid(),
        is_planned(run),
    ensures
        ({
            let wanted = actions_wanted(run);
            let after = carried_out(run, wanted.len());
            &&& actions_of(run, wanted.len()) == wanted
            &&& after.stage == RecoveryStage::Finished
            &&& after.frontier == run.accepted
            &&& after.head_seq == run.accepted.durable_seq
            &&& after.state is None
        }),
{
    let wanted = actions_wanted(run);
    reveal_with_fuel(actions_of, 6);
    reveal_with_fuel(carried_out, 6);
    match run.state {
        None => if run.accepted.durable_seq < run.head_seq || run.needs_trim {
            lemma_from_undo(run.after());
            assert(wanted =~= seq![run.due()] + wanted.skip(1));
            assert(wanted.skip(1) =~= actions_from_undo(
                run.after().state->0,
                run.frontier,
                run.accepted,
            ));
        } else {
            assert(actions_of(run, wanted.len()) =~= wanted);
        },
        Some(state) => if state.phase == RecoveryPhase::Undo {
            lemma_from_undo(run);
        } else {
            assert(actions_of(run, wanted.len()) =~= wanted);
        },
    }
}

/// However far a recovery is carried out, once it has finished head and frontier are the accepted
/// ones; and it does finish.
pub proof fn law_finished_recovery_is_at_accepted_commit(run: RecoveryRun, steps: nat)
    requires
        run.valid(),
        is_planned(run),
    ensures
        carried_out(run, steps).stage == RecoveryStage::Finished ==> {
            &&& carried_out(run, steps).frontier == run.accepted
            &&& carried_out(run, steps).head_seq == run.accepted.durable_seq
        },
        steps >= actions_wanted(run).len() ==> carried_out(run, steps).stage
            == RecoveryStage::Finished,
{
    let count = actions_wanted(run).len();
    law_recovery_ends_at_accepted_commit(run);
    if steps >= count {
        lemma_finished_stays(carried_out(run, count), (steps - count) as nat);
        lemma_actions_compose(run, count, (steps - count) as nat);
    } else if carried_out(run, steps).stage == RecoveryStage::Finished {
        lemma_finished_stays(carried_out(run, steps), (count - steps) as nat);
        lemma_actions_compose(run, steps, (count - steps) as nat);
    }
}

proof fn lemma_finished_stays(run: RecoveryRun, steps: nat)
    requires
        run.stage == RecoveryStage::Finished,
    ensures
        carried_out(run, steps) == run,
    decreases steps,
{
    if steps > 0 {
        assert(run.after() == run);
        lemma_finished_stays(run, (steps - 1) as nat);
    }
}

/// An unsynced commit that is whole becomes durable: a run whose accepted commit is ahead of its
/// frontier brings the log to the disk up to the accepted end, reads its last envelope again and
/// then moves the frontier, before it looks at everything once more.
pub proof fn law_accepted_commits_become_durable(run: RecoveryRun)
    requires
        run.valid(),
        is_planned(run),
        run.frontier.durable_seq < run.accepted.durable_seq,
    ensures
        ({
            let done = actions_of(run, actions_wanted(run).len());
            exists|at: int|
                0 <= at && at + 3 < done.len() && #[trigger] done[at] == (
                RecoveryAction::SyncAccepted {
                    from: run.frontier.durable_vlog_end,
                    to: run.accepted.durable_vlog_end,
                }) && done[at + 1] is CheckBoundary && (done[at + 2] matches
                    RecoveryAction::MoveFrontier { frontier, .. } && frontier == run.accepted)
                    && done.last() == (RecoveryAction::Verify {
                    head_seq: run.accepted.durable_seq,
                    frontier: run.accepted,
                })
        }),
{
    law_recovery_ends_at_accepted_commit(run);
    let done = actions_wanted(run);
    let at = match run.state {
        None => if run.accepted.durable_seq < run.head_seq || run.needs_trim {
            1 + (run.head_seq - run.accepted.durable_seq)
        } else {
            0int
        },
        Some(state) => state.next_undo_seq - state.target_seq,
    };
    assert(done[at] is SyncAccepted);
    assert(done[at + 1] is CheckBoundary);
    assert(done[at + 2] is MoveFrontier);
}

fn copy_name(memory: &mut Memory, name: &[u8]) -> (result: Result<Vec<u8>>)
    requires
        !old(memory).refused(),
    ensures
        match result {
            Ok(copy) => !final(memory).refused() && copy@ == name@,
            Err(error) => final(memory).refused() && error@ == recovery_resource_view(),
        },
        asked(*old(memory), *final(memory), 1, name@.len()),
{
    match memory.copy(name) {
        Some(copy) => Ok(copy),
        None => Err(recovery_resource()),
    }
}

/// Makes the batch that writes down the state of a recovery.
pub fn recovery_state_batch(memory: &mut Memory, state: RecoveryState) -> (result: Result<
    IndexAtomicBatch,
>)
    requires
        !old(memory).refused(),
        state.valid(),
    ensures
        match result {
            Ok(batch) => !final(memory).refused() && batch@ == seq![
                ChangeView::PutInternal {
                    space: InternalIndexSpace::System,
                    key: recovery_state_key(),
                    value: state.encoded(),
                },
            ],
            Err(error) => final(memory).refused() && error@ == recovery_resource_view(),
        },
        asked(*old(memory), *final(memory), 4, most_for_state(0, state)),
{
    let mut batch = match IndexAtomicBatch::try_with_capacity(memory, 1) {
        Ok(batch) => batch,
        Err(error) => return Err(index_batch_context(error)),
    };
    push_recovery_state(memory, &mut batch, state)?;
    proof {
        assert(batch@ =~= seq![
            ChangeView::PutInternal {
                space: InternalIndexSpace::System,
                key: recovery_state_key(),
                value: state.encoded(),
            },
        ]);
    }
    Ok(batch)
}

/// What moving the frontier changes.
pub open spec fn frontier_changes(frontier: DurableFrontier, state: Option<RecoveryState>) -> Seq<
    ChangeView,
> {
    let moved = seq![
        ChangeView::PutInternal {
            space: InternalIndexSpace::System,
            key: head_seq_key(),
            value: le_bytes(frontier.durable_seq as nat, 8),
        },
        ChangeView::PutInternal {
            space: InternalIndexSpace::System,
            key: durable_frontier_key(),
            value: frontier.encoded(),
        },
    ];
    match state {
        Some(state) => moved.push(
            ChangeView::PutInternal {
                space: InternalIndexSpace::System,
                key: recovery_state_key(),
                value: state.encoded(),
            },
        ),
        None => moved,
    }
}

/// The most elements that a list is to have room for when the frontier is moved.
pub open spec fn most_for_move(frontier: DurableFrontier, state: Option<RecoveryState>) -> nat {
    head_seq_key().len() + 8 + durable_frontier_key().len() + frontier.encoded().len() + 3 + (
    match state {
        Some(state) => most_for_state(0, state),
        None => 0,
    })
}

/// Makes the batch that moves head and frontier to the accepted commit.
pub fn target_frontier_batch(
    memory: &mut Memory,
    head_seq: CommitSeq,
    frontier: DurableFrontier,
    state: Option<RecoveryState>,
) -> (result: Result<IndexAtomicBatch>)
    requires
        !old(memory).refused(),
        frontier.valid(),
        state matches Some(begun) ==> begun.valid(),
    ensures
        final(memory).refused() ==> (result matches Err(error) && error@
            == recovery_resource_view()),
        !final(memory).refused() ==> if head_seq != frontier.durable_seq {
            result matches Err(error) && error@ == recovery_corruption_view()
        } else {
            result matches Ok(batch) && batch@ == frontier_changes(frontier, state)
        },
        if head_seq == frontier.durable_seq {
            asked(
                *old(memory),
                *final(memory),
                if state is Some {
                    10
                } else {
                    7
                },
                most_for_move(frontier, state),
            )
        } else {
            *final(memory) == *old(memory)
        },
{
    if head_seq != frontier.durable_seq {
        return Err(recovery_corruption());
    }
    let capacity: usize = if state.is_some() {
        3
    } else {
        2
    };
    let mut batch = match IndexAtomicBatch::try_with_capacity(memory, capacity) {
        Ok(batch) => batch,
        Err(error) => return Err(index_batch_context(error)),
    };
    push_head(memory, &mut batch, head_seq)?;
    let key = copy_name(memory, &durable_frontier_name())?;
    let encoded = match frontier.encode() {
        Ok(encoded) => encoded,
        Err(error) => return Err(recovery_context(error)),
    };
    let value = copy_name(memory, encoded.as_slice())?;
    proof {
        lemma_system_keys_differ();
        crate::bytes::lemma_le_bytes_len(
            crate::checksum::crc32c_of(frontier.body()) as nat,
            4,
        );
        assert(frontier.encoded().len() > 0);
    }
    push_recovery(
        memory,
        &mut batch,
        IndexMutation::PutInternal { space: InternalIndexSpace::System, key, value },
    )?;
    match state {
        Some(begun) => {
            push_recovery_state(memory, &mut batch, begun)?;
        },
        None => {},
    }
    proof {
        assert(batch@ =~= frontier_changes(frontier, state));
    }
    Ok(batch)
}

/// Makes the batch that ends a recovery.
pub fn delete_recovery_state_batch(memory: &mut Memory) -> (result: Result<IndexAtomicBatch>)
    requires
        !old(memory).refused(),
    ensures
        match result {
            Ok(batch) => !final(memory).refused() && batch@ == seq![
                ChangeView::DeleteInternal {
                    space: InternalIndexSpace::System,
                    key: recovery_state_key(),
                },
            ],
            Err(error) => final(memory).refused() && error@ == recovery_resource_view(),
        },
        asked(*old(memory), *final(memory), 3, recovery_state_key().len() + 1),
{
    let mut batch = match IndexAtomicBatch::try_with_capacity(memory, 1) {
        Ok(batch) => batch,
        Err(error) => return Err(index_batch_context(error)),
    };
    let key = copy_name(memory, &recovery_state_name())?;
    proof {
        lemma_system_keys_differ();
    }
    push_recovery(
        memory,
        &mut batch,
        IndexMutation::DeleteInternal { space: InternalIndexSpace::System, key },
    )?;
    proof {
        assert(batch@ =~= seq![
            ChangeView::DeleteInternal {
                space: InternalIndexSpace::System,
                key: recovery_state_key(),
            },
        ]);
    }
    Ok(batch)
}

/// What has to be read again to check where the accepted part of the log ends.
#[derive(Clone, Copy, Debug, PartialEq, Eq, Structural)]
pub enum BoundaryCheck {
    /// The stable envelope in front of the frontier.
    Stable(DurableFrontier),
    /// The envelope of a transaction of the plan.
    Envelope(usize),
}

/// What has to be read again for a plan; `None` where the plan contradicts itself.
pub open spec fn boundary_of(plan: RecoveryPlan) -> Option<BoundaryCheck> {
    if plan.accepted_seq == plan.durable_frontier.durable_seq {
        Some(
            BoundaryCheck::Stable(
                DurableFrontier {
                    durable_seq: plan.accepted_seq,
                    durable_vlog_end: plan.accepted_end,
                },
            ),
        )
    } else {
        let index = plan.accepted_seq - plan.durable_frontier.durable_seq - 1;
        if 0 <= index < plan.descriptors@.len() && plan.descriptors@[index].meta.commit_seq
            == plan.accepted_seq && DurableVLogEnd::Position(plan.descriptors@[index].meta.vlog_end)
            == plan.accepted_end {
            Some(BoundaryCheck::Envelope(index as usize))
        } else {
            None
        }
    }
}

pub fn accepted_boundary(plan: &RecoveryPlan) -> (result: Result<BoundaryCheck>)
    ensures
        match boundary_of(*plan) {
            Some(check) => result matches Ok(found) && found == check,
            None => result matches Err(error) && error@ == recovery_corruption_view(),
        },
{
    let durable_seq: u64 = plan.durable_frontier.durable_seq;
    if plan.accepted_seq == durable_seq {
        return Ok(
            BoundaryCheck::Stable(
                DurableFrontier {
                    durable_seq: plan.accepted_seq,
                    durable_vlog_end: plan.accepted_end,
                },
            ),
        );
    }
    if plan.accepted_seq < durable_seq {
        return Err(recovery_corruption());
    }
    let relative: u64 = plan.accepted_seq - durable_seq - 1;
    let count: usize = plan.descriptors.len();
    if relative >= count as u64 {
        return Err(recovery_corruption());
    }
    let index: usize = relative as usize;
    let meta = &plan.descriptors[index].meta;
    if meta.commit_seq != plan.accepted_seq || DurableVLogEnd::Position(meta.vlog_end)
        != plan.accepted_end {
        return Err(recovery_corruption());
    }
    Ok(BoundaryCheck::Envelope(index))
}

/// Checks what is found in the index and on disk when a recovery has ended.
pub fn verify_final_state(
    expected_head: CommitSeq,
    expected_frontier: DurableFrontier,
    actual_head: CommitSeq,
    actual_frontier: DurableFrontier,
    has_recovery_state: bool,
    topology: &RecoveryTopology,
) -> (result: Result<()>)
    ensures
        ({
            let sound = actual_frontier.valid() && actual_frontier.durable_seq <= actual_head
                && actual_head == expected_head && actual_frontier == expected_frontier
                && !has_recovery_state && tail_matches(
                topology.physical_tail,
                actual_frontier.durable_vlog_end,
            );
            match result {
                Ok(_) => sound,
                Err(error) => !sound && error@ == recovery_corruption_view(),
            }
        }),
{
    match actual_frontier.validate_against_head(actual_head) {
        Ok(_) => {},
        Err(error) => return Err(recovery_context(error)),
    }
    if actual_head != expected_head || actual_frontier != expected_frontier || has_recovery_state
        || !topology.physical_tail_matches(actual_frontier.durable_vlog_end) {
        return Err(recovery_corruption());
    }
    Ok(())
}

/// Checks that what a recovery works on belongs together.
pub fn validate_recovery_bindings(
    same_geometry: bool,
    same_database: bool,
    same_files: bool,
    same_directory: bool,
    current_identity: &[u8],
    planned_identity: &[u8],
    database_format_version: u32,
    database_uuid: &[u8; 16],
) -> (result: Result<()>)
    ensures
        ({
            let bound = same_geometry && same_database && same_files && current_identity@
                == planned_identity@;
            let refusal = identity_refusal(
                current_identity@,
                database_format_version,
                database_uuid@,
            );
            if !bound {
                result matches Err(error) && error@ == recovery_corruption_view()
            } else if refusal is Some {
                result matches Err(error) && error@ == seen_by_recovery(
                    metadata_decode_view(refusal->0),
                )
            } else if !same_directory {
                result matches Err(error) && error@ == recovery_corruption_view()
            } else {
                result is Ok
            }
        }),
{
    if !same_geometry || !same_database || !same_files || !crate::bytes::same_bytes(
        current_identity,
        planned_identity,
    ) {
        return Err(recovery_corruption());
    }
    match check_identity(current_identity, database_format_version, database_uuid) {
        Ok(_) => {},
        Err(error) => return Err(recovery_context(error)),
    }
    if !same_directory {
        return Err(recovery_corruption());
    }
    Ok(())
}

/// What holds of a planned run after any number of its actions: what is written down of it agrees
/// with the index, and allows what it had to cut off.
spec fn on_course(run: RecoveryRun, needs_trim: bool) -> bool {
    &&& run.valid()
    &&& run.needs_trim == needs_trim
    &&& run.frontier.durable_seq <= run.accepted.durable_seq
    &&& run.frontier.durable_seq == run.accepted.durable_seq ==> run.frontier == run.accepted
    &&& run.state matches Some(state) ==> state_agrees(state, run.frontier, run.head_seq)
        && phase_allows(state, needs_trim)
    &&& run.stage == RecoveryStage::Begin ==> is_planned(run)
    &&& run.stage == RecoveryStage::Checking || run.stage == RecoveryStage::Moving ==> run.head_seq
        == run.accepted.durable_seq
    &&& run.stage == RecoveryStage::Cutting || run.stage == RecoveryStage::Deleting ==> (
    run.state matches Some(state) && state.phase != RecoveryPhase::Undo)
}

proof fn lemma_stays_on_course(run: RecoveryRun, needs_trim: bool, steps: nat)
    requires
        on_course(run, needs_trim),
    ensures
        on_course(carried_out(run, steps), needs_trim),
        carried_out(run, steps).accepted == run.accepted,
    decreases steps,
{
    if steps > 0 {
        assert(on_course(run.after(), needs_trim));
        lemma_stays_on_course(run.after(), needs_trim, (steps - 1) as nat);
    }
}

/// The run with which a recovery that was cut short is taken up again, from what was written
/// down of it and from what there is to cut off now.
pub open spec fn taken_up(run: RecoveryRun, needs_trim: bool) -> RecoveryRun {
    RecoveryRun {
        stage: RecoveryStage::Begin,
        needs_undo: run.state matches Some(state) && state.phase == RecoveryPhase::Undo
            && run.head_seq > state.target_seq,
        needs_promote: run.accepted.durable_seq > run.frontier.durable_seq,
        needs_trim,
        ..run
    }
}

/// A recovery may be cut short anywhere. Once it has written down that it was begun, what it left
/// in the index agrees with itself, allows whatever is left to cut off, names the same commit to
/// keep and asks for the envelopes up to it; a run that takes it up is planned like the first
/// one, and ends at the same commit.
pub proof fn law_recovery_cut_short_goes_on(
    run: RecoveryRun,
    steps: nat,
    needs_trim: bool,
    count: nat,
)
    requires
        run.valid(),
        is_planned(run),
        run.state matches Some(state) ==> state_agrees(state, run.frontier, run.head_seq)
            && phase_allows(state, run.needs_trim),
        carried_out(run, steps).state is Some,
        needs_trim ==> run.needs_trim,
        run.accepted.durable_seq - run.frontier.durable_seq <= count,
    ensures
        ({
            let left = carried_out(run, steps);
            let state = left.state->0;
            let again = taken_up(left, needs_trim);
            &&& state.valid()
            &&& state.target_seq == run.accepted.durable_seq
            &&& state.target_vlog_end == run.accepted.durable_vlog_end
            &&& state_agrees(state, left.frontier, left.head_seq)
            &&& phase_allows(state, needs_trim)
            &&& accepted_commit(left.frontier, Some(state), 0) == run.accepted.durable_seq
            &&& state.phase == RecoveryPhase::Undo ==> search_limit(
                left.frontier,
                Some(state),
                count,
            ) == Some((run.accepted.durable_seq - left.frontier.durable_seq) as nat)
            &&& state.phase != RecoveryPhase::Undo ==> search_limit(
                left.frontier,
                Some(state),
                count,
            ) == Some(0nat)
            &&& again.valid()
            &&& is_planned(again)
            &&& carried_out(again, actions_wanted(again).len()).frontier == run.accepted
            &&& carried_out(again, actions_wanted(again).len()).head_seq
                == run.accepted.durable_seq
            &&& carried_out(again, actions_wanted(again).len()).state is None
        }),
{
    lemma_stays_on_course(run, run.needs_trim, steps);
    let left = carried_out(run, steps);
    lemma_frontier_bounds(run, steps);
    law_recovery_ends_at_accepted_commit(taken_up(left, needs_trim));
}

proof fn lemma_frontier_bounds(run: RecoveryRun, steps: nat)
    requires
        run.valid(),
        run.frontier.durable_seq <= run.accepted.durable_seq,
    ensures
        carried_out(run, steps).frontier == run.frontier || carried_out(run, steps).frontier
            == run.accepted,
    decreases steps,
{
    if steps > 0 {
        lemma_frontier_bounds(run.after(), (steps - 1) as nat);
    }
}

} // verus!
