//! Deciding how far a database is kept: which transactions are wholly in the log, and what has
//! to be undone, made durable or cut off.

use vstd::prelude::*;

use crate::bytes::same_bytes;
use crate::commit::descriptor::{DescriptorView, TransactionDescriptor, ValueState};
use crate::commit::metadata::{
    CommitSeq, DurableFrontier, DurableVLogEnd, RecoveryPhase, RecoveryState,
};
use crate::error::{ErrorView, Result, StorageErrorKind};
use crate::recovery::descriptors::descriptor_views;
use crate::recovery::topology::{
    goes_beyond, reaches, ManagedInventory, PhysicalTail, RecoveryTopology, VLogInventoryEntry,
};
use crate::recovery::{
    recovery_context, recovery_corruption, recovery_corruption_view, seen_by_recovery,
};
use crate::vlog::geometry::VLogPosition;
use crate::vlog::header::same_uuid;
use crate::vlog::scan::ScannedEnvelope;

verus! {

/// The state in which an envelope leaves a key.
#[derive(Debug)]
pub struct EnvelopeFinalState {
    pub user_key: Vec<u8>,
    pub state: ValueState,
}

/// An envelope that was read back, with the states in which it leaves its keys.
#[derive(Debug)]
pub struct RecoveryEnvelope {
    pub scanned: ScannedEnvelope,
    pub final_states: Vec<EnvelopeFinalState>,
}

/// An envelope is the one that a transaction recorded.
pub open spec fn envelope_agrees(envelope: RecoveryEnvelope, descriptor: DescriptorView) -> bool {
    let scanned = envelope.scanned;
    let states = envelope.final_states@;
    &&& scanned.commit_seq == descriptor.meta.commit_seq
    &&& scanned.tx_uuid@ == descriptor.meta.tx_uuid
    &&& scanned.vlog_begin == descriptor.meta.vlog_begin
    &&& scanned.vlog_end == descriptor.meta.vlog_end
    &&& scanned.logical_op_count == descriptor.meta.logical_op_count
    &&& scanned.distinct_key_count == descriptor.meta.distinct_key_count
    &&& scanned.envelope_crc32c == descriptor.meta.envelope_crc32c
    &&& states.len() == descriptor.mutations.len()
    &&& forall|i: int|
        0 <= i < states.len() ==> (#[trigger] states[i]).user_key@
            == descriptor.mutations[i].user_key && states[i].state
            == descriptor.mutations[i].after_state
}

pub fn validate_envelope_against_descriptor(
    envelope: &RecoveryEnvelope,
    descriptor: &TransactionDescriptor,
) -> (result: Result<()>)
    ensures
        match result {
            Ok(_) => envelope_agrees(*envelope, descriptor@),
            Err(error) => !envelope_agrees(*envelope, descriptor@) && error@
                == recovery_corruption_view(),
        },
{
    let scanned = &envelope.scanned;
    let meta = &descriptor.meta;
    if scanned.commit_seq != meta.commit_seq || !same_uuid(&scanned.tx_uuid, &meta.tx_uuid)
        || scanned.vlog_begin != meta.vlog_begin || scanned.vlog_end != meta.vlog_end
        || scanned.logical_op_count != meta.logical_op_count || scanned.distinct_key_count
        != meta.distinct_key_count || scanned.envelope_crc32c != meta.envelope_crc32c
        || envelope.final_states.len() != descriptor.mutations.len() {
        return Err(recovery_corruption());
    }
    let mut i: usize = 0;
    while i < envelope.final_states.len()
        invariant
            i <= envelope.final_states@.len(),
            envelope.final_states@.len() == descriptor.mutations@.len(),
            forall|k: int|
                0 <= k < i ==> (#[trigger] envelope.final_states@[k]).user_key@
                    == descriptor@.mutations[k].user_key && envelope.final_states@[k].state
                    == descriptor@.mutations[k].after_state,
        decreases envelope.final_states@.len() - i,
    {
        let actual = &envelope.final_states[i];
        let expected = &descriptor.mutations[i];
        proof {
            assert(descriptor@.mutations[i as int] == expected@);
            assert(envelope.final_states@[i as int] == *actual);
        }
        if !same_bytes(actual.user_key.as_slice(), expected.user_key.as_slice()) || actual.state
            != expected.after_state {
            return Err(recovery_corruption());
        }
        i = i + 1;
    }
    Ok(())
}

/// Errors that say that an envelope is not, or not wholly, in the log.
pub open spec fn is_rejectable(kind: StorageErrorKind) -> bool {
    kind == StorageErrorKind::Corruption || kind == StorageErrorKind::InvalidLayout || kind
        == StorageErrorKind::IncompatibleFormat
}

fn is_rejectable_envelope_error(kind: StorageErrorKind) -> (rejectable: bool)
    ensures
        rejectable == is_rejectable(kind),
{
    kind == StorageErrorKind::Corruption || kind == StorageErrorKind::InvalidLayout || kind
        == StorageErrorKind::IncompatibleFormat
}

/// The error that reading an envelope ends with, if any.
pub open spec fn envelope_failure(read: Result<RecoveryEnvelope>, descriptor: DescriptorView) -> Option<
    ErrorView,
> {
    match read {
        Err(error) => Some(error@),
        Ok(envelope) => if envelope_agrees(envelope, descriptor) {
            None
        } else {
            Some(recovery_corruption_view())
        },
    }
}

fn check_envelope(read: Result<RecoveryEnvelope>, descriptor: &TransactionDescriptor) -> (result: Result<
    (),
>)
    ensures
        match envelope_failure(read, descriptor@) {
            None => result is Ok,
            Some(failure) => result matches Err(error) && error@ == failure,
        },
{
    match read {
        Ok(envelope) => validate_envelope_against_descriptor(&envelope, descriptor),
        Err(error) => Err(error),
    }
}

/// The stable end of the log is checked by the envelope in front of it.
pub fn stable_end_to_read(frontier: DurableFrontier) -> (result: Result<Option<VLogPosition>>)
    ensures
        match frontier.durable_vlog_end {
            DurableVLogEnd::Empty => if frontier.durable_seq == 0 {
                result matches Ok(end) && end is None
            } else {
                result matches Err(error) && error@ == recovery_corruption_view()
            },
            DurableVLogEnd::Position(position) => if frontier.durable_seq != 0 {
                result matches Ok(end) && end == Some(position)
            } else {
                result matches Err(error) && error@ == recovery_corruption_view()
            },
        },
{
    match frontier.durable_vlog_end {
        DurableVLogEnd::Empty => if frontier.durable_seq == 0 {
            Ok(None)
        } else {
            Err(recovery_corruption())
        },
        DurableVLogEnd::Position(position) => if frontier.durable_seq != 0 {
            Ok(Some(position))
        } else {
            Err(recovery_corruption())
        },
    }
}

/// Checks the envelope in front of the stable end.
pub fn check_stable_envelope(
    frontier: DurableFrontier,
    end: VLogPosition,
    read: Result<ScannedEnvelope>,
) -> (result: Result<()>)
    ensures
        match read {
            Err(failure) => result matches Err(error) && error@ == seen_by_recovery(failure@),
            Ok(scanned) => if scanned.commit_seq == frontier.durable_seq && scanned.vlog_end
                == end {
                result is Ok
            } else {
                result matches Err(error) && error@ == recovery_corruption_view()
            },
        },
{
    let scanned = match read {
        Ok(scanned) => scanned,
        Err(error) => return Err(recovery_context(error)),
    };
    if scanned.commit_seq != frontier.durable_seq || scanned.vlog_end != end {
        return Err(recovery_corruption());
    }
    Ok(())
}

/// A recovery that was begun agrees with what the index says now.
pub open spec fn state_agrees(state: RecoveryState, frontier: DurableFrontier, head_seq: CommitSeq) -> bool {
    &&& state.target_seq >= frontier.durable_seq
    &&& match state.phase {
        RecoveryPhase::Undo => head_seq == state.next_undo_seq,
        RecoveryPhase::Trim | RecoveryPhase::Finalize => head_seq == state.target_seq
            && frontier.durable_seq == state.target_seq && frontier.durable_vlog_end
            == state.target_vlog_end && state.next_undo_seq == state.target_seq,
    }
}

fn validate_recovery_state_against_current(
    state: RecoveryState,
    frontier: DurableFrontier,
    head_seq: CommitSeq,
) -> (result: Result<()>)
    ensures
        match result {
            Ok(_) => state_agrees(state, frontier, head_seq),
            Err(error) => !state_agrees(state, frontier, head_seq) && error@
                == recovery_corruption_view(),
        },
{
    if state.target_seq < frontier.durable_seq {
        return Err(recovery_corruption());
    }
    let agrees = match state.phase {
        RecoveryPhase::Undo => head_seq == state.next_undo_seq,
        RecoveryPhase::Trim | RecoveryPhase::Finalize => head_seq == state.target_seq
            && frontier.durable_seq == state.target_seq && frontier.durable_vlog_end
            == state.target_vlog_end && state.next_undo_seq == state.target_seq,
    };
    if agrees {
        Ok(())
    } else {
        Err(recovery_corruption())
    }
}

/// How far the transactions behind the durable ones are wholly in the log. Each envelope is
/// read in turn; the first one that is not there ends the search. A target that was fixed
/// before has to be reached.
#[derive(Clone, Copy, Debug, PartialEq, Eq, Structural)]
pub struct TargetSearch {
    pub limit: usize,
    pub accepted: usize,
    pub stopped: bool,
    pub fixed: bool,
}

/// How many envelopes are to be looked at.
pub open spec fn search_limit(
    frontier: DurableFrontier,
    state: Option<RecoveryState>,
    count: nat,
) -> Option<nat> {
    match state {
        None => Some(count),
        Some(state) => if state.phase == RecoveryPhase::Undo && state.target_seq
            > frontier.durable_seq {
            if state.target_seq - frontier.durable_seq <= count {
                Some((state.target_seq - frontier.durable_seq) as nat)
            } else {
                None
            }
        } else {
            Some(0)
        },
    }
}

impl TargetSearch {
    pub fn begin(
        frontier: DurableFrontier,
        head_seq: CommitSeq,
        state: Option<RecoveryState>,
        descriptors: &Vec<TransactionDescriptor>,
    ) -> (result: Result<Self>)
        ensures
            ({
                let agrees = state matches Some(begun) ==> state_agrees(begun, frontier, head_seq);
                match search_limit(frontier, state, descriptors@.len()) {
                    Some(limit) if agrees => result matches Ok(search) && search == (TargetSearch {
                        limit: limit as usize,
                        accepted: 0,
                        stopped: false,
                        fixed: state is Some,
                    }),
                    _ => result matches Err(error) && error@ == recovery_corruption_view(),
                }
            }),
    {
        let count: usize = descriptors.len();
        let (limit, fixed) = match state {
            None => (count, false),
            Some(begun) => {
                validate_recovery_state_against_current(begun, frontier, head_seq)?;
                if begun.phase == RecoveryPhase::Undo && begun.target_seq > frontier.durable_seq {
                    let wanted: u64 = begun.target_seq - frontier.durable_seq;
                    if wanted > count as u64 {
                        return Err(recovery_corruption());
                    }
                    (wanted as usize, true)
                } else {
                    (0, true)
                }
            },
        };
        Ok(TargetSearch { limit, accepted: 0, stopped: false, fixed })
    }

    /// The transaction whose envelope is to be read next.
    pub fn next(&self) -> (next: Option<usize>)
        ensures
            next == (if self.stopped || self.accepted >= self.limit {
                None
            } else {
                Some(self.accepted)
            }),
    {
        if self.stopped || self.accepted >= self.limit {
            None
        } else {
            Some(self.accepted)
        }
    }

    /// Takes what came of reading the envelope of the next transaction.
    pub fn envelope_read(
        &mut self,
        descriptors: &Vec<TransactionDescriptor>,
        read: Result<RecoveryEnvelope>,
    ) -> (result: Result<()>)
        requires
            old(self).accepted < old(self).limit <= descriptors@.len(),
        ensures
            match envelope_failure(read, descriptors@[old(self).accepted as int]@) {
                None => {
                    &&& result is Ok
                    &&& *final(self) == (TargetSearch {
                        accepted: (old(self).accepted + 1) as usize,
                        ..*old(self)
                    })
                },
                Some(failure) => if is_rejectable(failure.kind) && !old(self).fixed {
                    &&& result is Ok
                    &&& *final(self) == (TargetSearch { stopped: true, ..*old(self) })
                } else {
                    &&& result matches Err(error) && error@ == (if is_rejectable(failure.kind) {
                        recovery_corruption_view()
                    } else {
                        failure
                    })
                    &&& *final(self) == *old(self)
                },
            },
    {
        match check_envelope(read, &descriptors[self.accepted]) {
            Ok(_) => {
                self.accepted = self.accepted + 1;
                Ok(())
            },
            Err(error) => {
                if is_rejectable_envelope_error(error.kind) {
                    if self.fixed {
                        return Err(recovery_corruption());
                    }
                    self.stopped = true;
                    Ok(())
                } else {
                    Err(error)
                }
            },
        }
    }
}

/// What a recovery has to do.
#[derive(Debug)]
pub struct RecoveryPlan {
    pub database_identity: Vec<u8>,
    pub durable_frontier: DurableFrontier,
    pub head_seq: CommitSeq,
    pub accepted_seq: CommitSeq,
    pub published_end: DurableVLogEnd,
    pub accepted_end: DurableVLogEnd,
    pub physical_tail: PhysicalTail,
    pub descriptors: Vec<TransactionDescriptor>,
    pub recovery_state: Option<RecoveryState>,
    pub needs_undo: bool,
    pub needs_promote: bool,
    pub needs_trim: bool,
}

/// A plan, but for the identity and the transactions.
#[verifier::ext_equal]
pub struct PlanView {
    pub durable_frontier: DurableFrontier,
    pub head_seq: CommitSeq,
    pub accepted_seq: CommitSeq,
    pub published_end: DurableVLogEnd,
    pub accepted_end: DurableVLogEnd,
    pub physical_tail: PhysicalTail,
    pub recovery_state: Option<RecoveryState>,
    pub needs_undo: bool,
    pub needs_promote: bool,
    pub needs_trim: bool,
}

impl View for RecoveryPlan {
    type V = PlanView;

    open spec fn view(&self) -> PlanView {
        PlanView {
            durable_frontier: self.durable_frontier,
            head_seq: self.head_seq,
            accepted_seq: self.accepted_seq,
            published_end: self.published_end,
            accepted_end: self.accepted_end,
            physical_tail: self.physical_tail,
            recovery_state: self.recovery_state,
            needs_undo: self.needs_undo,
            needs_promote: self.needs_promote,
            needs_trim: self.needs_trim,
        }
    }
}

/// Where the log ends after a commit that is durable or among the transactions.
pub open spec fn end_after(
    frontier: DurableFrontier,
    seq: CommitSeq,
    descriptors: Seq<DescriptorView>,
) -> Option<DurableVLogEnd> {
    if seq == frontier.durable_seq {
        Some(frontier.durable_vlog_end)
    } else if frontier.durable_seq < seq <= frontier.durable_seq + descriptors.len() {
        Some(
            DurableVLogEnd::Position(
                descriptors[seq - frontier.durable_seq - 1].meta.vlog_end,
            ),
        )
    } else {
        None
    }
}

fn descriptor_end_for_seq(
    frontier: DurableFrontier,
    seq: CommitSeq,
    descriptors: &Vec<TransactionDescriptor>,
) -> (result: Result<DurableVLogEnd>)
    ensures
        match end_after(frontier, seq, descriptor_views(descriptors@)) {
            Some(end) => result matches Ok(found) && found == end,
            None => result matches Err(error) && error@ == recovery_corruption_view(),
        },
{
    if seq == frontier.durable_seq {
        return Ok(frontier.durable_vlog_end);
    }
    if seq < frontier.durable_seq {
        return Err(recovery_corruption());
    }
    let relative: u64 = seq - frontier.durable_seq - 1;
    let count: usize = descriptors.len();
    if relative >= count as u64 {
        return Err(recovery_corruption());
    }
    let index: usize = relative as usize;
    proof {
        assert(descriptor_views(descriptors@)[index as int] == descriptors@[index as int]@);
    }
    Ok(DurableVLogEnd::Position(descriptors[index].meta.vlog_end))
}

/// A recovery that was begun allows what is found behind the accepted end. What was to be cut
/// off may be lost by now; nothing may have appeared.
pub open spec fn phase_allows(state: RecoveryState, needs_trim: bool) -> bool {
    match state.phase {
        RecoveryPhase::Undo => state.trim_required || !needs_trim,
        RecoveryPhase::Trim => state.trim_required,
        RecoveryPhase::Finalize => !state.trim_required && !needs_trim,
    }
}

/// The plan for an accepted commit, or why there is none.
pub open spec fn recovery_plan(
    frontier: DurableFrontier,
    head_seq: CommitSeq,
    accepted_seq: CommitSeq,
    descriptors: Seq<DescriptorView>,
    state: Option<RecoveryState>,
    files: Seq<VLogInventoryEntry>,
    physical_tail: PhysicalTail,
) -> Option<PlanView> {
    let published_end = end_after(frontier, head_seq, descriptors);
    let accepted_end = end_after(frontier, accepted_seq, descriptors);
    if accepted_seq < frontier.durable_seq || accepted_seq > head_seq || published_end is None
        || accepted_end is None || !reaches(files, accepted_end->0) || (state matches Some(begun)
        && (begun.target_vlog_end != accepted_end->0 || !phase_allows(
        begun,
        goes_beyond(files, accepted_end->0),
    ))) {
        None
    } else {
        Some(
            PlanView {
                durable_frontier: frontier,
                head_seq,
                accepted_seq,
                published_end: published_end->0,
                accepted_end: accepted_end->0,
                physical_tail,
                recovery_state: state,
                needs_undo: match state {
                    Some(begun) => begun.phase == RecoveryPhase::Undo && head_seq
                        > begun.target_seq,
                    None => accepted_seq < head_seq,
                },
                needs_promote: accepted_seq > frontier.durable_seq,
                needs_trim: goes_beyond(files, accepted_end->0),
            },
        )
    }
}

/// The commit that is kept: the target of a recovery that was begun, or the last transaction
/// that is wholly in the log.
pub open spec fn accepted_commit(
    frontier: DurableFrontier,
    state: Option<RecoveryState>,
    accepted: nat,
) -> CommitSeq {
    match state {
        Some(begun) => begun.target_seq,
        None => (frontier.durable_seq + accepted) as u64,
    }
}

/// Makes the plan of a recovery.
pub fn build_plan(
    database_identity: Vec<u8>,
    frontier: DurableFrontier,
    head_seq: CommitSeq,
    search: TargetSearch,
    descriptors: Vec<TransactionDescriptor>,
    recovery_state: Option<RecoveryState>,
    inventory: &ManagedInventory,
    topology: RecoveryTopology,
) -> (result: Result<RecoveryPlan>)
    requires
        frontier.durable_seq + search.accepted <= u64::MAX,
    ensures
        match recovery_plan(
            frontier,
            head_seq,
            accepted_commit(frontier, recovery_state, search.accepted as nat),
            descriptor_views(descriptors@),
            recovery_state,
            inventory.vlog_files@,
            topology.physical_tail,
        ) {
            Some(expected) => result matches Ok(plan) && plan@ == expected
                && plan.database_identity@ == database_identity@ && plan.descriptors@
                == descriptors@,
            None => result matches Err(error) && error@ == recovery_corruption_view(),
        },
{
    let accepted_seq: u64 = match recovery_state {
        Some(begun) => begun.target_seq,
        None => frontier.durable_seq + search.accepted as u64,
    };
    if accepted_seq < frontier.durable_seq || accepted_seq > head_seq {
        return Err(recovery_corruption());
    }
    let published_end = descriptor_end_for_seq(frontier, head_seq, &descriptors)?;
    let accepted_end = descriptor_end_for_seq(frontier, accepted_seq, &descriptors)?;
    match recovery_state {
        Some(begun) => {
            if begun.target_vlog_end != accepted_end {
                return Err(recovery_corruption());
            }
        },
        None => {},
    }
    if !topology.contains_end(inventory, accepted_end) {
        return Err(recovery_corruption());
    }
    let needs_trim = topology.has_suffix_after(inventory, accepted_end);
    let needs_undo = match recovery_state {
        Some(begun) => {
            let allowed = match begun.phase {
                RecoveryPhase::Undo => begun.trim_required || !needs_trim,
                RecoveryPhase::Trim => begun.trim_required,
                RecoveryPhase::Finalize => !begun.trim_required && !needs_trim,
            };
            if !allowed {
                return Err(recovery_corruption());
            }
            begun.phase == RecoveryPhase::Undo && head_seq > begun.target_seq
        },
        None => accepted_seq < head_seq,
    };
    Ok(
        RecoveryPlan {
            database_identity,
            durable_frontier: frontier,
            head_seq,
            accepted_seq,
            published_end,
            accepted_end,
            physical_tail: topology.physical_tail,
            descriptors,
            recovery_state,
            needs_undo,
            needs_promote: accepted_seq > frontier.durable_seq,
            needs_trim,
        },
    )
}

/// A plan never gives up a durable commit, and never keeps one behind the head.
pub proof fn law_plan_keeps_durable_commits(
    frontier: DurableFrontier,
    head_seq: CommitSeq,
    accepted_seq: CommitSeq,
    descriptors: Seq<DescriptorView>,
    state: Option<RecoveryState>,
    files: Seq<VLogInventoryEntry>,
    tail: PhysicalTail,
)
    requires
        recovery_plan(frontier, head_seq, accepted_seq, descriptors, state, files, tail) is Some,
    ensures
        ({
            let plan = recovery_plan(
                frontier,
                head_seq,
                accepted_seq,
                descriptors,
                state,
                files,
                tail,
            )->0;
            &&& frontier.durable_seq <= plan.accepted_seq <= head_seq
            &&& plan.accepted_seq == frontier.durable_seq ==> plan.accepted_end
                == frontier.durable_vlog_end && !plan.needs_promote
            &&& reaches(files, plan.accepted_end)
            &&& state is None && plan.accepted_seq == head_seq ==> !plan.needs_undo
        }),
{
}

/// Only what says that an envelope is not wholly there ends the search for the accepted commit.
/// A failure to read, or want of memory, says nothing of the log, and is never taken for an end.
pub proof fn law_only_damage_ends_the_search(kind: StorageErrorKind)
    ensures
        is_rejectable(kind) <==> kind == StorageErrorKind::Corruption || kind
            == StorageErrorKind::InvalidLayout || kind == StorageErrorKind::IncompatibleFormat,
        !is_rejectable(StorageErrorKind::Io),
        !is_rejectable(StorageErrorKind::ResourceExhausted),
        !is_rejectable(StorageErrorKind::Busy),
        is_rejectable(recovery_corruption_view().kind),
{
}

/// An envelope is the one of a single transaction: two records that it agrees with tell of the
/// same commit, the same place in the log and the same states of the same keys.
pub proof fn law_envelope_belongs_to_one_transaction(
    envelope: RecoveryEnvelope,
    a: DescriptorView,
    b: DescriptorView,
    i: int,
)
    requires
        envelope_agrees(envelope, a),
        envelope_agrees(envelope, b),
    ensures
        a.meta.commit_seq == b.meta.commit_seq,
        a.meta.tx_uuid == b.meta.tx_uuid,
        a.meta.vlog_begin == b.meta.vlog_begin,
        a.meta.vlog_end == b.meta.vlog_end,
        a.meta.logical_op_count == b.meta.logical_op_count,
        a.meta.distinct_key_count == b.meta.distinct_key_count,
        a.meta.envelope_crc32c == b.meta.envelope_crc32c,
        a.mutations.len() == b.mutations.len(),
        0 <= i < a.mutations.len() ==> a.mutations[i].user_key == b.mutations[i].user_key
            && a.mutations[i].after_state == b.mutations[i].after_state,
{
    if 0 <= i < a.mutations.len() {
        assert(envelope.final_states@[i].user_key@ == a.mutations[i].user_key);
    }
}

/// A recovery that nobody began before keeps every commit whose envelope was found, from the
/// frontier on, and no other; it ends the log behind the last of them. There is a plan exactly
/// where the commits are known up to the head and the log reaches that end. Commits behind it
/// are undone, it is made durable where it was not, and what lies behind it in the log is cut
/// off.
pub proof fn law_fresh_plan_keeps_whole_commits(
    frontier: DurableFrontier,
    head_seq: CommitSeq,
    found: nat,
    descriptors: Seq<DescriptorView>,
    files: Seq<VLogInventoryEntry>,
    tail: PhysicalTail,
)
    requires
        found <= descriptors.len(),
        frontier.durable_seq + descriptors.len() == head_seq,
    ensures
        search_limit(frontier, None, descriptors.len()) == Some(descriptors.len()),
        ({
            let accepted_seq = accepted_commit(frontier, None, found);
            let accepted_end = if found == 0 {
                frontier.durable_vlog_end
            } else {
                DurableVLogEnd::Position(descriptors[found - 1].meta.vlog_end)
            };
            let plan = recovery_plan(
                frontier,
                head_seq,
                accepted_seq,
                descriptors,
                None,
                files,
                tail,
            );
            &&& accepted_seq == frontier.durable_seq + found
            &&& plan is Some <==> reaches(files, accepted_end)
            &&& plan matches Some(plan) ==> {
                &&& plan.durable_frontier == frontier
                &&& plan.head_seq == head_seq
                &&& plan.accepted_seq == accepted_seq
                &&& plan.accepted_end == accepted_end
                &&& plan.published_end == (if descriptors.len() == 0 {
                    frontier.durable_vlog_end
                } else {
                    DurableVLogEnd::Position(descriptors.last().meta.vlog_end)
                })
                &&& plan.physical_tail == tail
                &&& plan.recovery_state is None
                &&& plan.needs_undo <==> found < descriptors.len()
                &&& plan.needs_promote <==> found > 0
                &&& plan.needs_trim <==> goes_beyond(files, accepted_end)
            }
        }),
{
}

/// An envelope is taken exactly where it was read and is the one that the transaction recorded. An
/// envelope of another transaction is corrupt, and an error is told as it is.
pub proof fn law_envelope_of_another_transaction_is_corrupt(
    read: Result<RecoveryEnvelope>,
    descriptor: DescriptorView,
)
    ensures
        envelope_failure(read, descriptor) is None <==> read is Ok && envelope_agrees(
            read->Ok_0,
            descriptor,
        ),
        read matches Err(error) ==> envelope_failure(read, descriptor) == Some(error@),
        read is Ok && envelope_failure(read, descriptor) is Some ==> envelope_failure(
            read,
            descriptor,
        )->0.kind == StorageErrorKind::Corruption && is_rejectable(
            envelope_failure(read, descriptor)->0.kind,
        ),
{
}

} // verus!
