//! Statistics: what an instance reports of its state and its progress.

use vstd::prelude::*;

use crate::error::{
    InstanceState, Operation, ProtocolStage, RetryAdvice, StorageError, StorageErrorKind,
};

verus! {

#[derive(Clone, Copy, Debug)]
pub struct VLogPosition {
    pub file_id: u32,
    pub offset: u64,
}

#[derive(Clone, Copy, Debug)]
pub struct LatchedErrorSummary {
    pub kind: StorageErrorKind,
    pub operation: Operation,
    pub protocol_stage: ProtocolStage,
    pub retry_advice: RetryAdvice,
    pub os_code: Option<i32>,
    pub commit_seq: Option<u64>,
    pub vlog_file_id: Option<u32>,
    pub vlog_offset: Option<u64>,
}

#[derive(Clone, Copy, Debug)]
pub struct DbStats {
    pub schema_version: u16,
    pub instance_state: InstanceState,
    pub state_epoch: u64,
    pub first_latched_error: Option<LatchedErrorSummary>,
    pub head_seq: u64,
    pub durable_seq: u64,
    pub durability_lag: u64,
    pub durable_vlog_end: Option<VLogPosition>,
    pub active_vlog_file_id: Option<u32>,
    pub vlog_file_count: u32,
    pub vlog_logical_bytes: u64,
}

impl DbStats {
    /// The lag is the distance from the durable sequence number to the head.
    pub open spec fn well_formed(self) -> bool {
        &&& self.durable_seq <= self.head_seq
        &&& self.durability_lag == self.head_seq - self.durable_seq
    }
}

/// The statistics of one instance. The caller guards them with a lock of its own.
pub struct StatsState {
    snapshot: DbStats,
}

impl View for StatsState {
    type V = DbStats;

    closed spec fn view(&self) -> DbStats {
        self.snapshot
    }
}

/// Whether a runtime state is newer than the reported one, or repeats it.
pub open spec fn runtime_update_applies(
    stats: DbStats,
    instance_state: InstanceState,
    state_epoch: u64,
) -> bool {
    state_epoch > stats.state_epoch || (state_epoch == stats.state_epoch && instance_state
        == stats.instance_state)
}

impl StatsState {
    #[verifier::type_invariant]
    spec fn lag_is_consistent(&self) -> bool {
        self.snapshot.well_formed()
    }

    pub fn new() -> (stats: Self)
        ensures
            stats@ == (DbStats {
                schema_version: 1,
                instance_state: InstanceState::Healthy,
                state_epoch: 0,
                first_latched_error: None,
                head_seq: 0,
                durable_seq: 0,
                durability_lag: 0,
                durable_vlog_end: None,
                active_vlog_file_id: None,
                vlog_file_count: 0,
                vlog_logical_bytes: 0,
            }),
    {
        StatsState {
            snapshot: DbStats {
                schema_version: 1,
                instance_state: InstanceState::Healthy,
                state_epoch: 0,
                first_latched_error: None,
                head_seq: 0,
                durable_seq: 0,
                durability_lag: 0,
                durable_vlog_end: None,
                active_vlog_file_id: None,
                vlog_file_count: 0,
                vlog_logical_bytes: 0,
            },
        }
    }

    pub fn snapshot(&self) -> (snapshot: DbStats)
        ensures
            snapshot == self@,
            snapshot.well_formed(),
    {
        proof {
            use_type_invariant(self);
        }
        self.snapshot
    }

    /// Takes over a runtime state, unless it is older than the reported one.
    pub fn update_runtime_state(
        &mut self,
        instance_state: InstanceState,
        state_epoch: u64,
        first_latched_error: Option<LatchedErrorSummary>,
    )
        ensures
            final(self)@ == (if runtime_update_applies(old(self)@, instance_state, state_epoch) {
                DbStats { instance_state, state_epoch, first_latched_error, ..old(self)@ }
            } else {
                old(self)@
            }),
    {
        proof {
            use_type_invariant(&*self);
        }
        if state_epoch > self.snapshot.state_epoch || (state_epoch == self.snapshot.state_epoch
            && instance_state == self.snapshot.instance_state) {
            self.snapshot = DbStats {
                instance_state,
                state_epoch,
                first_latched_error,
                ..self.snapshot
            };
        }
    }

    /// Takes over the progress of commits, unless the durable number is past the head.
    pub fn update_commit_state(
        &mut self,
        head_seq: u64,
        durable_seq: u64,
        durable_vlog_end: Option<(u32, u64)>,
        active_vlog_file_id: Option<u32>,
        vlog_file_count: u32,
        vlog_logical_bytes: u64,
    ) -> (applied: bool)
        ensures
            applied == (durable_seq <= head_seq),
            !applied ==> final(self)@ == old(self)@,
            applied ==> final(self)@ == (DbStats {
                head_seq,
                durable_seq,
                durability_lag: (head_seq - durable_seq) as u64,
                durable_vlog_end: match durable_vlog_end {
                    Some(end) => Some(VLogPosition { file_id: end.0, offset: end.1 }),
                    None => None,
                },
                active_vlog_file_id,
                vlog_file_count,
                vlog_logical_bytes,
                ..old(self)@
            }),
    {
        if head_seq < durable_seq {
            return false;
        }
        let durable_vlog_end = match durable_vlog_end {
            Some(end) => Some(VLogPosition { file_id: end.0, offset: end.1 }),
            None => None,
        };
        self.snapshot = DbStats {
            head_seq,
            durable_seq,
            durability_lag: head_seq - durable_seq,
            durable_vlog_end,
            active_vlog_file_id,
            vlog_file_count,
            vlog_logical_bytes,
            ..self.snapshot
        };
        true
    }
}

impl Default for StatsState {
    fn default() -> (stats: Self)
        ensures
            stats@ == (DbStats {
                schema_version: 1,
                instance_state: InstanceState::Healthy,
                state_epoch: 0,
                first_latched_error: None,
                head_seq: 0,
                durable_seq: 0,
                durability_lag: 0,
                durable_vlog_end: None,
                active_vlog_file_id: None,
                vlog_file_count: 0,
                vlog_logical_bytes: 0,
            }),
    {
        StatsState::new()
    }
}

impl LatchedErrorSummary {
    /// The part of an error that is kept once it has changed the state of an instance.
    pub fn from_storage_error(error: &StorageError) -> (summary: Self)
        ensures
            summary == latched_summary(error@),
    {
        LatchedErrorSummary {
            kind: error.kind,
            operation: error.operation,
            protocol_stage: error.protocol_stage,
            retry_advice: error.retry_advice,
            os_code: error.os_code,
            commit_seq: error.commit_seq,
            vlog_file_id: error.vlog_file_id,
            vlog_offset: error.vlog_offset,
        }
    }
}

pub open spec fn latched_summary(error: crate::error::ErrorView) -> LatchedErrorSummary {
    LatchedErrorSummary {
        kind: error.kind,
        operation: error.operation,
        protocol_stage: error.protocol_stage,
        retry_advice: error.retry_advice,
        os_code: error.os_code,
        commit_seq: error.commit_seq,
        vlog_file_id: error.vlog_file_id,
        vlog_offset: error.vlog_offset,
    }
}

/// The reported epoch never goes back, and a state changes only together with it.
pub proof fn law_reported_epoch_never_goes_back(
    before: DbStats,
    instance_state: InstanceState,
    state_epoch: u64,
    first_latched_error: Option<LatchedErrorSummary>,
)
    ensures
        ({
            let after = if runtime_update_applies(before, instance_state, state_epoch) {
                DbStats { instance_state, state_epoch, first_latched_error, ..before }
            } else {
                before
            };
            &&& after.state_epoch >= before.state_epoch
            &&& after.instance_state != before.instance_state ==> after.state_epoch
                > before.state_epoch
        }),
{
}

/// A newer epoch is always reported, and an older one never. Within an epoch the state stays. What
/// is reported of an error is what the error says.
pub proof fn law_newest_epoch_is_reported(
    before: DbStats,
    instance_state: InstanceState,
    state_epoch: u64,
    error: crate::error::ErrorView,
)
    ensures
        state_epoch > before.state_epoch ==> runtime_update_applies(
            before,
            instance_state,
            state_epoch,
        ),
        state_epoch < before.state_epoch ==> !runtime_update_applies(
            before,
            instance_state,
            state_epoch,
        ),
        state_epoch == before.state_epoch ==> (runtime_update_applies(
            before,
            instance_state,
            state_epoch,
        ) <==> instance_state == before.instance_state),
        before.well_formed() <==> before.durable_seq + before.durability_lag == before.head_seq,
        ({
            let summary = latched_summary(error);
            &&& summary.kind == error.kind && summary.operation == error.operation
            &&& summary.protocol_stage == error.protocol_stage
            &&& summary.retry_advice == error.retry_advice && summary.os_code == error.os_code
            &&& summary.commit_seq == error.commit_seq
            &&& summary.vlog_file_id == error.vlog_file_id
            &&& summary.vlog_offset == error.vlog_offset
        }),
{
}

} // verus!
