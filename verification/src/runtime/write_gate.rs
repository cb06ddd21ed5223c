//! Writes that wait for their turn.

use vstd::prelude::*;

use crate::error::{
    plain_error, ErrorView, InstanceState, Operation, ProtocolStage, Result, RetryAdvice,
    StorageError, StorageErrorKind, WriteOutcome,
};

verus! {

/// What is answered to a write that an instance in some state does not let in.
pub open spec fn admission_view(operation: Operation, state: InstanceState) -> ErrorView {
    plain_error(
        match state {
            InstanceState::Healthy => StorageErrorKind::Busy,
            InstanceState::WriteStopped => StorageErrorKind::StorageWriteStopped,
            InstanceState::Poisoned => StorageErrorKind::StoragePoisoned,
        },
        operation,
        ProtocolStage::Admission,
        Some(WriteOutcome::NotCommitted),
        Some(state),
        match state {
            InstanceState::Healthy => RetryAdvice::RetrySameInstance,
            InstanceState::WriteStopped => RetryAdvice::FixEnvironmentAndReopen,
            InstanceState::Poisoned => RetryAdvice::ReopenAndVerify,
        },
    )
}

pub fn admission_error(operation: Operation, state: InstanceState) -> (error: StorageError)
    ensures
        error@ == admission_view(operation, state),
{
    let (kind, retry_advice) = match state {
        InstanceState::Healthy => (StorageErrorKind::Busy, RetryAdvice::RetrySameInstance),
        InstanceState::WriteStopped => (
            StorageErrorKind::StorageWriteStopped,
            RetryAdvice::FixEnvironmentAndReopen,
        ),
        InstanceState::Poisoned => (
            StorageErrorKind::StoragePoisoned,
            RetryAdvice::ReopenAndVerify,
        ),
    };
    let mut error = StorageError::codec_error(
        kind,
        operation,
        ProtocolStage::Admission,
        Some(WriteOutcome::NotCommitted),
        retry_advice,
    );
    error.instance_state = Some(state);
    error
}

/// A write that had begun was dropped before it ended: what became of it is not known.
pub open spec fn abandoned_view(operation: Operation) -> ErrorView {
    plain_error(
        StorageErrorKind::StoragePoisoned,
        operation,
        ProtocolStage::Lifecycle,
        Some(WriteOutcome::CommitUnknown),
        Some(InstanceState::Poisoned),
        RetryAdvice::ReopenAndVerify,
    )
}

pub fn abandoned_active_write_error(operation: Operation) -> (error: StorageError)
    ensures
        error@ == abandoned_view(operation),
{
    let mut error = StorageError::codec_error(
        StorageErrorKind::StoragePoisoned,
        operation,
        ProtocolStage::Lifecycle,
        Some(WriteOutcome::CommitUnknown),
        RetryAdvice::ReopenAndVerify,
    );
    error.instance_state = Some(InstanceState::Poisoned);
    error
}

/// How far a write has come.
#[derive(Clone, Copy, Debug, PartialEq, Eq, Structural)]
pub enum RequestPhase {
    Queued,
    Started,
    Cancelled(InstanceState),
    Completed,
}

impl RequestPhase {
    /// The turn of a waiting write has come. Says whether that changed anything.
    pub fn mark_started(&mut self) -> (changed: bool)
        ensures
            changed == (*old(self) == RequestPhase::Queued),
            *final(self) == (if changed {
                RequestPhase::Started
            } else {
                *old(self)
            }),
    {
        if *self == RequestPhase::Queued {
            *self = RequestPhase::Started;
            true
        } else {
            false
        }
    }

    /// A write that had begun has ended.
    pub fn mark_completed(&mut self) -> (changed: bool)
        ensures
            changed == (*old(self) == RequestPhase::Started),
            *final(self) == (if changed {
                RequestPhase::Completed
            } else {
                *old(self)
            }),
    {
        if *self == RequestPhase::Started {
            *self = RequestPhase::Completed;
            true
        } else {
            false
        }
    }

    /// A waiting write is sent away, because of the state that the instance is in.
    pub fn cancel_for_state(&mut self, state: InstanceState) -> (changed: bool)
        ensures
            changed == (*old(self) == RequestPhase::Queued),
            *final(self) == (if changed {
                RequestPhase::Cancelled(state)
            } else {
                *old(self)
            }),
    {
        if *self == RequestPhase::Queued {
            *self = RequestPhase::Cancelled(state);
            true
        } else {
            false
        }
    }

    /// What a writer that waits for its turn is told; `None` where it has to wait on.
    pub fn outcome(&self, operation: Operation) -> (outcome: Option<Result<()>>)
        ensures
            match *self {
                RequestPhase::Queued => outcome is None,
                RequestPhase::Started | RequestPhase::Completed => outcome matches Some(Ok(_)),
                RequestPhase::Cancelled(state) => outcome matches Some(Err(error)) && error@
                    == admission_view(operation, state),
            },
    {
        match *self {
            RequestPhase::Queued => None,
            RequestPhase::Started | RequestPhase::Completed => Some(Ok(())),
            RequestPhase::Cancelled(state) => Some(Err(admission_error(operation, state))),
        }
    }
}

/// A write that is not let in is not committed, and is told the state of the instance: it waits in
/// a healthy one, and is not to be tried again in any other. One that was given up on its way may
/// have been committed.
pub proof fn law_write_that_is_not_let_in(operation: Operation, state: InstanceState)
    ensures
        ({
            let refused = admission_view(operation, state);
            let abandoned = abandoned_view(operation);
            &&& refused.operation == operation && abandoned.operation == operation
            &&& refused.protocol_stage == ProtocolStage::Admission
            &&& refused.write_outcome == Some(WriteOutcome::NotCommitted)
            &&& refused.instance_state == Some(state)
            &&& refused.kind == StorageErrorKind::Busy <==> state == InstanceState::Healthy
            &&& refused.kind == StorageErrorKind::StorageWriteStopped <==> state
                == InstanceState::WriteStopped
            &&& refused.kind == StorageErrorKind::StoragePoisoned <==> state
                == InstanceState::Poisoned
            &&& refused.retry_advice == RetryAdvice::RetrySameInstance <==> state
                == InstanceState::Healthy
            &&& state == InstanceState::WriteStopped ==> refused.retry_advice
                == RetryAdvice::FixEnvironmentAndReopen
            &&& state == InstanceState::Poisoned ==> refused.retry_advice
                == RetryAdvice::ReopenAndVerify
            &&& abandoned.write_outcome == Some(WriteOutcome::CommitUnknown)
            &&& abandoned.protocol_stage == ProtocolStage::Lifecycle
            &&& abandoned.kind == admission_view(operation, InstanceState::Poisoned).kind
            &&& abandoned.instance_state == Some(InstanceState::Poisoned)
            &&& abandoned.retry_advice == RetryAdvice::ReopenAndVerify
        }),
{
}

} // verus!
