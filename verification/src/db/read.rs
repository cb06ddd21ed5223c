//! Reading: what a read needs to begin, and what a failed read does to the instance.

use vstd::prelude::*;

use crate::batch::{key_refusal, key_value_refusal, MAX_KEY_VALUE_SIZE};
use crate::error::{
    plain_error, ErrorView, InstanceState, Operation, ProtocolStage, Result, RetryAdvice,
    StorageError, StorageErrorKind,
};
use crate::options::ReadOptions;
use crate::runtime::state::{rank, sent_away, RuntimeControl, RuntimeView, StateSnapshot};

verus! {

/// An error of a read.
pub open spec fn read_view(
    kind: StorageErrorKind,
    operation: Operation,
    state: InstanceState,
    retry_advice: RetryAdvice,
) -> ErrorView {
    plain_error(kind, operation, ProtocolStage::Read, None, Some(state), retry_advice)
}

/// A poisoned instance answers no read.
pub open spec fn poisoned_read_view(operation: Operation) -> ErrorView {
    read_view(
        StorageErrorKind::StoragePoisoned,
        operation,
        InstanceState::Poisoned,
        RetryAdvice::ReopenAndVerify,
    )
}

pub open spec fn invalid_read_view(operation: Operation, state: InstanceState) -> ErrorView {
    read_view(
        StorageErrorKind::InvalidArgument,
        operation,
        state,
        RetryAdvice::FixRequestAndRetrySameInstance,
    )
}

/// No memory for a read.
pub open spec fn read_memory_view(operation: Operation, state: InstanceState) -> ErrorView {
    read_view(
        StorageErrorKind::ResourceExhausted,
        operation,
        state,
        RetryAdvice::RetrySameInstance,
    )
}

pub fn poisoned_read_error(operation: Operation) -> (error: StorageError)
    ensures
        error@ == poisoned_read_view(operation),
{
    StorageError::read_operation_error(
        StorageErrorKind::StoragePoisoned,
        operation,
        InstanceState::Poisoned,
        RetryAdvice::ReopenAndVerify,
    )
}

pub fn invalid_read_argument(operation: Operation, state: InstanceState) -> (error: StorageError)
    ensures
        error@ == invalid_read_view(operation, state),
{
    StorageError::read_operation_error(
        StorageErrorKind::InvalidArgument,
        operation,
        state,
        RetryAdvice::FixRequestAndRetrySameInstance,
    )
}

pub fn read_memory_error(operation: Operation, state: InstanceState) -> (error: StorageError)
    ensures
        error@ == read_memory_view(operation, state),
{
    StorageError::read_operation_error(
        StorageErrorKind::ResourceExhausted,
        operation,
        state,
        RetryAdvice::RetrySameInstance,
    )
}

/// Begins a read, at the state that the instance is in.
pub fn begin_read(state: StateSnapshot, operation: Operation) -> (result: Result<StateSnapshot>)
    ensures
        match result {
            Ok(started) => state.instance_state != InstanceState::Poisoned && started == state,
            Err(error) => state.instance_state == InstanceState::Poisoned && error@
                == poisoned_read_view(operation),
        },
{
    if state.instance_state == InstanceState::Poisoned {
        return Err(poisoned_read_error(operation));
    }
    Ok(state)
}

/// The instance was poisoned while a read was on its way.
pub open spec fn poisoned_since(started: StateSnapshot, current: StateSnapshot) -> bool {
    current.instance_state == InstanceState::Poisoned && current.state_epoch
        != started.state_epoch
}

/// Ends a read. Its result counts only if the instance was not poisoned on the way.
pub fn complete_read(started: StateSnapshot, current: StateSnapshot, operation: Operation) -> (result:
    Result<()>)
    ensures
        match result {
            Ok(_) => !poisoned_since(started, current),
            Err(error) => poisoned_since(started, current) && error@ == poisoned_read_view(
                operation,
            ),
        },
{
    if current.instance_state == InstanceState::Poisoned && current.state_epoch
        != started.state_epoch {
        return Err(poisoned_read_error(operation));
    }
    Ok(())
}

/// Which view a read is from.
#[derive(Clone, Copy, Debug, PartialEq, Eq, Structural)]
pub enum ReadSource {
    /// The database as it is now.
    Current,
    /// The view that was kept under this number.
    Kept(u64),
}

/// The snapshot of a read was not made by the instance.
pub open spec fn foreign_snapshot(options: ReadOptions<'_>, instance: u64) -> bool {
    options.snapshot matches Some(snapshot) && snapshot.instance != instance
}

/// The view that the options of a read ask for.
pub open spec fn chosen_source(options: ReadOptions<'_>) -> ReadSource {
    match options.snapshot {
        Some(snapshot) => ReadSource::Kept(snapshot.number),
        None => ReadSource::Current,
    }
}

/// Picks the view to read from. A snapshot of another instance is refused.
pub fn select_read_view(
    options: &ReadOptions<'_>,
    instance: u64,
    operation: Operation,
    started: StateSnapshot,
) -> (result: Result<ReadSource>)
    ensures
        match result {
            Ok(source) => !foreign_snapshot(*options, instance) && source == chosen_source(
                *options,
            ),
            Err(error) => foreign_snapshot(*options, instance) && error@ == invalid_read_view(
                operation,
                started.instance_state,
            ),
        },
{
    match options.snapshot {
        Some(snapshot) => {
            if !snapshot.belongs_to(instance) {
                return Err(invalid_read_argument(operation, started.instance_state));
            }
            Ok(ReadSource::Kept(snapshot.number))
        },
        None => Ok(ReadSource::Current),
    }
}

/// Where a read failed.
#[derive(Clone, Copy, Debug, PartialEq, Eq, Structural)]
pub enum ReadFailureDomain {
    Index,
    ValueLog,
}

/// The state that a failed read takes the instance to; `None` where it is worth another try.
pub open spec fn read_failure_state(
    domain: ReadFailureDomain,
    kind: StorageErrorKind,
) -> Option<InstanceState> {
    match kind {
        StorageErrorKind::Busy | StorageErrorKind::ResourceExhausted => None,
        StorageErrorKind::StorageWriteStopped => Some(InstanceState::WriteStopped),
        StorageErrorKind::Io => if domain == ReadFailureDomain::ValueLog {
            Some(InstanceState::WriteStopped)
        } else {
            Some(InstanceState::Poisoned)
        },
        _ => Some(InstanceState::Poisoned),
    }
}

fn failure_target(domain: ReadFailureDomain, kind: StorageErrorKind) -> (target: Option<
    InstanceState,
>)
    ensures
        target == read_failure_state(domain, kind),
{
    match kind {
        StorageErrorKind::Busy | StorageErrorKind::ResourceExhausted => None,
        StorageErrorKind::StorageWriteStopped => Some(InstanceState::WriteStopped),
        StorageErrorKind::Io => match domain {
            ReadFailureDomain::ValueLog => Some(InstanceState::WriteStopped),
            ReadFailureDomain::Index => Some(InstanceState::Poisoned),
        },
        _ => Some(InstanceState::Poisoned),
    }
}

/// What a caller should do about a failed read, once the instance is in some state.
pub open spec fn read_advice(kind: StorageErrorKind, final_state: InstanceState) -> RetryAdvice {
    match kind {
        StorageErrorKind::Corruption
        | StorageErrorKind::InvalidLayout
        | StorageErrorKind::Unrecoverable => RetryAdvice::RestoreOrRepair,
        StorageErrorKind::IncompatibleFormat
        | StorageErrorKind::NotFound
        | StorageErrorKind::Unsupported
        | StorageErrorKind::CapacityExceeded => RetryAdvice::DoNotRetry,
        StorageErrorKind::StoragePoisoned => RetryAdvice::ReopenAndVerify,
        StorageErrorKind::InvalidArgument => if final_state == InstanceState::Poisoned {
            RetryAdvice::DoNotRetry
        } else {
            RetryAdvice::FixRequestAndRetrySameInstance
        },
        StorageErrorKind::Busy | StorageErrorKind::ResourceExhausted => if final_state
            == InstanceState::Poisoned {
            RetryAdvice::ReopenAndVerify
        } else {
            RetryAdvice::RetrySameInstance
        },
        StorageErrorKind::Io | StorageErrorKind::StorageWriteStopped => if final_state
            == InstanceState::Poisoned {
            RetryAdvice::ReopenAndVerify
        } else {
            RetryAdvice::FixEnvironmentAndReopen
        },
    }
}

fn read_retry_advice(kind: StorageErrorKind, final_state: InstanceState) -> (advice: RetryAdvice)
    ensures
        advice == read_advice(kind, final_state),
{
    if final_state == InstanceState::Poisoned {
        return match kind {
            StorageErrorKind::Corruption
            | StorageErrorKind::InvalidLayout
            | StorageErrorKind::Unrecoverable => RetryAdvice::RestoreOrRepair,
            StorageErrorKind::IncompatibleFormat
            | StorageErrorKind::InvalidArgument
            | StorageErrorKind::NotFound
            | StorageErrorKind::Unsupported
            | StorageErrorKind::CapacityExceeded => RetryAdvice::DoNotRetry,
            StorageErrorKind::Busy
            | StorageErrorKind::ResourceExhausted
            | StorageErrorKind::Io
            | StorageErrorKind::StorageWriteStopped
            | StorageErrorKind::StoragePoisoned => RetryAdvice::ReopenAndVerify,
        };
    }
    match kind {
        StorageErrorKind::InvalidArgument => RetryAdvice::FixRequestAndRetrySameInstance,
        StorageErrorKind::Busy | StorageErrorKind::ResourceExhausted =>
            RetryAdvice::RetrySameInstance,
        StorageErrorKind::Io | StorageErrorKind::StorageWriteStopped =>
            RetryAdvice::FixEnvironmentAndReopen,
        StorageErrorKind::StoragePoisoned => RetryAdvice::ReopenAndVerify,
        StorageErrorKind::Corruption
        | StorageErrorKind::InvalidLayout
        | StorageErrorKind::Unrecoverable => RetryAdvice::RestoreOrRepair,
        StorageErrorKind::IncompatibleFormat
        | StorageErrorKind::NotFound
        | StorageErrorKind::Unsupported
        | StorageErrorKind::CapacityExceeded => RetryAdvice::DoNotRetry,
    }
}

/// What a failed read does to the instance, and what its caller is told.
pub open spec fn read_failed(
    before: RuntimeView,
    error: ErrorView,
    domain: ReadFailureDomain,
    operation: Operation,
) -> (RuntimeView, ErrorView) {
    let placed = ErrorView {
        operation,
        protocol_stage: ProtocolStage::Read,
        write_outcome: None,
        ..error
    };
    let after = match read_failure_state(domain, error.kind) {
        Some(target) => before.latched(
            target,
            ErrorView { retry_advice: read_advice(error.kind, target), ..placed },
        ),
        None => before,
    };
    let state = after.state.instance_state;
    (
        after,
        ErrorView {
            instance_state: Some(state),
            retry_advice: read_advice(error.kind, state),
            ..placed
        },
    )
}

/// Takes a failed read. Gives the error for the caller, and the writes that are sent away.
pub fn handle_read_failure(
    runtime: &mut RuntimeControl,
    error: StorageError,
    domain: ReadFailureDomain,
    operation: Operation,
) -> (failed: (StorageError, Vec<u64>))
    ensures
        ({
            let (after, told) = read_failed(old(runtime)@, error@, domain, operation);
            &&& final(runtime)@ == after
            &&& failed.0@ == told
            &&& failed.1@ == sent_away(old(runtime)@, after)
        }),
{
    let mut told = error;
    told.operation = operation;
    told.protocol_stage = ProtocolStage::Read;
    told.write_outcome = None;
    let before = runtime.state();
    let mut cancelled: Vec<u64> = Vec::new();
    let state = match failure_target(domain, told.kind) {
        Some(target) => {
            told.retry_advice = read_retry_advice(told.kind, target);
            let (transition, sent) = runtime.latch_failure(target, &told);
            cancelled = sent;
            transition.current.instance_state
        },
        None => before.instance_state,
    };
    told.instance_state = Some(state);
    told.retry_advice = read_retry_advice(told.kind, state);
    (told, cancelled)
}

/// A read on its way: the state that the instance had when it began.
#[derive(Clone, Copy, Debug, PartialEq, Eq, Structural)]
pub struct ReadRun {
    pub started: StateSnapshot,
    pub operation: Operation,
}

/// What a read has to do next.
pub enum ReadStep {
    /// Read the value that this pointer names.
    ReadValue(Vec<u8>),
    /// The read has ended: there is nothing.
    Absent,
    /// The read has ended with this value.
    Found(Vec<u8>),
    /// The read has failed; the writes with these numbers are sent away.
    Failed { error: StorageError, cancelled: Vec<u64> },
}

impl ReadStep {
    /// A read failed in the index or in the value log.
    pub open spec fn failed_in(
        self,
        before: RuntimeView,
        after: RuntimeView,
        error: ErrorView,
        domain: ReadFailureDomain,
        operation: Operation,
    ) -> bool {
        let (latched, told) = read_failed(before, error, domain, operation);
        &&& after == latched
        &&& self matches ReadStep::Failed { error: given, cancelled } && given@ == told
            && cancelled@ == sent_away(before, latched)
    }

    /// A read failed because the instance was poisoned meanwhile.
    pub open spec fn overtaken(self, operation: Operation) -> bool {
        self matches ReadStep::Failed { error, cancelled } && error@ == poisoned_read_view(
            operation,
        ) && cancelled@ == Seq::<u64>::empty()
    }
}

/// A key cannot be in the database.
pub open spec fn unusable_key(key: Seq<u8>) -> bool {
    key.len() == 0 || key.len() > MAX_KEY_VALUE_SIZE
}

/// Why a lookup is refused before anything is read.
pub open spec fn get_refusal(
    state: StateSnapshot,
    instance: u64,
    options: ReadOptions<'_>,
    key: Seq<u8>,
) -> Option<ErrorView> {
    if state.instance_state == InstanceState::Poisoned {
        Some(poisoned_read_view(Operation::Get))
    } else if unusable_key(key) || foreign_snapshot(options, instance) {
        Some(invalid_read_view(Operation::Get, state.instance_state))
    } else {
        None
    }
}

/// Begins the lookup of a key. The caller then looks its pointer up in the view it is given.
pub fn begin_get(
    state: StateSnapshot,
    instance: u64,
    options: &ReadOptions<'_>,
    key: &[u8],
) -> (result: Result<(ReadRun, ReadSource)>)
    ensures
        match get_refusal(state, instance, *options, key@) {
            Some(refusal) => result matches Err(error) && error@ == refusal,
            None => result == Ok::<(ReadRun, ReadSource), StorageError>(
                (
                    ReadRun { started: state, operation: Operation::Get },
                    chosen_source(*options),
                ),
            ),
        },
{
    let started = begin_read(state, Operation::Get)?;
    let length: usize = key.len();
    if length == 0 || length > MAX_KEY_VALUE_SIZE {
        return Err(
            StorageError::read_error(
                StorageErrorKind::InvalidArgument,
                started.instance_state,
                RetryAdvice::FixRequestAndRetrySameInstance,
            ),
        );
    }
    let source = select_read_view(options, instance, Operation::Get, started)?;
    Ok((ReadRun { started, operation: Operation::Get }, source))
}

impl ReadRun {
    /// Takes what the index holds.
    pub fn pointer_read(
        &self,
        runtime: &mut RuntimeControl,
        found: Result<Option<Vec<u8>>>,
    ) -> (step: ReadStep)
        ensures
            match found {
                Err(error) => step.failed_in(
                    old(runtime)@,
                    final(runtime)@,
                    error@,
                    ReadFailureDomain::Index,
                    self.operation,
                ),
                Ok(Some(pointer)) => final(runtime)@ == old(runtime)@ && step
                    == ReadStep::ReadValue(pointer),
                Ok(None) => final(runtime)@ == old(runtime)@ && if poisoned_since(
                    self.started,
                    old(runtime)@.state,
                ) {
                    step.overtaken(self.operation)
                } else {
                    step == ReadStep::Absent
                },
            },
    {
        match found {
            Err(error) => {
                let (error, cancelled) = handle_read_failure(
                    runtime,
                    error,
                    ReadFailureDomain::Index,
                    self.operation,
                );
                ReadStep::Failed { error, cancelled }
            },
            Ok(Some(pointer)) => ReadStep::ReadValue(pointer),
            Ok(None) => match complete_read(self.started, runtime.state(), self.operation) {
                Ok(_) => ReadStep::Absent,
                Err(error) => ReadStep::Failed { error, cancelled: Vec::new() },
            },
        }
    }

    /// Takes what the value log holds.
    pub fn value_read(&self, runtime: &mut RuntimeControl, read: Result<Vec<u8>>) -> (step: ReadStep)
        ensures
            match read {
                Err(error) => step.failed_in(
                    old(runtime)@,
                    final(runtime)@,
                    error@,
                    ReadFailureDomain::ValueLog,
                    self.operation,
                ),
                Ok(value) => final(runtime)@ == old(runtime)@ && if poisoned_since(
                    self.started,
                    old(runtime)@.state,
                ) {
                    step.overtaken(self.operation)
                } else {
                    step == ReadStep::Found(value)
                },
            },
    {
        match read {
            Err(error) => {
                let (error, cancelled) = handle_read_failure(
                    runtime,
                    error,
                    ReadFailureDomain::ValueLog,
                    self.operation,
                );
                ReadStep::Failed { error, cancelled }
            },
            Ok(value) => match complete_read(self.started, runtime.state(), self.operation) {
                Ok(_) => ReadStep::Found(value),
                Err(error) => ReadStep::Failed { error, cancelled: Vec::new() },
            },
        }
    }
}

/// A lookup is begun for every key that a put accepts, of one to sixty thousand bytes, on every
/// instance that is not poisoned, in the database as it is now or in a snapshot of the instance.
/// Every other lookup is refused, and is told why. A lookup without a snapshot is from the
/// database as it is now, one with a snapshot from that snapshot.
pub proof fn law_lookup_begins_for_every_key(
    state: StateSnapshot,
    instance: u64,
    options: ReadOptions<'_>,
    key: Seq<u8>,
    value: Seq<u8>,
)
    ensures
        ({
            let refusal = get_refusal(state, instance, options, key);
            let poisoned = state.instance_state == InstanceState::Poisoned;
            let own = options.snapshot is None || options.snapshot->0.instance == instance;
            &&& refusal is None <==> !poisoned && own && 1 <= key.len() <= 60_000
            &&& key_value_refusal(key, value) is None && !poisoned && own ==> refusal is None
            &&& key_refusal(key) is None && !poisoned && own ==> refusal is None
            &&& refusal matches Some(error) ==> error.kind == (if poisoned {
                StorageErrorKind::StoragePoisoned
            } else {
                StorageErrorKind::InvalidArgument
            }) && error.operation == Operation::Get && error.instance_state == Some(
                state.instance_state,
            )
        }),
        options.snapshot is None ==> chosen_source(options) == ReadSource::Current,
        options.snapshot matches Some(snapshot) ==> chosen_source(options) == ReadSource::Kept(
            snapshot.number,
        ),
{
}

/// A read is told of nothing but what it found, unless the instance was poisoned after it began;
/// then it is told that, and what it found is kept back.
pub proof fn law_read_counts_unless_poisoned_meanwhile(
    started: StateSnapshot,
    current: StateSnapshot,
)
    ensures
        current == started ==> !poisoned_since(started, current),
        current.instance_state != InstanceState::Poisoned ==> !poisoned_since(started, current),
        started.instance_state != InstanceState::Poisoned && current.instance_state
            == InstanceState::Poisoned && current.state_epoch > started.state_epoch
            ==> poisoned_since(started, current),
{
}

/// What a caller should do about a failed read: try again, as it is or mended, only where the
/// instance can still answer and the failure may pass; never where the stored data is not what it
/// should be.
pub proof fn law_read_advice(kind: StorageErrorKind, state: InstanceState)
    ensures
        ({
            let advice = read_advice(kind, state);
            let again = advice == RetryAdvice::RetrySameInstance || advice
                == RetryAdvice::FixRequestAndRetrySameInstance;
            &&& again ==> state != InstanceState::Poisoned
            &&& again <==> state != InstanceState::Poisoned && (kind == StorageErrorKind::Busy
                || kind == StorageErrorKind::ResourceExhausted || kind
                == StorageErrorKind::InvalidArgument)
            &&& kind == StorageErrorKind::Corruption || kind == StorageErrorKind::InvalidLayout
                || kind == StorageErrorKind::Unrecoverable <==> advice
                == RetryAdvice::RestoreOrRepair
            &&& advice == RetryAdvice::FixRequestAndRetrySameInstance ==> kind
                == StorageErrorKind::InvalidArgument
            &&& advice == RetryAdvice::FixEnvironmentAndReopen <==> state
                != InstanceState::Poisoned && (kind == StorageErrorKind::Io || kind
                == StorageErrorKind::StorageWriteStopped)
            &&& advice == RetryAdvice::ReopenAndVerify <==> kind
                == StorageErrorKind::StoragePoisoned || (state == InstanceState::Poisoned && (kind
                == StorageErrorKind::Busy || kind == StorageErrorKind::ResourceExhausted || kind
                == StorageErrorKind::Io || kind == StorageErrorKind::StorageWriteStopped))
        }),
{
}

/// A failed read never makes an instance better. Where another try is worth while, it changes
/// nothing; where the value log could not be read at all, an instance that was healthy still
/// answers reads; and where the stored data is not what it should be, it answers none.
pub proof fn law_failed_reads(
    before: RuntimeView,
    error: ErrorView,
    domain: ReadFailureDomain,
    operation: Operation,
)
    requires
        before.valid(),
    ensures
        ({
            let (after, told) = read_failed(before, error, domain, operation);
            &&& after.valid()
            &&& rank(after.state.instance_state) >= rank(before.state.instance_state)
            &&& told.instance_state == Some(after.state.instance_state)
            &&& error.kind == StorageErrorKind::Busy || error.kind
                == StorageErrorKind::ResourceExhausted ==> after == before
            &&& domain == ReadFailureDomain::ValueLog && error.kind == StorageErrorKind::Io
                && before.state.instance_state == InstanceState::Healthy ==> after.state.instance_state
                == InstanceState::WriteStopped
            &&& error.kind == StorageErrorKind::Corruption || error.kind
                == StorageErrorKind::InvalidLayout || (domain == ReadFailureDomain::Index
                && error.kind == StorageErrorKind::Io) ==> after.state.instance_state
                == InstanceState::Poisoned
        }),
{
}

/// A read that failed tells its caller, and sends away the writes that wait for the instance that
/// it has made worse. One that was overtaken by another failure sends none away, and says that the
/// instance is poisoned.
pub proof fn law_failed_read_ends(
    step: ReadStep,
    before: RuntimeView,
    after: RuntimeView,
    error: ErrorView,
    domain: ReadFailureDomain,
    operation: Operation,
)
    ensures
        step.failed_in(before, after, error, domain, operation) ==> step is Failed && {
            let told = step->error@;
            &&& told.kind == error.kind && told.operation == operation
            &&& told.instance_state == Some(after.state.instance_state)
            &&& told.write_outcome is None
            &&& after == before ==> step->cancelled@ == sent_away(before, before)
        },
        step.overtaken(operation) ==> step is Failed && {
            let told = step->error@;
            &&& told.kind == StorageErrorKind::StoragePoisoned && told.operation == operation
            &&& told.instance_state == Some(InstanceState::Poisoned)
            &&& told.retry_advice == RetryAdvice::ReopenAndVerify
            &&& step->cancelled@.len() == 0
        },
{
}

/// Every failure of a read does to an instance exactly one of three things: it leaves it as it is
/// where another try is worth while, it stops the writes where the value log could not be read or
/// writes were stopped, and else it poisons the instance. The caller is told the error itself, with
/// its code and its place.
pub proof fn law_every_failed_read_decides_state(
    before: RuntimeView,
    error: ErrorView,
    domain: ReadFailureDomain,
    operation: Operation,
)
    requires
        before.valid(),
        before.state.instance_state != InstanceState::Poisoned,
    ensures
        ({
            let (after, told) = read_failed(before, error, domain, operation);
            let passes = error.kind == StorageErrorKind::Busy || error.kind
                == StorageErrorKind::ResourceExhausted;
            let stops = error.kind == StorageErrorKind::StorageWriteStopped || (error.kind
                == StorageErrorKind::Io && domain == ReadFailureDomain::ValueLog);
            &&& passes ==> after == before
            &&& stops ==> after.state.instance_state == InstanceState::WriteStopped
            &&& after.state.instance_state == InstanceState::Poisoned <==> !passes && !stops
            &&& told.kind == error.kind && told.os_code == error.os_code
            &&& told.vlog_file_id == error.vlog_file_id && told.vlog_offset == error.vlog_offset
            &&& told.commit_seq == error.commit_seq
            &&& told.operation == operation && told.protocol_stage == ProtocolStage::Read
            &&& told.write_outcome is None
            &&& told.retry_advice == RetryAdvice::RetrySameInstance <==> passes
        }),
{
}

} // verus!
