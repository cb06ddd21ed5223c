//! Structured errors, write outcomes and retry advice.

use vstd::prelude::*;

use crate::shown::{show, ShownView};

verus! {

pub type Result<T> = std::result::Result<T, StorageError>;

#[derive(Clone, Copy, Debug, PartialEq, Eq, Structural)]
pub enum WriteOutcome {
    NotCommitted,
    CommitUnknown,
}

#[derive(Clone, Copy, Debug, PartialEq, Eq, Structural)]
pub enum InstanceState {
    Healthy,
    WriteStopped,
    Poisoned,
}

#[derive(Clone, Copy, Debug, PartialEq, Eq, Structural)]
pub enum RetryAdvice {
    FixRequestAndRetrySameInstance,
    RetrySameInstance,
    FixEnvironmentAndReopen,
    ReopenAndVerify,
    RestoreOrRepair,
    DoNotRetry,
}

#[derive(Clone, Copy, Debug, PartialEq, Eq, Structural)]
pub enum StorageErrorKind {
    InvalidArgument,
    NotFound,
    Busy,
    Unsupported,
    ResourceExhausted,
    CapacityExceeded,
    Io,
    Corruption,
    InvalidLayout,
    IncompatibleFormat,
    StorageWriteStopped,
    StoragePoisoned,
    Unrecoverable,
}

#[derive(Clone, Copy, Debug, PartialEq, Eq, Structural)]
pub enum Operation {
    Open,
    Put,
    Delete,
    WriteBatch,
    Get,
    Snapshot,
    Iterator,
    Range,
    Sync,
    Destroy,
    Drop,
    Background,
    Recovery,
}

#[derive(Clone, Copy, Debug, PartialEq, Eq, Structural)]
pub enum ProtocolStage {
    Admission,
    Preflight,
    VLogAppend,
    VLogSync,
    IndexCommit,
    DurableFrontier,
    Read,
    Recovery,
    Maintenance,
    Lifecycle,
}

#[derive(Clone, Copy, Debug, PartialEq, Eq, Structural)]
pub enum ManagedObject {
    Lock,
    Format,
    FormatTemporary,
    DatabaseIdentity,
    IndexDirectory,
    VLogDirectory,
    VLogFile { file_id: u32 },
}

#[derive(Clone, Copy, Debug, PartialEq, Eq, Structural)]
pub enum DestroyStage {
    AcquireLock,
    Inventory,
    RemoveFile,
    RemoveTree,
    SyncDirectory,
}

#[derive(Clone, Copy, Debug)]
pub struct DestroyFailureContext {
    pub failed_object: ManagedObject,
    pub stage: DestroyStage,
    pub partially_deleted: bool,
    pub os_code: Option<i32>,
}

pub struct StorageError {
    pub schema_version: u16,
    pub kind: StorageErrorKind,
    pub operation: Operation,
    pub protocol_stage: ProtocolStage,
    pub write_outcome: Option<WriteOutcome>,
    pub instance_state: Option<InstanceState>,
    pub retry_advice: RetryAdvice,
    pub os_code: Option<i32>,
    pub commit_seq: Option<u64>,
    pub tx_uuid: Option<[u8; 16]>,
    pub vlog_file_id: Option<u32>,
    pub vlog_offset: Option<u64>,
    pub destroy_failure: Option<DestroyFailureContext>,
    pub message: String,
}

/// What an error says: its fields, with the message as characters.
#[verifier::ext_equal]
pub struct ErrorView {
    pub schema_version: u16,
    pub kind: StorageErrorKind,
    pub operation: Operation,
    pub protocol_stage: ProtocolStage,
    pub write_outcome: Option<WriteOutcome>,
    pub instance_state: Option<InstanceState>,
    pub retry_advice: RetryAdvice,
    pub os_code: Option<i32>,
    pub commit_seq: Option<u64>,
    pub tx_uuid: Option<[u8; 16]>,
    pub vlog_file_id: Option<u32>,
    pub vlog_offset: Option<u64>,
    pub destroy_failure: Option<DestroyFailureContext>,
    pub message: Seq<char>,
}

impl View for StorageError {
    type V = ErrorView;

    open spec fn view(&self) -> ErrorView {
        ErrorView {
            schema_version: self.schema_version,
            kind: self.kind,
            operation: self.operation,
            protocol_stage: self.protocol_stage,
            write_outcome: self.write_outcome,
            instance_state: self.instance_state,
            retry_advice: self.retry_advice,
            os_code: self.os_code,
            commit_seq: self.commit_seq,
            tx_uuid: self.tx_uuid,
            vlog_file_id: self.vlog_file_id,
            vlog_offset: self.vlog_offset,
            destroy_failure: self.destroy_failure,
            message: self.message@,
        }
    }
}

impl std::fmt::Debug for StorageError {
    fn fmt(&self, formatter: &mut std::fmt::Formatter<'_>) -> (result: std::fmt::Result) {
        show(&self.shown(), formatter)
    }
}

/// An error that carries its classification and nothing else.
pub open spec fn plain_error(
    kind: StorageErrorKind,
    operation: Operation,
    protocol_stage: ProtocolStage,
    write_outcome: Option<WriteOutcome>,
    instance_state: Option<InstanceState>,
    retry_advice: RetryAdvice,
) -> ErrorView {
    ErrorView {
        schema_version: 1,
        kind,
        operation,
        protocol_stage,
        write_outcome,
        instance_state,
        retry_advice,
        os_code: None,
        commit_seq: None,
        tx_uuid: None,
        vlog_file_id: None,
        vlog_offset: None,
        destroy_failure: None,
        message: Seq::empty(),
    }
}

/// An error that belongs to no instance: no instance state is known.
pub open spec fn detached_error(
    kind: StorageErrorKind,
    operation: Operation,
    protocol_stage: ProtocolStage,
    write_outcome: Option<WriteOutcome>,
    retry_advice: RetryAdvice,
) -> ErrorView {
    plain_error(kind, operation, protocol_stage, write_outcome, None, retry_advice)
}

impl ErrorView {
    /// The same error, with the operating system's code.
    pub open spec fn with_os_code(self, os_code: Option<i32>) -> ErrorView {
        ErrorView { os_code, ..self }
    }

    /// The same error, at a place of the value log.
    pub open spec fn with_place(self, file_id: Option<u32>, offset: Option<u64>) -> ErrorView {
        ErrorView { vlog_file_id: file_id, vlog_offset: offset, ..self }
    }

    /// The same error, of a commit.
    pub open spec fn with_commit(self, commit_seq: u64) -> ErrorView {
        ErrorView { commit_seq: Some(commit_seq), ..self }
    }

    /// The same error, seen by another operation that knows neither outcome nor instance.
    pub open spec fn seen_by(self, operation: Operation, protocol_stage: ProtocolStage) -> ErrorView {
        ErrorView { operation, protocol_stage, write_outcome: None, instance_state: None, ..self }
    }
}

/// Operations whose failure has to say what became of the write.
pub open spec fn is_write_operation(operation: Operation) -> bool {
    operation == Operation::Put || operation == Operation::Delete || operation
        == Operation::WriteBatch || operation == Operation::Sync
}

impl StorageError {
    /// What is shown of the error to someone who looks for a fault: all of it, but of a failed
    /// destruction only that there was one. No error has another one behind it.
    pub fn shown(&self) -> (shown: crate::shown::StorageError<'_>)
        ensures
            shown@ == (ShownView {
                fields: ErrorView { destroy_failure: None, ..self@ },
                destroy_failure: self.destroy_failure is Some,
                source: false,
            }),
    {
        crate::shown::StorageError {
            schema_version: self.schema_version,
            kind: self.kind,
            operation: self.operation,
            protocol_stage: self.protocol_stage,
            write_outcome: self.write_outcome,
            instance_state: self.instance_state,
            retry_advice: self.retry_advice,
            os_code: self.os_code,
            commit_seq: self.commit_seq,
            tx_uuid: self.tx_uuid,
            vlog_file_id: self.vlog_file_id,
            vlog_offset: self.vlog_offset,
            destroy_failure: self.destroy_failure.is_some(),
            message: &self.message,
            source: false,
        }
    }

    /// The text for a person. It says nothing that a program should look at.
    pub fn to_text(&self) -> (text: String)
        ensures
            text@ == self.message@,
    {
        self.message.clone()
    }

    pub fn unsupported(
        operation: Operation,
        protocol_stage: ProtocolStage,
        instance_state: Option<InstanceState>,
    ) -> (error: Self)
        ensures
            error@ == plain_error(
                StorageErrorKind::Unsupported,
                operation,
                protocol_stage,
                if is_write_operation(operation) {
                    Some(WriteOutcome::NotCommitted)
                } else {
                    None
                },
                instance_state,
                RetryAdvice::DoNotRetry,
            ),
    {
        let write_outcome = if operation == Operation::Put || operation == Operation::Delete
            || operation == Operation::WriteBatch || operation == Operation::Sync {
            Some(WriteOutcome::NotCommitted)
        } else {
            None
        };
        Self::new(
            StorageErrorKind::Unsupported,
            operation,
            protocol_stage,
            write_outcome,
            instance_state,
            RetryAdvice::DoNotRetry,
        )
    }

    pub fn invalid_batch(kind: StorageErrorKind, retry_advice: RetryAdvice) -> (error: Self)
        ensures
            error@ == plain_error(
                kind,
                Operation::WriteBatch,
                ProtocolStage::Preflight,
                Some(WriteOutcome::NotCommitted),
                None,
                retry_advice,
            ),
    {
        Self::new(
            kind,
            Operation::WriteBatch,
            ProtocolStage::Preflight,
            Some(WriteOutcome::NotCommitted),
            None,
            retry_advice,
        )
    }

    pub fn write_preflight(
        kind: StorageErrorKind,
        operation: Operation,
        retry_advice: RetryAdvice,
    ) -> (error: Self)
        ensures
            error@ == plain_error(
                kind,
                operation,
                ProtocolStage::Preflight,
                Some(WriteOutcome::NotCommitted),
                Some(InstanceState::Healthy),
                retry_advice,
            ),
    {
        Self::write_preflight_in_state(kind, operation, InstanceState::Healthy, retry_advice)
    }

    pub fn write_preflight_in_state(
        kind: StorageErrorKind,
        operation: Operation,
        instance_state: InstanceState,
        retry_advice: RetryAdvice,
    ) -> (error: Self)
        ensures
            error@ == plain_error(
                kind,
                operation,
                ProtocolStage::Preflight,
                Some(WriteOutcome::NotCommitted),
                Some(instance_state),
                retry_advice,
            ),
    {
        Self::new(
            kind,
            operation,
            ProtocolStage::Preflight,
            Some(WriteOutcome::NotCommitted),
            Some(instance_state),
            retry_advice,
        )
    }

    pub fn write_protocol(
        kind: StorageErrorKind,
        operation: Operation,
        protocol_stage: ProtocolStage,
        write_outcome: WriteOutcome,
        instance_state: InstanceState,
        retry_advice: RetryAdvice,
    ) -> (error: Self)
        ensures
            error@ == plain_error(
                kind,
                operation,
                protocol_stage,
                Some(write_outcome),
                Some(instance_state),
                retry_advice,
            ),
    {
        Self::new(
            kind,
            operation,
            protocol_stage,
            Some(write_outcome),
            Some(instance_state),
            retry_advice,
        )
    }

    pub fn read_error(
        kind: StorageErrorKind,
        instance_state: InstanceState,
        retry_advice: RetryAdvice,
    ) -> (error: Self)
        ensures
            error@ == plain_error(
                kind,
                Operation::Get,
                ProtocolStage::Read,
                None,
                Some(instance_state),
                retry_advice,
            ),
    {
        Self::read_operation_error(kind, Operation::Get, instance_state, retry_advice)
    }

    pub fn read_operation_error(
        kind: StorageErrorKind,
        operation: Operation,
        instance_state: InstanceState,
        retry_advice: RetryAdvice,
    ) -> (error: Self)
        ensures
            error@ == plain_error(
                kind,
                operation,
                ProtocolStage::Read,
                None,
                Some(instance_state),
                retry_advice,
            ),
    {
        Self::new(
            kind,
            operation,
            ProtocolStage::Read,
            None,
            Some(instance_state),
            retry_advice,
        )
    }

    pub fn codec_error(
        kind: StorageErrorKind,
        operation: Operation,
        protocol_stage: ProtocolStage,
        write_outcome: Option<WriteOutcome>,
        retry_advice: RetryAdvice,
    ) -> (error: Self)
        ensures
            error@ == detached_error(kind, operation, protocol_stage, write_outcome, retry_advice),
    {
        Self::new(kind, operation, protocol_stage, write_outcome, None, retry_advice)
    }

    pub fn new(
        kind: StorageErrorKind,
        operation: Operation,
        protocol_stage: ProtocolStage,
        write_outcome: Option<WriteOutcome>,
        instance_state: Option<InstanceState>,
        retry_advice: RetryAdvice,
    ) -> (error: Self)
        ensures
            error@ == plain_error(
                kind,
                operation,
                protocol_stage,
                write_outcome,
                instance_state,
                retry_advice,
            ),
    {
        StorageError {
            schema_version: 1,
            kind,
            operation,
            protocol_stage,
            write_outcome,
            instance_state,
            retry_advice,
            os_code: None,
            commit_seq: None,
            tx_uuid: None,
            vlog_file_id: None,
            vlog_offset: None,
            destroy_failure: None,
            message: String::new(),
        }
    }
}

/// What is added to an error, or said in its place, changes nothing else of it. Only the place
/// where an error is seen makes it forget what it said of a write and of an instance.
pub proof fn law_error_stays_the_same(
    error: ErrorView,
    os_code: Option<i32>,
    file_id: Option<u32>,
    offset: Option<u64>,
    commit_seq: u64,
    operation: Operation,
    protocol_stage: ProtocolStage,
)
    ensures
        error.with_os_code(os_code).os_code == os_code,
        error.with_os_code(os_code).with_os_code(error.os_code) == error,
        error.with_place(file_id, offset).vlog_file_id == file_id,
        error.with_place(file_id, offset).vlog_offset == offset,
        error.with_place(file_id, offset).with_place(error.vlog_file_id, error.vlog_offset)
            == error,
        error.with_commit(commit_seq).commit_seq == Some(commit_seq),
        (ErrorView { commit_seq: error.commit_seq, ..error.with_commit(commit_seq) }) == error,
        ({
            let seen = error.seen_by(operation, protocol_stage);
            &&& seen.operation == operation && seen.protocol_stage == protocol_stage
            &&& seen.write_outcome is None && seen.instance_state is None
            &&& error == (ErrorView {
                operation: error.operation,
                protocol_stage: error.protocol_stage,
                write_outcome: error.write_outcome,
                instance_state: error.instance_state,
                ..seen
            })
        }),
{
}

/// An error that is made says what it was made with, in the first version of the schema, and
/// nothing of a place, a commit, or the operating system. One without an instance says no state.
pub proof fn law_new_error_says_no_more(
    kind: StorageErrorKind,
    operation: Operation,
    protocol_stage: ProtocolStage,
    write_outcome: Option<WriteOutcome>,
    instance_state: Option<InstanceState>,
    retry_advice: RetryAdvice,
)
    ensures
        ({
            let error = plain_error(
                kind,
                operation,
                protocol_stage,
                write_outcome,
                instance_state,
                retry_advice,
            );
            let detached = detached_error(
                kind,
                operation,
                protocol_stage,
                write_outcome,
                retry_advice,
            );
            &&& error.schema_version == 1
            &&& error.kind == kind && error.operation == operation
            &&& error.protocol_stage == protocol_stage && error.write_outcome == write_outcome
            &&& error.instance_state == instance_state && error.retry_advice == retry_advice
            &&& error.os_code is None && error.commit_seq is None && error.tx_uuid is None
            &&& error.vlog_file_id is None && error.vlog_offset is None
            &&& error.destroy_failure is None && error.message.len() == 0
            &&& detached.instance_state is None
            &&& detached == (ErrorView { instance_state: None, ..error })
        }),
{
}

/// The operations that write are those that a caller asks to change or to secure something.
pub proof fn law_operations_that_write(operation: Operation)
    ensures
        !is_write_operation(operation) <==> match operation {
            Operation::Open | Operation::Get | Operation::Snapshot | Operation::Iterator
            | Operation::Range | Operation::Destroy | Operation::Drop | Operation::Background
            | Operation::Recovery => true,
            Operation::Put | Operation::Delete | Operation::WriteBatch | Operation::Sync => false,
        },
{
}

} // verus!
