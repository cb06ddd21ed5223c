//! The engine below the index: its options, its failures, and how a batch reaches it.

use vstd::prelude::*;

use crate::error::{
    detached_error, ErrorView, Operation, ProtocolStage, Result, RetryAdvice, StorageError,
    StorageErrorKind, WriteOutcome,
};
use crate::bytes::copy_bytes;
use crate::index::batch::{
    database_identity_name, invalid_index_batch, is_initialization, may_commit, IndexApplyState,
    IndexAtomicBatch, IndexCommitError, IndexCommitMode, IndexMutation, IndexView,
    InternalIndexError, InternalIndexSpace,
};
use crate::index::{FjallIndexOptions, IndexCompression};
use crate::memory::{asked, Memory};

verus! {

pub const MIN_FJALL_OPEN_FILES: usize = 10;

pub const MIN_FJALL_BLOCK_SIZE: usize = 1_024;

pub const MAX_FJALL_BLOCK_SIZE: usize = 4_194_304;

/// The engine multiplies the size of a table by four.
pub const MAX_FJALL_TABLE_TARGET_SIZE: u64 = 0x3fff_ffff_ffff_ffff;

/// Options in the widths of the engine.
#[derive(Clone, Copy, Debug)]
pub struct ValidatedOptions {
    pub max_open_files: usize,
    pub write_buffer_size: u64,
    pub block_cache_size: u64,
    pub block_size: u32,
    pub block_restart_interval: u8,
    pub max_file_size: u64,
    pub compression: IndexCompression,
}

/// What a caller should do about a failure of the engine.
pub open spec fn engine_advice(kind: StorageErrorKind) -> RetryAdvice {
    match kind {
        StorageErrorKind::InvalidArgument => RetryAdvice::FixRequestAndRetrySameInstance,
        StorageErrorKind::Busy => RetryAdvice::RetrySameInstance,
        StorageErrorKind::Io => RetryAdvice::FixEnvironmentAndReopen,
        StorageErrorKind::StoragePoisoned => RetryAdvice::ReopenAndVerify,
        StorageErrorKind::Corruption
        | StorageErrorKind::InvalidLayout
        | StorageErrorKind::IncompatibleFormat
        | StorageErrorKind::Unrecoverable => RetryAdvice::RestoreOrRepair,
        _ => RetryAdvice::DoNotRetry,
    }
}

/// A failure of the engine, without any text, key or value of its origin.
pub open spec fn engine_view(
    kind: StorageErrorKind,
    os_code: Option<i32>,
    operation: Operation,
    protocol_stage: ProtocolStage,
) -> ErrorView {
    detached_error(
        kind,
        operation,
        protocol_stage,
        if operation == Operation::WriteBatch || operation == Operation::Sync {
            Some(WriteOutcome::NotCommitted)
        } else {
            None
        },
        engine_advice(kind),
    ).with_os_code(os_code)
}

pub fn sanitized_storage_error(
    kind: StorageErrorKind,
    os_code: Option<i32>,
    operation: Operation,
    protocol_stage: ProtocolStage,
) -> (error: StorageError)
    ensures
        error@ == engine_view(kind, os_code, operation, protocol_stage),
{
    let retry_advice = match kind {
        StorageErrorKind::InvalidArgument => RetryAdvice::FixRequestAndRetrySameInstance,
        StorageErrorKind::Busy => RetryAdvice::RetrySameInstance,
        StorageErrorKind::Io => RetryAdvice::FixEnvironmentAndReopen,
        StorageErrorKind::StoragePoisoned => RetryAdvice::ReopenAndVerify,
        StorageErrorKind::Corruption
        | StorageErrorKind::InvalidLayout
        | StorageErrorKind::IncompatibleFormat
        | StorageErrorKind::Unrecoverable => RetryAdvice::RestoreOrRepair,
        _ => RetryAdvice::DoNotRetry,
    };
    let write_outcome = if operation == Operation::WriteBatch || operation == Operation::Sync {
        Some(WriteOutcome::NotCommitted)
    } else {
        None
    };
    let mut error = StorageError::codec_error(
        kind,
        operation,
        protocol_stage,
        write_outcome,
        retry_advice,
    );
    error.os_code = os_code;
    error
}

/// An error while the engine is being opened.
pub open spec fn engine_open_view(kind: StorageErrorKind) -> ErrorView {
    engine_view(kind, None, Operation::Open, ProtocolStage::Preflight)
}

pub fn open_existing_error(kind: StorageErrorKind) -> (error: StorageError)
    ensures
        error@ == engine_open_view(kind),
{
    sanitized_storage_error(kind, None, Operation::Open, ProtocolStage::Preflight)
}

/// Options that the engine can be opened with.
pub open spec fn usable_options(options: FjallIndexOptions) -> bool {
    &&& options.write_buffer_size > 0
    &&& options.max_open_files >= MIN_FJALL_OPEN_FILES
    &&& MIN_FJALL_BLOCK_SIZE <= options.block_size <= MAX_FJALL_BLOCK_SIZE
    &&& 0 < options.block_restart_interval <= u8::MAX
    &&& 0 < options.max_file_size <= MAX_FJALL_TABLE_TARGET_SIZE
}

pub fn validate_options(options: &FjallIndexOptions) -> (result: Result<ValidatedOptions>)
    ensures
        match result {
            Ok(validated) => {
                &&& usable_options(*options)
                &&& validated.max_open_files == options.max_open_files
                &&& validated.write_buffer_size == options.write_buffer_size
                &&& validated.block_cache_size == options.block_cache_size
                &&& validated.block_size == options.block_size
                &&& validated.block_restart_interval == options.block_restart_interval
                &&& validated.max_file_size == options.max_file_size
                &&& validated.compression == options.compression
            },
            Err(error) => !usable_options(*options) && error@ == engine_open_view(
                StorageErrorKind::InvalidArgument,
            ),
        },
{
    let max_file_size: u64 = options.max_file_size as u64;
    if options.write_buffer_size == 0 || options.max_open_files < MIN_FJALL_OPEN_FILES
        || options.block_size < MIN_FJALL_BLOCK_SIZE || options.block_size > MAX_FJALL_BLOCK_SIZE
        || options.block_restart_interval == 0 || options.block_restart_interval > 255
        || max_file_size == 0 || max_file_size > MAX_FJALL_TABLE_TARGET_SIZE {
        return Err(open_existing_error(StorageErrorKind::InvalidArgument));
    }
    Ok(
        ValidatedOptions {
            max_open_files: options.max_open_files,
            write_buffer_size: options.write_buffer_size as u64,
            block_cache_size: options.block_cache_size as u64,
            block_size: options.block_size as u32,
            block_restart_interval: options.block_restart_interval as u8,
            max_file_size,
            compression: options.compression,
        },
    )
}

/// What failed in the engine.
#[derive(Clone, Copy, Debug, PartialEq, Eq, Structural)]
pub enum EngineCause {
    Io,
    /// In the tables or in the journal.
    Storage,
    Decompress,
    InvalidTrailer,
    InvalidTag,
    InvalidVersion,
    Poisoned,
    KeyspaceDeleted,
    Locked,
    Unrecoverable,
    Other,
}

/// A failure of the engine: its cause, and whether a failure of the operating system lies below
/// it, with its code.
#[derive(Clone, Copy, Debug)]
pub struct EngineFailure {
    pub cause: EngineCause,
    pub below: Option<Option<i32>>,
}

impl EngineFailure {
    pub open spec fn kind(self) -> StorageErrorKind {
        match self.cause {
            EngineCause::Io => StorageErrorKind::Io,
            EngineCause::Storage => if self.below is Some {
                StorageErrorKind::Io
            } else {
                StorageErrorKind::Corruption
            },
            EngineCause::Decompress | EngineCause::InvalidTrailer | EngineCause::InvalidTag =>
                StorageErrorKind::Corruption,
            EngineCause::InvalidVersion => StorageErrorKind::IncompatibleFormat,
            EngineCause::Poisoned => StorageErrorKind::StoragePoisoned,
            EngineCause::KeyspaceDeleted => StorageErrorKind::InvalidLayout,
            EngineCause::Locked => StorageErrorKind::Busy,
            EngineCause::Unrecoverable | EngineCause::Other => StorageErrorKind::Unrecoverable,
        }
    }

    pub open spec fn code(self) -> Option<i32> {
        match self.below {
            Some(os_code) => os_code,
            None => None,
        }
    }

    fn classify(&self) -> (kind: StorageErrorKind)
        ensures
            kind == self.kind(),
    {
        match self.cause {
            EngineCause::Io => StorageErrorKind::Io,
            EngineCause::Storage => if self.below.is_some() {
                StorageErrorKind::Io
            } else {
                StorageErrorKind::Corruption
            },
            EngineCause::Decompress | EngineCause::InvalidTrailer | EngineCause::InvalidTag =>
                StorageErrorKind::Corruption,
            EngineCause::InvalidVersion => StorageErrorKind::IncompatibleFormat,
            EngineCause::Poisoned => StorageErrorKind::StoragePoisoned,
            EngineCause::KeyspaceDeleted => StorageErrorKind::InvalidLayout,
            EngineCause::Locked => StorageErrorKind::Busy,
            EngineCause::Unrecoverable | EngineCause::Other => StorageErrorKind::Unrecoverable,
        }
    }

    fn os_code(&self) -> (os_code: Option<i32>)
        ensures
            os_code == self.code(),
    {
        match self.below {
            Some(os_code) => os_code,
            None => None,
        }
    }

    pub fn internal_error(&self) -> (error: InternalIndexError)
        ensures
            error == (InternalIndexError { kind: self.kind(), os_code: self.code() }),
    {
        InternalIndexError::new(self.classify(), self.os_code())
    }

    pub fn storage_error(&self, operation: Operation, protocol_stage: ProtocolStage) -> (error:
        StorageError)
        ensures
            error@ == engine_view(self.kind(), self.code(), operation, protocol_stage),
    {
        sanitized_storage_error(self.classify(), self.os_code(), operation, protocol_stage)
    }
}

/// Copies what the engine gave.
pub fn try_copy_bytes(
    memory: &mut Memory,
    bytes: &[u8],
    operation: Operation,
    protocol_stage: ProtocolStage,
) -> (result: Result<Vec<u8>>)
    requires
        !old(memory).refused(),
    ensures
        match result {
            Ok(copy) => !final(memory).refused() && copy@ == bytes@,
            Err(error) => final(memory).refused() && error@ == engine_view(
                StorageErrorKind::ResourceExhausted,
                None,
                operation,
                protocol_stage,
            ),
        },
        asked(*old(memory), *final(memory), 1, bytes@.len()),
{
    match memory.copy(bytes) {
        Some(copy) => Ok(copy),
        None => Err(
            sanitized_storage_error(
                StorageErrorKind::ResourceExhausted,
                None,
                operation,
                protocol_stage,
            ),
        ),
    }
}

/// Checks that an engine has exactly the keyspaces of an index.
pub fn validate_exact_keyspace_names(
    count: usize,
    has_user: bool,
    has_transaction: bool,
    has_system: bool,
) -> (result: Result<()>)
    ensures
        ({
            let exact = count == 3 && has_user && has_transaction && has_system;
            match result {
                Ok(_) => exact,
                Err(error) => !exact && error@ == engine_open_view(
                    StorageErrorKind::InvalidLayout,
                ),
            }
        }),
{
    if count == 3 && has_user && has_transaction && has_system {
        Ok(())
    } else {
        Err(open_existing_error(StorageErrorKind::InvalidLayout))
    }
}

/// A commit that failed before the engine was asked.
pub open spec fn never_applied(source: InternalIndexError) -> IndexCommitError {
    IndexCommitError { apply_state: IndexApplyState::NotApplied, source }
}

/// What has to be seen before a batch may be handed to the engine.
#[derive(Clone, Copy, Debug, PartialEq, Eq, Structural)]
pub enum CommitCheck {
    /// That the index is empty.
    Empty,
    /// That the index has its identity.
    Identity,
}

/// Checks a batch by itself.
pub fn check_batch(batch: &IndexAtomicBatch, mode: IndexCommitMode) -> (result: std::result::Result<
    CommitCheck,
    IndexCommitError,
>)
    ensures
        match result {
            Ok(check) => may_commit(batch@, mode) && check == (
            if is_initialization(batch@) {
                CommitCheck::Empty
            } else {
                CommitCheck::Identity
            }),
            Err(error) => !may_commit(batch@, mode) && error
                == never_applied(
                invalid_index_batch(),
            ),
        },
{
    match batch.validate_for_commit(mode) {
        Ok(_) => {},
        Err(error) => return Err(error),
    }
    if batch.is_database_initialization() {
        Ok(CommitCheck::Empty)
    } else {
        Ok(CommitCheck::Identity)
    }
}

/// Whether something is in the engine, or why that could not be seen.
pub type EngineProbe = std::result::Result<bool, EngineFailure>;

/// The error of a probe that did not find what it should.
pub open spec fn probe_refusal(probe: EngineProbe, wanted: bool) -> Option<IndexCommitError> {
    match probe {
        Err(failure) => Some(
            never_applied(
                InternalIndexError { kind: failure.kind(), os_code: failure.code() },
            ),
        ),
        Ok(found) => if found == wanted {
            None
        } else {
            Some(
                never_applied(
                    InternalIndexError { kind: StorageErrorKind::InvalidLayout, os_code: None },
                ),
            )
        },
    }
}

/// Takes whether a keyspace is empty, or whether the identity is there. A batch is refused, and
/// not applied, where it does not fit.
pub fn check_probe(probe: EngineProbe, wanted: bool) -> (result: std::result::Result<
    (),
    IndexCommitError,
>)
    ensures
        match probe_refusal(probe, wanted) {
            None => result is Ok,
            Some(refusal) => result matches Err(error) && error == refusal,
        },
{
    match probe {
        Err(failure) => Err(IndexCommitError::not_applied(failure.internal_error())),
        Ok(found) => {
            if found == wanted {
                Ok(())
            } else {
                Err(
                    IndexCommitError::not_applied(
                        InternalIndexError::new(StorageErrorKind::InvalidLayout, None),
                    ),
                )
            }
        },
    }
}

/// A keyspace of the engine.
#[derive(Clone, Copy, Debug, PartialEq, Eq, Structural)]
pub enum EngineSpace {
    User,
    Transaction,
    System,
}

/// One operation of the engine: a value under a key, or none.
pub struct EngineOperation {
    pub space: EngineSpace,
    pub key: Vec<u8>,
    pub value: Option<Vec<u8>>,
}

impl EngineOperation {
    /// A keyspace after the operation.
    pub open spec fn applied(&self, space: Map<Seq<u8>, Seq<u8>>) -> Map<Seq<u8>, Seq<u8>> {
        match self.value {
            Some(value) => space.insert(self.key@, value@),
            None => space.remove(self.key@),
        }
    }

    /// The index after the operation.
    pub open spec fn applied_to(&self, index: IndexView) -> IndexView {
        match self.space {
            EngineSpace::User => IndexView { user: self.applied(index.user), ..index },
            EngineSpace::Transaction => IndexView {
                transaction: self.applied(index.transaction),
                ..index
            },
            EngineSpace::System => IndexView { system: self.applied(index.system), ..index },
        }
    }
}

fn engine_space(space: InternalIndexSpace) -> (engine: EngineSpace)
    ensures
        engine == (match space {
            InternalIndexSpace::Transaction => EngineSpace::Transaction,
            InternalIndexSpace::System => EngineSpace::System,
        }),
{
    match space {
        InternalIndexSpace::Transaction => EngineSpace::Transaction,
        InternalIndexSpace::System => EngineSpace::System,
    }
}

/// The operation of the engine that makes a change.
pub fn engine_operation(mutation: IndexMutation) -> (operation: EngineOperation)
    ensures
        forall|index: IndexView| #[trigger]
            operation.applied_to(index) == index.after(mutation@),
{
    match mutation {
        IndexMutation::InitializeDatabaseIdentity { encoded_identity } => {
            let name = database_identity_name();
            EngineOperation {
                space: EngineSpace::System,
                key: copy_bytes(name.as_slice()),
                value: Some(encoded_identity),
            }
        },
        IndexMutation::PutUser { user_key, encoded_pointer } => EngineOperation {
            space: EngineSpace::User,
            key: user_key,
            value: Some(encoded_pointer),
        },
        IndexMutation::DeleteUser { user_key } => EngineOperation {
            space: EngineSpace::User,
            key: user_key,
            value: None,
        },
        IndexMutation::PutInternal { space, key, value } => EngineOperation {
            space: engine_space(space),
            key,
            value: Some(value),
        },
        IndexMutation::DeleteInternal { space, key } => EngineOperation {
            space: engine_space(space),
            key,
            value: None,
        },
    }
}

/// The engine is opened with options exactly where it has a buffer, at least ten files, blocks
/// of one KiB to four MiB, one to two hundred and fifty-five entries between restarts, and a
/// size of its tables that it can multiply by four.
pub proof fn law_engine_options(options: FjallIndexOptions)
    ensures
        usable_options(options) <==> {
            &&& options.write_buffer_size >= 1
            &&& options.max_open_files >= 10
            &&& 1_024 <= options.block_size <= 4 * 1_024 * 1_024
            &&& 1 <= options.block_restart_interval <= 255
            &&& options.max_file_size >= 1
            &&& 4 * options.max_file_size <= u64::MAX
        },
{
}

/// A failure of the engine is one of the operating system exactly where such a failure lies below
/// it or is all that is known, and one of the contents where it is about what was read. Nothing
/// that fails in the engine may simply be tried again but a lock that is held. Only where a write
/// was on its way is the caller told that nothing was committed.
pub proof fn law_engine_failure_is_classified(
    failure: EngineFailure,
    operation: Operation,
    protocol_stage: ProtocolStage,
)
    ensures
        ({
            let kind = failure.kind();
            let told = engine_view(kind, failure.code(), operation, protocol_stage);
            &&& kind == StorageErrorKind::Io <==> failure.cause == EngineCause::Io || (failure.cause
                == EngineCause::Storage && failure.below is Some)
            &&& kind == StorageErrorKind::Corruption <==> (failure.cause == EngineCause::Storage
                && failure.below is None) || failure.cause == EngineCause::Decompress
                || failure.cause == EngineCause::InvalidTrailer || failure.cause
                == EngineCause::InvalidTag
            &&& kind == StorageErrorKind::IncompatibleFormat <==> failure.cause
                == EngineCause::InvalidVersion
            &&& kind == StorageErrorKind::StoragePoisoned <==> failure.cause
                == EngineCause::Poisoned
            &&& kind == StorageErrorKind::InvalidLayout <==> failure.cause
                == EngineCause::KeyspaceDeleted
            &&& kind == StorageErrorKind::Busy <==> failure.cause == EngineCause::Locked
            &&& failure.code() is Some ==> failure.below == Some(failure.code())
            &&& failure.below matches Some(code) ==> failure.code() == code
            &&& told.kind == kind
            &&& told.os_code == failure.code()
            &&& told.operation == operation
            &&& told.protocol_stage == protocol_stage
            &&& told.instance_state is None
            &&& told.write_outcome == (if operation == Operation::WriteBatch || operation
                == Operation::Sync {
                Some(WriteOutcome::NotCommitted)
            } else {
                None
            })
            &&& told.retry_advice == RetryAdvice::RetrySameInstance <==> failure.cause
                == EngineCause::Locked
            &&& told.retry_advice == RetryAdvice::FixEnvironmentAndReopen <==> kind
                == StorageErrorKind::Io
            &&& told.retry_advice == RetryAdvice::ReopenAndVerify <==> failure.cause
                == EngineCause::Poisoned
        }),
{
}

/// A batch is handed to the engine exactly where the engine could be asked and is as the batch
/// wants it. Otherwise nothing of it was applied.
pub proof fn law_batch_wants_its_index(probe: EngineProbe, wanted: bool)
    ensures
        probe_refusal(probe, wanted) is None <==> probe == Ok::<bool, EngineFailure>(wanted),
        probe_refusal(probe, wanted) matches Some(error) ==> {
            &&& error.apply_state == IndexApplyState::NotApplied
            &&& probe matches Err(failure) ==> error.source.kind == failure.kind()
                && error.source.os_code == failure.code()
            &&& probe is Ok ==> error.source.kind == StorageErrorKind::InvalidLayout
                && error.source.os_code is None
        },
{
}

} // verus!
