//! Atomic batches for the index, and what they do to it.

use vstd::prelude::*;

use crate::bytes::{all_zero, same_bytes, zeros};
use crate::commit::metadata::{
    encode_head_seq, DatabaseIdentity, DurableFrontier, DurableVLogEnd, DATABASE_FORMAT_VERSION,
    FORMAT_VERSION, HEAD_SEQ_ENCODED_LEN, KEYSPACE_LAYOUT_VERSION,
};
use crate::error::StorageErrorKind;
use crate::memory::{asked, Memory};

verus! {

/// The keyspaces that hold what the system keeps of itself.
#[derive(Clone, Copy, Debug, PartialEq, Eq, Structural)]
pub enum InternalIndexSpace {
    Transaction,
    System,
}

/// One change of the index.
#[derive(Clone, Debug)]
pub enum IndexMutation {
    InitializeDatabaseIdentity { encoded_identity: Vec<u8> },
    PutUser { user_key: Vec<u8>, encoded_pointer: Vec<u8> },
    DeleteUser { user_key: Vec<u8> },
    PutInternal { space: InternalIndexSpace, key: Vec<u8>, value: Vec<u8> },
    DeleteInternal { space: InternalIndexSpace, key: Vec<u8> },
}

/// A change as a mathematical value.
#[verifier::ext_equal]
pub enum ChangeView {
    InitializeDatabaseIdentity { encoded_identity: Seq<u8> },
    PutUser { user_key: Seq<u8>, encoded_pointer: Seq<u8> },
    DeleteUser { user_key: Seq<u8> },
    PutInternal { space: InternalIndexSpace, key: Seq<u8>, value: Seq<u8> },
    DeleteInternal { space: InternalIndexSpace, key: Seq<u8> },
}

impl View for IndexMutation {
    type V = ChangeView;

    open spec fn view(&self) -> ChangeView {
        match self {
            IndexMutation::InitializeDatabaseIdentity { encoded_identity } =>
                ChangeView::InitializeDatabaseIdentity { encoded_identity: encoded_identity@ },
            IndexMutation::PutUser { user_key, encoded_pointer } => ChangeView::PutUser {
                user_key: user_key@,
                encoded_pointer: encoded_pointer@,
            },
            IndexMutation::DeleteUser { user_key } => ChangeView::DeleteUser {
                user_key: user_key@,
            },
            IndexMutation::PutInternal { space, key, value } => ChangeView::PutInternal {
                space: *space,
                key: key@,
                value: value@,
            },
            IndexMutation::DeleteInternal { space, key } => ChangeView::DeleteInternal {
                space: *space,
                key: key@,
            },
        }
    }
}

pub open spec fn change_views(operations: Seq<IndexMutation>) -> Seq<ChangeView> {
    Seq::new(operations.len(), |i: int| operations[i]@)
}

/// How a batch is committed: into the operating system's buffers, or down to the disk.
#[derive(Clone, Copy, Debug, PartialEq, Eq, Structural)]
pub enum IndexCommitMode {
    Buffer,
    SyncAll,
}

/// What is known of a batch after a failed commit.
#[derive(Clone, Copy, Debug, PartialEq, Eq, Structural)]
pub enum IndexApplyState {
    NotApplied,
    Unknown,
}

/// A failure of the index, without any text, key or value of its origin.
#[derive(Clone, Copy, Debug)]
pub struct InternalIndexError {
    pub kind: StorageErrorKind,
    pub os_code: Option<i32>,
}

impl InternalIndexError {
    pub fn new(kind: StorageErrorKind, os_code: Option<i32>) -> (error: Self)
        ensures
            error == (InternalIndexError { kind, os_code }),
    {
        InternalIndexError { kind, os_code }
    }

    fn invalid_batch() -> (error: Self)
        ensures
            error == invalid_index_batch(),
    {
        InternalIndexError { kind: StorageErrorKind::InvalidArgument, os_code: None }
    }

    fn resource_exhausted() -> (error: Self)
        ensures
            error == index_memory_refused(),
    {
        InternalIndexError { kind: StorageErrorKind::ResourceExhausted, os_code: None }
    }
}

pub open spec fn invalid_index_batch() -> InternalIndexError {
    InternalIndexError { kind: StorageErrorKind::InvalidArgument, os_code: None }
}

pub open spec fn index_memory_refused() -> InternalIndexError {
    InternalIndexError { kind: StorageErrorKind::ResourceExhausted, os_code: None }
}

/// A failed commit of the index.
#[derive(Clone, Copy, Debug)]
pub struct IndexCommitError {
    pub apply_state: IndexApplyState,
    pub source: InternalIndexError,
}

impl IndexCommitError {
    pub fn not_applied(source: InternalIndexError) -> (error: Self)
        ensures
            error == (IndexCommitError { apply_state: IndexApplyState::NotApplied, source }),
    {
        IndexCommitError { apply_state: IndexApplyState::NotApplied, source }
    }

    pub fn unknown(source: InternalIndexError) -> (error: Self)
        ensures
            error == (IndexCommitError { apply_state: IndexApplyState::Unknown, source }),
    {
        IndexCommitError { apply_state: IndexApplyState::Unknown, source }
    }
}

pub type InternalIndexResult<T> = std::result::Result<T, InternalIndexError>;

/// `database_identity`
pub open spec fn database_identity_key() -> Seq<u8> {
    seq![
        0x64u8,
        0x61u8,
        0x74u8,
        0x61u8,
        0x62u8,
        0x61u8,
        0x73u8,
        0x65u8,
        0x5fu8,
        0x69u8,
        0x64u8,
        0x65u8,
        0x6eu8,
        0x74u8,
        0x69u8,
        0x74u8,
        0x79u8,
    ]
}

/// `head_seq`
pub open spec fn head_seq_key() -> Seq<u8> {
    seq![0x68u8, 0x65u8, 0x61u8, 0x64u8, 0x5fu8, 0x73u8, 0x65u8, 0x71u8]
}

/// `durable_frontier`
pub open spec fn durable_frontier_key() -> Seq<u8> {
    seq![
        0x64u8,
        0x75u8,
        0x72u8,
        0x61u8,
        0x62u8,
        0x6cu8,
        0x65u8,
        0x5fu8,
        0x66u8,
        0x72u8,
        0x6fu8,
        0x6eu8,
        0x74u8,
        0x69u8,
        0x65u8,
        0x72u8,
    ]
}

/// `recovery_state`
pub open spec fn recovery_state_key() -> Seq<u8> {
    seq![
        0x72u8,
        0x65u8,
        0x63u8,
        0x6fu8,
        0x76u8,
        0x65u8,
        0x72u8,
        0x79u8,
        0x5fu8,
        0x73u8,
        0x74u8,
        0x61u8,
        0x74u8,
        0x65u8,
    ]
}

pub fn database_identity_name() -> (key: [u8; 17])
    ensures
        key@ == database_identity_key(),
{
    let key: [u8; 17] = [
        0x64,
        0x61,
        0x74,
        0x61,
        0x62,
        0x61,
        0x73,
        0x65,
        0x5f,
        0x69,
        0x64,
        0x65,
        0x6e,
        0x74,
        0x69,
        0x74,
        0x79,
    ];
    proof {
        assert(key@ =~= database_identity_key());
    }
    key
}

pub fn head_seq_name() -> (key: [u8; 8])
    ensures
        key@ == head_seq_key(),
{
    let key: [u8; 8] = [0x68, 0x65, 0x61, 0x64, 0x5f, 0x73, 0x65, 0x71];
    proof {
        assert(key@ =~= head_seq_key());
    }
    key
}

pub fn durable_frontier_name() -> (key: [u8; 16])
    ensures
        key@ == durable_frontier_key(),
{
    let key: [u8; 16] = [
        0x64,
        0x75,
        0x72,
        0x61,
        0x62,
        0x6c,
        0x65,
        0x5f,
        0x66,
        0x72,
        0x6f,
        0x6e,
        0x74,
        0x69,
        0x65,
        0x72,
    ];
    proof {
        assert(key@ =~= durable_frontier_key());
    }
    key
}

pub fn recovery_state_name() -> (key: [u8; 14])
    ensures
        key@ == recovery_state_key(),
{
    let key: [u8; 14] = [
        0x72,
        0x65,
        0x63,
        0x6f,
        0x76,
        0x65,
        0x72,
        0x79,
        0x5f,
        0x73,
        0x74,
        0x61,
        0x74,
        0x65,
    ];
    proof {
        assert(key@ =~= recovery_state_key());
    }
    key
}

/// A key and its neighbour in the system keyspace never meet.
pub proof fn lemma_system_keys_differ()
    ensures
        head_seq_key() != durable_frontier_key(),
        head_seq_key() != recovery_state_key(),
        head_seq_key() != database_identity_key(),
        durable_frontier_key() != recovery_state_key(),
        durable_frontier_key() != database_identity_key(),
        recovery_state_key() != database_identity_key(),
{
    assert(head_seq_key().len() == 8);
    assert(durable_frontier_key().len() == 16);
    assert(recovery_state_key().len() == 14);
    assert(database_identity_key().len() == 17);
}

/// A change that an ordinary batch may hold: it names a key, a put has a value, and the
/// identity of the database is not touched.
pub open spec fn is_ordinary(change: ChangeView) -> bool {
    match change {
        ChangeView::InitializeDatabaseIdentity { .. } => false,
        ChangeView::PutUser { user_key, encoded_pointer } => user_key.len() > 0
            && encoded_pointer.len() > 0,
        ChangeView::DeleteUser { user_key } => user_key.len() > 0,
        ChangeView::PutInternal { space, key, value } => key.len() > 0 && value.len() > 0 && !(
        space == InternalIndexSpace::System && key == database_identity_key()),
        ChangeView::DeleteInternal { space, key } => key.len() > 0 && !(space
            == InternalIndexSpace::System && key == database_identity_key()),
    }
}

fn is_database_identity_key(space: InternalIndexSpace, key: &[u8]) -> (is: bool)
    ensures
        is == (space == InternalIndexSpace::System && key@ == database_identity_key()),
{
    space == InternalIndexSpace::System && same_bytes(key, &database_identity_name())
}

pub fn validate_ordinary_mutation(mutation: &IndexMutation) -> (result: InternalIndexResult<()>)
    ensures
        result == (if is_ordinary(mutation@) {
            Ok::<(), InternalIndexError>(())
        } else {
            Err::<(), InternalIndexError>(invalid_index_batch())
        }),
{
    let ordinary = match mutation {
        IndexMutation::InitializeDatabaseIdentity { .. } => false,
        IndexMutation::PutUser { user_key, encoded_pointer } => user_key.len() > 0
            && encoded_pointer.len() > 0,
        IndexMutation::DeleteUser { user_key } => user_key.len() > 0,
        IndexMutation::PutInternal { space, key, value } => key.len() > 0 && value.len() > 0
            && !is_database_identity_key(*space, key.as_slice()),
        IndexMutation::DeleteInternal { space, key } => key.len() > 0
            && !is_database_identity_key(*space, key.as_slice()),
    };
    if ordinary {
        Ok(())
    } else {
        Err(InternalIndexError::invalid_batch())
    }
}

/// The identity that a new database writes.
pub open spec fn is_initial_identity(encoded: Seq<u8>) -> bool {
    exists|identity: DatabaseIdentity|
        identity.valid() && encoded == #[trigger] identity.encoded()
}

/// The frontier that a new database writes.
pub open spec fn empty_frontier() -> DurableFrontier {
    DurableFrontier { durable_seq: 0, durable_vlog_end: DurableVLogEnd::Empty }
}

fn is_valid_initial_database_identity(encoded: &[u8]) -> (valid: bool)
    ensures
        valid == is_initial_identity(encoded@),
{
    match DatabaseIdentity::decode(encoded) {
        Ok(identity) => {
            proof {
                if identity.database_format_version != DATABASE_FORMAT_VERSION
                    && is_initial_identity(encoded@) {
                    let other = choose|other: DatabaseIdentity|
                        other.valid() && encoded@ == #[trigger] other.encoded();
                    crate::commit::metadata::law_identity_round_trip(identity, other);
                }
            }
            identity.database_format_version == DATABASE_FORMAT_VERSION
        },
        Err(_) => false,
    }
}

pub fn is_encoded_head_seq_zero(encoded: &[u8]) -> (zero: bool)
    ensures
        zero == (encoded@ == zeros(8)),
{
    let length: usize = encoded.len();
    if length != HEAD_SEQ_ENCODED_LEN {
        return false;
    }
    proof {
        assert(encoded@.subrange(0, 8) =~= encoded@);
    }
    all_zero(encoded, 0, length)
}

pub fn is_encoded_empty_durable_frontier(encoded: &[u8]) -> (empty: bool)
    ensures
        empty == (encoded@ == empty_frontier().encoded()),
{
    match DurableFrontier::decode(encoded) {
        Ok(frontier) => {
            proof {
                if encoded@ == empty_frontier().encoded() {
                    crate::commit::metadata::law_frontier_round_trip(frontier, empty_frontier());
                }
            }
            frontier == (DurableFrontier {
                durable_seq: 0,
                durable_vlog_end: DurableVLogEnd::Empty,
            })
        },
        Err(_) => {
            proof {
                assert(empty_frontier().valid());
            }
            false
        },
    }
}

/// The changes that make a new database: its identity, head 0 and the empty frontier.
pub open spec fn initialization(encoded_identity: Seq<u8>) -> Seq<ChangeView> {
    seq![
        ChangeView::InitializeDatabaseIdentity { encoded_identity },
        ChangeView::PutInternal {
            space: InternalIndexSpace::System,
            key: head_seq_key(),
            value: zeros(8),
        },
        ChangeView::PutInternal {
            space: InternalIndexSpace::System,
            key: durable_frontier_key(),
            value: empty_frontier().encoded(),
        },
    ]
}

pub open spec fn is_initialization(changes: Seq<ChangeView>) -> bool {
    exists|encoded_identity: Seq<u8>|
        is_initial_identity(encoded_identity) && changes == #[trigger] initialization(
            encoded_identity,
        )
}

/// A batch that the index may commit: ordinary changes, or the making of a new database, which
/// has to reach the disk.
pub open spec fn may_commit(changes: Seq<ChangeView>, mode: IndexCommitMode) -> bool {
    ||| changes.len() > 0 && forall|i: int|
        0 <= i < changes.len() ==> is_ordinary(#[trigger] changes[i])
    ||| is_initialization(changes) && mode == IndexCommitMode::SyncAll
}

/// Ordered changes for one indivisible commit.
#[derive(Debug)]
pub struct IndexAtomicBatch {
    operations: Vec<IndexMutation>,
}

impl View for IndexAtomicBatch {
    type V = Seq<ChangeView>;

    closed spec fn view(&self) -> Seq<ChangeView> {
        change_views(self.operations@)
    }
}

impl IndexAtomicBatch {
    pub fn new() -> (batch: Self)
        ensures
            batch@ == Seq::<ChangeView>::empty(),
    {
        let batch = IndexAtomicBatch { operations: Vec::new() };
        proof {
            assert(batch@ =~= Seq::<ChangeView>::empty());
        }
        batch
    }

    /// An empty batch with room for so many changes. The room takes one reservation of memory.
    pub fn try_with_capacity(memory: &mut Memory, capacity: usize) -> (result: InternalIndexResult<
        Self,
    >)
        ensures
            final(memory).refused() == (old(memory).refused() || result is Err),
            match result {
                Ok(batch) => batch@ == Seq::<ChangeView>::empty(),
                Err(error) => error == index_memory_refused(),
            },
            asked(*old(memory), *final(memory), 1, capacity as nat),
            capacity == 0 && !old(memory).due_within(1) ==> result is Ok,
    {
        let mut operations: Vec<IndexMutation> = Vec::new();
        if !memory.reserve_exact(&mut operations, capacity) {
            return Err(InternalIndexError::resource_exhausted());
        }
        let batch = IndexAtomicBatch { operations };
        proof {
            assert(batch@ =~= Seq::<ChangeView>::empty());
        }
        Ok(batch)
    }

    /// The one batch that may hold the identity of the database. Whether the keyspaces are
    /// empty is for the index to see.
    pub fn initialize_database(
        memory: &mut Memory,
        encoded_identity: Vec<u8>,
        encoded_head_seq_zero: Vec<u8>,
        encoded_empty_durable_frontier: Vec<u8>,
    ) -> (result: InternalIndexResult<Self>)
        requires
            !old(memory).refused(),
        ensures
            final(memory).refused() ==> (result matches Err(error) && error
                == index_memory_refused()),
            !final(memory).refused() ==> ({
                let fitting = is_initial_identity(encoded_identity@) && encoded_head_seq_zero@
                    == zeros(8) && encoded_empty_durable_frontier@ == empty_frontier().encoded();
                match result {
                    Ok(batch) => fitting && batch@ == initialization(encoded_identity@),
                    Err(error) => !fitting && error == invalid_index_batch(),
                }
            }),
            ({
                let fitting = is_initial_identity(encoded_identity@) && encoded_head_seq_zero@
                    == zeros(8) && encoded_empty_durable_frontier@ == empty_frontier().encoded();
                if fitting {
                    asked(*old(memory), *final(memory), 3, 16)
                } else {
                    *final(memory) == *old(memory)
                }
            }),
    {
        if !is_valid_initial_database_identity(encoded_identity.as_slice())
            || !is_encoded_head_seq_zero(encoded_head_seq_zero.as_slice())
            || !is_encoded_empty_durable_frontier(encoded_empty_durable_frontier.as_slice()) {
            return Err(InternalIndexError::invalid_batch());
        }
        let mut operations: Vec<IndexMutation> = Vec::new();
        if !memory.reserve_exact(&mut operations, 3) {
            return Err(InternalIndexError::resource_exhausted());
        }
        let head_key = match memory.copy(&head_seq_name()) {
            Some(key) => key,
            None => return Err(InternalIndexError::resource_exhausted()),
        };
        let frontier_key = match memory.copy(&durable_frontier_name()) {
            Some(key) => key,
            None => return Err(InternalIndexError::resource_exhausted()),
        };
        let ghost identity = encoded_identity@;
        operations.push(IndexMutation::InitializeDatabaseIdentity { encoded_identity });
        operations.push(
            IndexMutation::PutInternal {
                space: InternalIndexSpace::System,
                key: head_key,
                value: encoded_head_seq_zero,
            },
        );
        operations.push(
            IndexMutation::PutInternal {
                space: InternalIndexSpace::System,
                key: frontier_key,
                value: encoded_empty_durable_frontier,
            },
        );
        let batch = IndexAtomicBatch { operations };
        proof {
            assert(batch@ =~= initialization(identity));
        }
        Ok(batch)
    }

    /// Appends an ordinary change. A refusal leaves the batch as it was.
    pub fn try_push(&mut self, memory: &mut Memory, mutation: IndexMutation) -> (result:
        InternalIndexResult<()>)
        requires
            !old(memory).refused(),
        ensures
            final(memory).refused() ==> result == Err::<(), InternalIndexError>(
                index_memory_refused(),
            ) && final(self)@ == old(self)@,
            !final(memory).refused() ==> if is_ordinary(mutation@) {
                result is Ok && final(self)@ == old(self)@.push(mutation@)
            } else {
                result == Err::<(), InternalIndexError>(invalid_index_batch()) && final(self)@
                    == old(self)@
            },
            if is_ordinary(mutation@) {
                asked(*old(memory), *final(memory), 1, old(self)@.len() + 1)
            } else {
                *final(memory) == *old(memory)
            },
    {
        match validate_ordinary_mutation(&mutation) {
            Ok(_) => {},
            Err(error) => return Err(error),
        }
        if !memory.reserve(&mut self.operations, 1) {
            return Err(InternalIndexError::resource_exhausted());
        }
        let ghost before = self.operations@;
        let ghost pushed = mutation@;
        self.operations.push(mutation);
        proof {
            assert(self@ =~= change_views(before).push(pushed));
        }
        Ok(())
    }

    pub fn operations(&self) -> (operations: &Vec<IndexMutation>)
        ensures
            change_views(operations@) == self@,
    {
        &self.operations
    }

    pub fn into_operations(self) -> (operations: Vec<IndexMutation>)
        ensures
            change_views(operations@) == self@,
    {
        self.operations
    }

    pub fn len(&self) -> (count: usize)
        ensures
            count == self@.len(),
    {
        self.operations.len()
    }

    pub fn is_empty(&self) -> (empty: bool)
        ensures
            empty == (self@.len() == 0),
    {
        self.operations.len() == 0
    }

    pub fn is_database_initialization(&self) -> (is: bool)
        ensures
            is == is_initialization(self@),
    {
        is_initialization_triple(&self.operations)
    }

    /// What every commit checks before it reaches the index.
    pub fn validate_for_commit(&self, mode: IndexCommitMode) -> (result: std::result::Result<
        (),
        IndexCommitError,
    >)
        ensures
            match result {
                Ok(_) => may_commit(self@, mode),
                Err(error) => !may_commit(self@, mode) && error == (IndexCommitError {
                    apply_state: IndexApplyState::NotApplied,
                    source: invalid_index_batch(),
                }),
            },
    {
        let ghost changes = self@;
        let founding = is_initialization_triple(&self.operations);
        proof {
            if founding {
                let identity = choose|identity: Seq<u8>|
                    is_initial_identity(identity) && changes == #[trigger] initialization(
                        identity,
                    );
                assert(!is_ordinary(changes[0]));
            }
        }
        if founding {
            if mode == IndexCommitMode::SyncAll {
                return Ok(());
            }
            return Err(IndexCommitError::not_applied(InternalIndexError::invalid_batch()));
        }
        let mut i: usize = 0;
        while i < self.operations.len()
            invariant
                i <= self.operations@.len(),
                changes == change_views(self.operations@),
                changes == self@,
                !is_initialization(changes),
                forall|k: int| 0 <= k < i ==> is_ordinary(#[trigger] changes[k]),
            decreases self.operations@.len() - i,
        {
            proof {
                assert(changes[i as int] == self.operations@[i as int]@);
            }
            match validate_ordinary_mutation(&self.operations[i]) {
                Ok(_) => {},
                Err(error) => return Err(IndexCommitError::not_applied(error)),
            }
            i = i + 1;
        }
        if self.operations.len() == 0 {
            return Err(IndexCommitError::not_applied(InternalIndexError::invalid_batch()));
        }
        Ok(())
    }
}

impl Default for IndexAtomicBatch {
    fn default() -> (batch: Self)
        ensures
            batch@ == Seq::<ChangeView>::empty(),
    {
        Self::new()
    }
}

fn is_initialization_triple(operations: &Vec<IndexMutation>) -> (is: bool)
    ensures
        is == is_initialization(change_views(operations@)),
{
    let ghost changes = change_views(operations@);
    if operations.len() != 3 {
        proof {
            if is_initialization(changes) {
                let identity = choose|identity: Seq<u8>|
                    is_initial_identity(identity) && changes == #[trigger] initialization(
                        identity,
                    );
                assert(changes.len() == 3);
            }
        }
        return false;
    }
    proof {
        assert(changes[0] == operations@[0]@);
        assert(changes[1] == operations@[1]@);
        assert(changes[2] == operations@[2]@);
        assert forall|identity: Seq<u8>| changes == #[trigger] initialization(identity) implies {
            &&& changes[0] == (ChangeView::InitializeDatabaseIdentity {
                encoded_identity: identity,
            })
            &&& changes[1] == initialization(identity)[1]
            &&& changes[2] == initialization(identity)[2]
        } by {}
    }
    match (&operations[0], &operations[1], &operations[2]) {
        (
            IndexMutation::InitializeDatabaseIdentity { encoded_identity },
            IndexMutation::PutInternal { space: head_space, key: head_key, value: head },
            IndexMutation::PutInternal { space: end_space, key: end_key, value: end },
        ) => {
            let is = *head_space == InternalIndexSpace::System && *end_space
                == InternalIndexSpace::System && is_valid_initial_database_identity(
                encoded_identity.as_slice(),
            ) && same_bytes(head_key.as_slice(), &head_seq_name()) && is_encoded_head_seq_zero(
                head.as_slice(),
            ) && same_bytes(end_key.as_slice(), &durable_frontier_name())
                && is_encoded_empty_durable_frontier(end.as_slice());
            proof {
                if is {
                    assert(changes =~= initialization(encoded_identity@));
                }
            }
            is
        },
        _ => false,
    }
}

/// The batch that makes a new database.
pub fn initialization_batch(memory: &mut Memory, database_format_version: u32, database_uuid: [u8; 16]) -> (result:
    InternalIndexResult<IndexAtomicBatch>)
    requires
        !old(memory).refused(),
    ensures
        final(memory).refused() ==> (result matches Err(error) && error == index_memory_refused()),
        !final(memory).refused() ==> ({
            let identity = DatabaseIdentity {
                identity_format_version: FORMAT_VERSION,
                database_format_version,
                database_uuid,
                keyspace_layout_version: KEYSPACE_LAYOUT_VERSION,
            };
            match result {
                Ok(batch) => identity.valid() && batch@ == initialization(identity.encoded()),
                Err(error) => !identity.valid() && error == invalid_index_batch(),
            }
        }),
        ({
            let identity = DatabaseIdentity {
                identity_format_version: FORMAT_VERSION,
                database_format_version,
                database_uuid,
                keyspace_layout_version: KEYSPACE_LAYOUT_VERSION,
            };
            if identity.valid() {
                asked(*old(memory), *final(memory), 3, 16)
            } else {
                *final(memory) == *old(memory)
            }
        }),
{
    let identity = DatabaseIdentity {
        identity_format_version: FORMAT_VERSION,
        database_format_version,
        database_uuid,
        keyspace_layout_version: KEYSPACE_LAYOUT_VERSION,
    };
    let encoded_identity = match identity.encode() {
        Ok(encoded) => encoded,
        Err(_) => return Err(InternalIndexError::invalid_batch()),
    };
    let frontier = DurableFrontier { durable_seq: 0, durable_vlog_end: DurableVLogEnd::Empty };
    let encoded_frontier = match frontier.encode() {
        Ok(encoded) => encoded,
        Err(_) => return Err(InternalIndexError::invalid_batch()),
    };
    let head = encode_head_seq(0);
    proof {
        assert(crate::bytes::le_bytes(0, 8) =~= zeros(8)) by {
            reveal_with_fuel(crate::bytes::le_bytes, 9);
        }
        assert(is_initial_identity(identity.encoded()));
    }
    IndexAtomicBatch::initialize_database(memory, encoded_identity, head, encoded_frontier)
}

/// What an index holds: pointers by user key, and the two keyspaces of the system.
#[verifier::ext_equal]
pub struct IndexView {
    pub user: Map<Seq<u8>, Seq<u8>>,
    pub transaction: Map<Seq<u8>, Seq<u8>>,
    pub system: Map<Seq<u8>, Seq<u8>>,
}

impl IndexView {
    pub open spec fn empty() -> IndexView {
        IndexView { user: Map::empty(), transaction: Map::empty(), system: Map::empty() }
    }

    /// The index after a change.
    pub open spec fn after(self, change: ChangeView) -> IndexView {
        match change {
            ChangeView::InitializeDatabaseIdentity { encoded_identity } => IndexView {
                system: self.system.insert(database_identity_key(), encoded_identity),
                ..self
            },
            ChangeView::PutUser { user_key, encoded_pointer } => IndexView {
                user: self.user.insert(user_key, encoded_pointer),
                ..self
            },
            ChangeView::DeleteUser { user_key } => IndexView {
                user: self.user.remove(user_key),
                ..self
            },
            ChangeView::PutInternal { space, key, value } => match space {
                InternalIndexSpace::Transaction => IndexView {
                    transaction: self.transaction.insert(key, value),
                    ..self
                },
                InternalIndexSpace::System => IndexView {
                    system: self.system.insert(key, value),
                    ..self
                },
            },
            ChangeView::DeleteInternal { space, key } => match space {
                InternalIndexSpace::Transaction => IndexView {
                    transaction: self.transaction.remove(key),
                    ..self
                },
                InternalIndexSpace::System => IndexView {
                    system: self.system.remove(key),
                    ..self
                },
            },
        }
    }

    /// The index after the changes of a batch, in their order.
    pub open spec fn after_all(self, changes: Seq<ChangeView>) -> IndexView
        decreases changes.len(),
    {
        if changes.len() == 0 {
            self
        } else {
            self.after_all(changes.drop_last()).after(changes.last())
        }
    }
}

/// Changes that follow each other act one after the other.
pub proof fn lemma_after_concatenation(index: IndexView, a: Seq<ChangeView>, b: Seq<ChangeView>)
    ensures
        index.after_all(a + b) == index.after_all(a).after_all(b),
    decreases b.len(),
{
    if b.len() == 0 {
        assert(a + b =~= a);
    } else {
        assert((a + b).drop_last() =~= a + b.drop_last());
        lemma_after_concatenation(index, a, b.drop_last());
    }
}

/// No ordinary change touches the identity of the database.
pub proof fn law_ordinary_changes_keep_identity(index: IndexView, changes: Seq<ChangeView>)
    requires
        forall|i: int| 0 <= i < changes.len() ==> is_ordinary(#[trigger] changes[i]),
    ensures
        ({
            let key = database_identity_key();
            let after = index.after_all(changes).system;
            &&& after.dom().contains(key) == index.system.dom().contains(key)
            &&& index.system.dom().contains(key) ==> after[key] == index.system[key]
        }),
    decreases changes.len(),
{
    if changes.len() > 0 {
        law_ordinary_changes_keep_identity(index, changes.drop_last());
        assert(is_ordinary(changes[changes.len() - 1]));
    }
}

/// An ordinary batch may hold every change of a user's key and of the index's own entries, as
/// long as it names a key and gives a value where it puts one. Only the identity of the database
/// is out of its reach.
pub proof fn law_ordinary_changes(change: ChangeView)
    ensures
        is_ordinary(change) <==> match change {
            ChangeView::InitializeDatabaseIdentity { .. } => false,
            ChangeView::PutUser { user_key, encoded_pointer } => user_key.len() >= 1
                && encoded_pointer.len() >= 1,
            ChangeView::DeleteUser { user_key } => user_key.len() >= 1,
            ChangeView::PutInternal { space, key, value } => key.len() >= 1 && value.len() >= 1 && (
            space == InternalIndexSpace::Transaction || key != database_identity_key()),
            ChangeView::DeleteInternal { space, key } => key.len() >= 1 && (space
                == InternalIndexSpace::Transaction || key != database_identity_key()),
        },
{
}

/// What a change does to the index can be read back: the key that it names holds what it says,
/// and nothing else of the index is different.
pub proof fn law_change_can_be_read_back(index: IndexView, change: ChangeView, other: Seq<u8>)
    ensures
        ({
            let after = index.after(change);
            let same = |a: Map<Seq<u8>, Seq<u8>>, b: Map<Seq<u8>, Seq<u8>>|
                a.dom().contains(other) == b.dom().contains(other) && (a.dom().contains(other)
                    ==> a[other] == b[other]);
            match change {
                ChangeView::InitializeDatabaseIdentity { encoded_identity } => {
                    &&& after.system.dom().contains(database_identity_key())
                    &&& after.system[database_identity_key()] == encoded_identity
                    &&& other != database_identity_key() ==> same(after.system, index.system)
                    &&& after.user == index.user && after.transaction == index.transaction
                },
                ChangeView::PutUser { user_key, encoded_pointer } => {
                    &&& after.user.dom().contains(user_key)
                    &&& after.user[user_key] == encoded_pointer
                    &&& other != user_key ==> same(after.user, index.user)
                    &&& after.system == index.system && after.transaction == index.transaction
                },
                ChangeView::DeleteUser { user_key } => {
                    &&& !after.user.dom().contains(user_key)
                    &&& other != user_key ==> same(after.user, index.user)
                    &&& after.system == index.system && after.transaction == index.transaction
                },
                ChangeView::PutInternal { space, key, value } => {
                    let (now, before) = if space == InternalIndexSpace::System {
                        (after.system, index.system)
                    } else {
                        (after.transaction, index.transaction)
                    };
                    &&& now.dom().contains(key) && now[key] == value
                    &&& other != key ==> same(now, before)
                    &&& after.user == index.user
                    &&& space == InternalIndexSpace::System ==> after.transaction
                        == index.transaction
                    &&& space == InternalIndexSpace::Transaction ==> after.system == index.system
                },
                ChangeView::DeleteInternal { space, key } => {
                    let (now, before) = if space == InternalIndexSpace::System {
                        (after.system, index.system)
                    } else {
                        (after.transaction, index.transaction)
                    };
                    &&& !now.dom().contains(key)
                    &&& other != key ==> same(now, before)
                    &&& after.user == index.user
                    &&& space == InternalIndexSpace::System ==> after.transaction
                        == index.transaction
                    &&& space == InternalIndexSpace::Transaction ==> after.system == index.system
                },
            }
        }),
{
}

/// A new database is made in one commit that has to reach the disk, and its index then holds its
/// identity, the head in front of the first commit and the frontier in front of it.
pub proof fn law_new_index_holds_its_identity(encoded_identity: Seq<u8>)
    requires
        is_initial_identity(encoded_identity),
    ensures
        ({
            let changes = initialization(encoded_identity);
            let index = IndexView::empty().after_all(changes);
            &&& may_commit(changes, IndexCommitMode::SyncAll)
            &&& !may_commit(changes, IndexCommitMode::Buffer)
            &&& index.user == Map::<Seq<u8>, Seq<u8>>::empty()
            &&& index.transaction == Map::<Seq<u8>, Seq<u8>>::empty()
            &&& index.system == Map::<Seq<u8>, Seq<u8>>::empty().insert(
                database_identity_key(),
                encoded_identity,
            ).insert(head_seq_key(), zeros(8)).insert(
                durable_frontier_key(),
                empty_frontier().encoded(),
            )
        }),
{
    let changes = initialization(encoded_identity);
    assert(is_initialization(changes));
    assert(!is_ordinary(changes[0]));
    reveal_with_fuel(IndexView::after_all, 4);
    assert(changes.drop_last() =~= seq![changes[0], changes[1]]);
    assert(changes.drop_last().drop_last() =~= seq![changes[0]]);
    assert(changes.drop_last().drop_last().drop_last() =~= Seq::empty());
}

/// A batch that cannot be made is told apart from one for which there is no memory. Neither comes
/// from the operating system.
pub proof fn law_batch_that_cannot_be_made()
    ensures
        invalid_index_batch().kind == StorageErrorKind::InvalidArgument,
        index_memory_refused().kind == StorageErrorKind::ResourceExhausted,
        invalid_index_batch().os_code is None && index_memory_refused().os_code is None,
{
}

} // verus!
