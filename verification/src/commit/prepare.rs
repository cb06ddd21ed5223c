//! Preparing a commit: the envelope for the log and the batch for the index.

use vstd::prelude::*;

use crate::batch::{OperationView, MAX_KEY_VALUE_SIZE};
use crate::bytes::le_bytes;
use crate::commit::descriptor::{
    encode_descriptor, entry_views, keys_distinct, lemma_meta_layout, lemma_mutation_length,
    mutation_views, state_fits, DescriptorView, EncodedDescriptor, EncodedView, EntryView, MetaView,
    MutationView, TransactionDescriptor, TxMeta, TxMutation, ValueState, MAX_TX_MUTATION_LEN,
};
use crate::commit::metadata::{
    encode_head_seq, lemma_tx_meta_key, lemma_tx_mutation_key, next_commit_seq, CommitSeq,
};
use crate::commit::preflight::{
    are_ordinals, byte_views, distinct_keys, first_refusal, invalid_argument,
    law_keys_of_a_write, operation_refusal, permanent_capacity_exceeded, permanent_capacity_view,
    preflight_view, resource_exhausted, write_invalid_view, write_memory_view, ValidatedWrite,
    WriteView,
};
use crate::error::{
    plain_error, ErrorView, InstanceState, Operation, ProtocolStage, Result, RetryAdvice,
    StorageError, StorageErrorKind, WriteOutcome,
};
use crate::index::batch::{
    database_identity_key, head_seq_key, head_seq_name, is_ordinary, ChangeView, IndexAtomicBatch,
    IndexMutation, InternalIndexError, InternalIndexSpace,
};
use crate::io_failure::IoFailure;
use crate::memory::{asked, asked_within, Memory};
use crate::vlog::envelope::{
    envelope, envelope_most, envelope_reservations, lemma_planned_all, operation_fits,
    operation_length, planned_all, prepare_envelope, value_pointer, EnvelopeView,
    PreparedEnvelope, TransactionView,
};
use crate::vlog::geometry::{invalid_vlog_view, VLogGeometry, VLogPosition};
use crate::vlog::header::{is_identifier, is_nonzero_uuid};
use crate::vlog::layout::{can_go_on, LayoutPlanner};
use crate::vlog::pointer::{
    law_pointer_round_trip, lemma_pointer_layout, pointer_error, ValuePointer,
};

verus! {

/// An error as the preparation of a write sees it.
pub open spec fn remapped_preflight(error: ErrorView, operation: Operation) -> ErrorView {
    let (instance_state, retry_advice) = match error.kind {
        StorageErrorKind::ResourceExhausted => (
            InstanceState::Healthy,
            RetryAdvice::RetrySameInstance,
        ),
        StorageErrorKind::Corruption | StorageErrorKind::InvalidLayout => (
            InstanceState::Poisoned,
            RetryAdvice::RestoreOrRepair,
        ),
        StorageErrorKind::IncompatibleFormat => (
            InstanceState::Poisoned,
            RetryAdvice::DoNotRetry,
        ),
        StorageErrorKind::CapacityExceeded => (
            InstanceState::Healthy,
            if error.retry_advice == RetryAdvice::DoNotRetry {
                RetryAdvice::DoNotRetry
            } else {
                RetryAdvice::FixRequestAndRetrySameInstance
            },
        ),
        _ => (InstanceState::Healthy, RetryAdvice::FixRequestAndRetrySameInstance),
    };
    in_state_view(error.kind, operation, instance_state, retry_advice, error.os_code)
}

/// A refusal while an instance in some state looks at a write.
pub open spec fn in_state_view(
    kind: StorageErrorKind,
    operation: Operation,
    instance_state: InstanceState,
    retry_advice: RetryAdvice,
    os_code: Option<i32>,
) -> ErrorView {
    plain_error(
        kind,
        operation,
        ProtocolStage::Preflight,
        Some(WriteOutcome::NotCommitted),
        Some(instance_state),
        retry_advice,
    ).with_os_code(os_code)
}

fn in_state(
    kind: StorageErrorKind,
    operation: Operation,
    instance_state: InstanceState,
    retry_advice: RetryAdvice,
    os_code: Option<i32>,
) -> (error: StorageError)
    ensures
        error@ == in_state_view(kind, operation, instance_state, retry_advice, os_code),
{
    let mut error = StorageError::write_preflight_in_state(
        kind,
        operation,
        instance_state,
        retry_advice,
    );
    error.os_code = os_code;
    error
}

fn remap_preflight(error: StorageError, operation: Operation) -> (mapped: StorageError)
    ensures
        mapped@ == remapped_preflight(error@, operation),
{
    let (instance_state, retry_advice) = match error.kind {
        StorageErrorKind::ResourceExhausted => (
            InstanceState::Healthy,
            RetryAdvice::RetrySameInstance,
        ),
        StorageErrorKind::Corruption | StorageErrorKind::InvalidLayout => (
            InstanceState::Poisoned,
            RetryAdvice::RestoreOrRepair,
        ),
        StorageErrorKind::IncompatibleFormat => (
            InstanceState::Poisoned,
            RetryAdvice::DoNotRetry,
        ),
        StorageErrorKind::CapacityExceeded => if error.retry_advice == RetryAdvice::DoNotRetry {
            (InstanceState::Healthy, RetryAdvice::DoNotRetry)
        } else {
            (InstanceState::Healthy, RetryAdvice::FixRequestAndRetrySameInstance)
        },
        _ => (InstanceState::Healthy, RetryAdvice::FixRequestAndRetrySameInstance),
    };
    in_state(error.kind, operation, instance_state, retry_advice, error.os_code)
}

/// A failed read of the index as the preparation of a write sees it.
pub open spec fn remapped_index_read(error: ErrorView, operation: Operation) -> ErrorView {
    let (instance_state, retry_advice) = match error.kind {
        StorageErrorKind::ResourceExhausted | StorageErrorKind::Busy => (
            InstanceState::Healthy,
            RetryAdvice::RetrySameInstance,
        ),
        StorageErrorKind::StorageWriteStopped => (
            InstanceState::WriteStopped,
            RetryAdvice::FixEnvironmentAndReopen,
        ),
        StorageErrorKind::Io | StorageErrorKind::StoragePoisoned => (
            InstanceState::Poisoned,
            RetryAdvice::ReopenAndVerify,
        ),
        StorageErrorKind::Corruption
        | StorageErrorKind::InvalidLayout
        | StorageErrorKind::Unrecoverable => (
            InstanceState::Poisoned,
            RetryAdvice::RestoreOrRepair,
        ),
        _ => (InstanceState::Poisoned, RetryAdvice::DoNotRetry),
    };
    in_state_view(error.kind, operation, instance_state, retry_advice, error.os_code)
}

pub fn remap_index_read(error: StorageError, operation: Operation) -> (mapped: StorageError)
    ensures
        mapped@ == remapped_index_read(error@, operation),
{
    let (instance_state, retry_advice) = match error.kind {
        StorageErrorKind::ResourceExhausted | StorageErrorKind::Busy => (
            InstanceState::Healthy,
            RetryAdvice::RetrySameInstance,
        ),
        StorageErrorKind::StorageWriteStopped => (
            InstanceState::WriteStopped,
            RetryAdvice::FixEnvironmentAndReopen,
        ),
        StorageErrorKind::Io | StorageErrorKind::StoragePoisoned => (
            InstanceState::Poisoned,
            RetryAdvice::ReopenAndVerify,
        ),
        StorageErrorKind::Corruption
        | StorageErrorKind::InvalidLayout
        | StorageErrorKind::Unrecoverable => (
            InstanceState::Poisoned,
            RetryAdvice::RestoreOrRepair,
        ),
        _ => (InstanceState::Poisoned, RetryAdvice::DoNotRetry),
    };
    in_state(error.kind, operation, instance_state, retry_advice, error.os_code)
}

/// A pointer in the index that cannot be right.
pub open spec fn stored_pointer_view(kind: StorageErrorKind, operation: Operation) -> ErrorView {
    in_state_view(
        kind,
        operation,
        InstanceState::Poisoned,
        if kind == StorageErrorKind::IncompatibleFormat {
            RetryAdvice::DoNotRetry
        } else {
            RetryAdvice::RestoreOrRepair
        },
        None,
    )
}

fn stored_pointer_error(kind: StorageErrorKind, operation: Operation) -> (error: StorageError)
    ensures
        error@ == stored_pointer_view(kind, operation),
{
    let retry_advice = if kind == StorageErrorKind::IncompatibleFormat {
        RetryAdvice::DoNotRetry
    } else {
        RetryAdvice::RestoreOrRepair
    };
    in_state(kind, operation, InstanceState::Poisoned, retry_advice, None)
}

/// The state that the index holds for a key: absent, or the pointer that it stores.
pub open spec fn stored_state(stored: Option<Seq<u8>>, key: Seq<u8>, operation: Operation) -> std::result::Result<
    ValueState,
    ErrorView,
> {
    match stored {
        None => Ok(ValueState::Absent),
        Some(bytes) => if exists|pointer: ValuePointer|
            pointer.valid() && bytes == #[trigger] pointer.encoded() {
            let pointer = choose|pointer: ValuePointer|
                pointer.valid() && bytes == #[trigger] pointer.encoded();
            if pointer.record_layout().key_len == key.len() {
                Ok(ValueState::Present(pointer))
            } else {
                Err(stored_pointer_view(StorageErrorKind::Corruption, operation))
            }
        } else {
            Err(stored_pointer_view(pointer_error(bytes), operation))
        },
    }
}

pub open spec fn opt_bytes(stored: Option<Vec<u8>>) -> Option<Seq<u8>> {
    match stored {
        Some(bytes) => Some(bytes@),
        None => None,
    }
}

/// What the index holds for a key, from what it was asked.
pub fn decode_before_state(stored: Option<Vec<u8>>, key: &[u8], operation: Operation) -> (result: Result<
    ValueState,
>)
    ensures
        match stored_state(opt_bytes(stored), key@, operation) {
            Ok(state) => result matches Ok(found) && found == state && state_fits(
                state,
                key@.len(),
            ),
            Err(refusal) => result matches Err(error) && error@ == refusal,
        },
{
    let bytes = match stored {
        Some(bytes) => bytes,
        None => return Ok(ValueState::Absent),
    };
    let pointer = match ValuePointer::decode(bytes.as_slice()) {
        Ok(pointer) => pointer,
        Err(error) => return Err(stored_pointer_error(error.kind, operation)),
    };
    proof {
        let other = choose|other: ValuePointer|
            other.valid() && bytes@ == #[trigger] other.encoded();
        crate::vlog::pointer::law_pointer_round_trip(pointer, other);
    }
    let layout = match pointer.layout() {
        Ok(layout) => layout,
        Err(error) => return Err(stored_pointer_error(error.kind, operation)),
    };
    if layout.key_len as usize != key.len() {
        return Err(stored_pointer_error(StorageErrorKind::Corruption, operation));
    }
    Ok(ValueState::Present(pointer))
}

/// Sixteen random bytes as an identifier of the random kind.
pub open spec fn versioned(random: Seq<u8>) -> Seq<u8> {
    random.update(6, (random[6] & 0x0f) | 0x40).update(8, (random[8] & 0x3f) | 0x80)
}

/// Makes random bytes an identifier, which is never zero.
pub fn tx_uuid_of(random: [u8; 16]) -> (tx_uuid: [u8; 16])
    ensures
        tx_uuid@ == versioned(random@),
        is_identifier(tx_uuid@),
{
    let mut tx_uuid: [u8; 16] = random;
    let sixth: u8 = random[6];
    let eighth: u8 = random[8];
    tx_uuid[6] = (sixth & 0x0f) | 0x40;
    tx_uuid[8] = (eighth & 0x3f) | 0x80;
    proof {
        assert((sixth & 0x0f) | 0x40 != 0) by (bit_vector);
        assert(tx_uuid@ =~= versioned(random@));
        assert(tx_uuid@[6] != 0);
        assert(crate::bytes::zeros(16)[6] == 0);
    }
    tx_uuid
}

/// The state of a key after operations, from the state before. The last operation on the key
/// decides.
pub open spec fn state_after(
    operations: Seq<OperationView>,
    pointers: Seq<Option<ValuePointer>>,
    key: Seq<u8>,
    before: ValueState,
) -> ValueState
    decreases operations.len(),
{
    if operations.len() == 0 {
        before
    } else if operations.last().key() == key {
        match pointers[operations.len() - 1] {
            Some(pointer) => ValueState::Present(pointer),
            None => ValueState::Absent,
        }
    } else {
        state_after(operations.drop_last(), pointers, key, before)
    }
}

/// The keys of a write with their states before and after it.
pub open spec fn key_plans(
    operations: Seq<OperationView>,
    before: Seq<ValueState>,
    pointers: Seq<Option<ValuePointer>>,
) -> Seq<MutationView> {
    Seq::new(
        distinct_keys(operations).len(),
        |i: int|
            MutationView {
                user_key: distinct_keys(operations)[i],
                before_state: before[i],
                after_state: state_after(
                    operations,
                    pointers,
                    distinct_keys(operations)[i],
                    before[i],
                ),
            },
    )
}

/// What a commit changes for the users of the index.
pub open spec fn user_changes(plans: Seq<MutationView>) -> Seq<ChangeView> {
    Seq::new(
        plans.len(),
        |i: int|
            match plans[i].after_state {
                ValueState::Absent => ChangeView::DeleteUser { user_key: plans[i].user_key },
                ValueState::Present(pointer) => ChangeView::PutUser {
                    user_key: plans[i].user_key,
                    encoded_pointer: pointer.encoded(),
                },
            },
    )
}

/// What a commit keeps of itself in the index.
pub open spec fn record_changes(encoded: EncodedView, commit_seq: CommitSeq) -> Seq<ChangeView> {
    seq![
        ChangeView::PutInternal {
            space: InternalIndexSpace::Transaction,
            key: encoded.meta_key,
            value: encoded.meta_value,
        },
    ] + entry_changes(encoded.mutations) + seq![
        ChangeView::PutInternal {
            space: InternalIndexSpace::System,
            key: head_seq_key(),
            value: le_bytes(commit_seq as nat, 8),
        },
    ]
}

pub open spec fn entry_changes(entries: Seq<EntryView>) -> Seq<ChangeView> {
    Seq::new(
        entries.len(),
        |i: int|
            ChangeView::PutInternal {
                space: InternalIndexSpace::Transaction,
                key: entries[i].key,
                value: entries[i].value,
            },
    )
}

/// A commit that is ready to be written.
#[derive(Debug)]
pub struct PreparedCommit {
    pub commit_seq: CommitSeq,
    pub tx_uuid: [u8; 16],
    pub vlog_begin: VLogPosition,
    pub vlog_end: VLogPosition,
    pub envelope: PreparedEnvelope,
    pub index_batch: IndexAtomicBatch,
    pub sync: bool,
}

/// A prepared commit as a mathematical value.
#[verifier::ext_equal]
pub struct PreparedView {
    pub commit_seq: CommitSeq,
    pub tx_uuid: Seq<u8>,
    pub vlog_begin: VLogPosition,
    pub vlog_end: VLogPosition,
    pub envelope: EnvelopeView,
    pub index_batch: Seq<ChangeView>,
    pub sync: bool,
}

impl View for PreparedCommit {
    type V = PreparedView;

    open spec fn view(&self) -> PreparedView {
        PreparedView {
            commit_seq: self.commit_seq,
            tx_uuid: self.tx_uuid@,
            vlog_begin: self.vlog_begin,
            vlog_end: self.vlog_end,
            envelope: self.envelope@,
            index_batch: self.index_batch@,
            sync: self.sync,
        }
    }
}

/// What a commit is prepared from.
pub struct CommitInputs {
    pub write: WriteView,
    pub database_uuid: Seq<u8>,
    pub head_seq: CommitSeq,
    pub before_states: Seq<ValueState>,
    pub append_cursor: VLogPosition,
    pub geometry: VLogGeometry,
    pub tx_uuid: Seq<u8>,
}

impl CommitInputs {
    pub open spec fn valid(self) -> bool {
        &&& self.write.valid()
        &&& is_identifier(self.database_uuid)
        &&& self.head_seq < u64::MAX
        &&& is_identifier(self.tx_uuid)
        &&& self.before_states.len() == distinct_keys(self.write.operations).len()
        &&& forall|i: int|
            0 <= i < self.before_states.len() ==> state_fits(
                #[trigger] self.before_states[i],
                distinct_keys(self.write.operations)[i].len(),
            )
    }

    pub open spec fn transaction(self) -> TransactionView {
        TransactionView {
            database_uuid: self.database_uuid,
            commit_seq: (self.head_seq + 1) as u64,
            tx_uuid: self.tx_uuid,
            operations: self.write.operations,
        }
    }

    pub open spec fn plans(self, written: EnvelopeView) -> Seq<MutationView> {
        key_plans(self.write.operations, self.before_states, written.value_pointers)
    }

    /// The descriptor of the commit, once its envelope is laid out.
    pub open spec fn descriptor(self, written: EnvelopeView) -> DescriptorView {
        DescriptorView {
            meta: MetaView {
                commit_seq: (self.head_seq + 1) as u64,
                tx_uuid: self.tx_uuid,
                prev_seq: self.head_seq,
                vlog_begin: written.vlog_begin,
                vlog_end: written.vlog_end,
                logical_op_count: self.write.operations.len() as u64,
                distinct_key_count: self.plans(written).len() as u64,
                envelope_crc32c: written.envelope_crc32c,
            },
            mutations: self.plans(written),
        }
    }

    /// The commit, or why it cannot be prepared.
    pub open spec fn prepared(self) -> std::result::Result<PreparedView, ErrorView> {
        let operation = self.write.public_operation;
        if !(self.geometry.valid() && can_go_on(self.geometry, self.append_cursor)) {
            Err(
                remapped_preflight(
                    invalid_vlog_view(StorageErrorKind::InvalidArgument),
                    operation,
                ),
            )
        } else {
            match envelope(self.geometry, self.append_cursor, self.transaction()) {
                Err(refusal) => Err(remapped_preflight(refusal, operation)),
                Ok(written) => Ok(
                    PreparedView {
                        commit_seq: (self.head_seq + 1) as u64,
                        tx_uuid: self.tx_uuid,
                        vlog_begin: written.vlog_begin,
                        vlog_end: written.vlog_end,
                        envelope: written,
                        index_batch: user_changes(self.plans(written)) + record_changes(
                            self.descriptor(written).encoded(),
                            (self.head_seq + 1) as u64,
                        ),
                        sync: self.write.sync,
                    },
                ),
            }
        }
    }
}

/// A checked write has keys of a fitting length.
pub proof fn lemma_operation_fits(operations: Seq<OperationView>, operation: Operation, i: int)
    requires
        first_refusal(operations, operation) is None,
        0 <= i < operations.len(),
    ensures
        operation_refusal(operations[i], operation) is None,
        operation_fits(operations[i]),
        1 <= operations[i].key().len() <= MAX_KEY_VALUE_SIZE,
    decreases operations.len(),
{
    if i < operations.len() - 1 {
        lemma_operation_fits(operations.drop_last(), operation, i);
    }
}

/// The pointer to the record of a put fits its key.
pub proof fn lemma_pointer_fits(inputs: CommitInputs, written: EnvelopeView, i: int)
    requires
        inputs.valid(),
        inputs.geometry.valid(),
        can_go_on(inputs.geometry, inputs.append_cursor),
        envelope(inputs.geometry, inputs.append_cursor, inputs.transaction()) == Ok::<
            EnvelopeView,
            ErrorView,
        >(written),
        0 <= i < inputs.write.operations.len(),
    ensures
        written.value_pointers.len() == inputs.write.operations.len(),
        written.value_pointers[i] is Some == (inputs.write.operations[i] is Put),
        written.value_pointers[i] matches Some(pointer) ==> state_fits(
            ValueState::Present(pointer),
            inputs.write.operations[i].key().len(),
        ),
        written.vlog_begin.valid(),
        written.vlog_end.valid(),
        crate::vlog::geometry::position_before(written.vlog_begin, written.vlog_end),
{
    let t = inputs.transaction();
    let lengths = t.lengths();
    let (plans, end) = planned_all(inputs.geometry, inputs.append_cursor, lengths)->Ok_0;
    lemma_planned_all(inputs.geometry, inputs.append_cursor, lengths);
    lemma_operation_fits(inputs.write.operations, inputs.write.public_operation, i);
    assert(written.value_pointers[i] == value_pointer(plans[i + 1], t.operations[i]));
    assert(lengths[i + 1] == operation_length(t.operations[i]));
    assert(plans[i + 1].encoded_len == lengths[i + 1]);
}

/// The state of a key after operations fits the key.
proof fn lemma_state_after_fits(
    operations: Seq<OperationView>,
    pointers: Seq<Option<ValuePointer>>,
    key: Seq<u8>,
    before: ValueState,
)
    requires
        state_fits(before, key.len()),
        pointers.len() >= operations.len(),
        forall|i: int|
            0 <= i < operations.len() ==> ((#[trigger] pointers[i]) matches Some(pointer)
                ==> state_fits(ValueState::Present(pointer), operations[i].key().len())),
    ensures
        state_fits(state_after(operations, pointers, key, before), key.len()),
    decreases operations.len(),
{
    if operations.len() > 0 && operations.last().key() != key {
        lemma_state_after_fits(operations.drop_last(), pointers, key, before);
    } else if operations.len() > 0 {
        assert(pointers[operations.len() - 1] matches Some(pointer) ==> state_fits(
            ValueState::Present(pointer),
            operations[operations.len() - 1].key().len(),
        ));
    }
}

/// What a commit records of itself is a transaction that can be read again.
pub proof fn law_prepared_descriptor_is_valid(inputs: CommitInputs, written: EnvelopeView)
    requires
        inputs.valid(),
        inputs.geometry.valid(),
        can_go_on(inputs.geometry, inputs.append_cursor),
        envelope(inputs.geometry, inputs.append_cursor, inputs.transaction()) == Ok::<
            EnvelopeView,
            ErrorView,
        >(written),
    ensures
        inputs.descriptor(written).valid(),
{
    let operations = inputs.write.operations;
    let plans = inputs.plans(written);
    let keys = distinct_keys(operations);
    law_keys_of_a_write(operations);
    lemma_pointer_fits(inputs, written, 0);
    assert(keys.len() > 0) by {
        assert(operations[0].key() == operations[0].key());
        assert(keys.contains(operations[0].key()));
    }
    assert forall|i: int| 0 <= i < operations.len() implies ((
    #[trigger] written.value_pointers[i]) matches Some(pointer) ==> state_fits(
        ValueState::Present(pointer),
        operations[i].key().len(),
    )) by {
        lemma_pointer_fits(inputs, written, i);
    }
    assert forall|k: int| 0 <= k < plans.len() implies (#[trigger] plans[k]).valid() by {
        let key = keys[k];
        assert(keys.contains(key));
        let i = choose|i: int| 0 <= i < operations.len() && (#[trigger] operations[i]).key() == key;
        lemma_operation_fits(operations, inputs.write.public_operation, i);
        assert(state_fits(inputs.before_states[k], keys[k].len()));
        lemma_state_after_fits(
            operations,
            written.value_pointers,
            key,
            inputs.before_states[k],
        );
    }
    assert(keys_distinct(plans)) by {
        assert forall|a: int, b: int| 0 <= a < b < plans.len() implies (
        #[trigger] plans[a]).user_key != (#[trigger] plans[b]).user_key by {
            assert(keys[a] != keys[b]);
        }
    }
}

/// A commit that is being prepared: the states of its keys are read one after the other.
pub struct CommitDraft<'w, 'a> {
    write: &'w ValidatedWrite<'a>,
    database_uuid: [u8; 16],
    head_seq: CommitSeq,
    before_states: Vec<ValueState>,
}

/// How far a draft has come.
#[verifier::ext_equal]
pub struct DraftView {
    pub write: WriteView,
    pub database_uuid: Seq<u8>,
    pub head_seq: CommitSeq,
    pub before_states: Seq<ValueState>,
}

impl View for CommitDraft<'_, '_> {
    type V = DraftView;

    closed spec fn view(&self) -> DraftView {
        DraftView {
            write: self.write@,
            database_uuid: self.database_uuid@,
            head_seq: self.head_seq,
            before_states: self.before_states@,
        }
    }
}

impl<'w, 'a> CommitDraft<'w, 'a> {
    #[verifier::type_invariant]
    spec fn well_formed(&self) -> bool {
        &&& self.write@.valid()
        &&& is_identifier(self.database_uuid@)
        &&& self.head_seq < u64::MAX
        &&& self.before_states@.len() <= distinct_keys(self.write@.operations).len()
        &&& forall|i: int|
            0 <= i < self.before_states@.len() ==> state_fits(
                #[trigger] self.before_states@[i],
                distinct_keys(self.write@.operations)[i].len(),
            )
    }

    /// Begins a commit behind the last one.
    pub fn begin(
        memory: &mut Memory,
        write: &'w ValidatedWrite<'a>,
        database_uuid: [u8; 16],
        head_seq: CommitSeq,
    ) -> (result: Result<Self>)
        requires
            !old(memory).refused(),
        ensures
            final(memory).refused() ==> (result matches Err(error) && error@ == write_memory_view(
                write@.public_operation,
            )),
            !final(memory).refused() ==> if !is_identifier(database_uuid@) {
                result matches Err(error) && error@ == write_invalid_view(write@.public_operation)
            } else if head_seq == u64::MAX {
                result matches Err(error) && error@ == permanent_capacity_view(
                    write@.public_operation,
                )
            } else {
                result matches Ok(draft) && draft@ == (DraftView {
                    write: write@,
                    database_uuid: database_uuid@,
                    head_seq,
                    before_states: Seq::empty(),
                })
            },
            if is_identifier(database_uuid@) && head_seq < u64::MAX {
                asked(*old(memory), *final(memory), 1, distinct_keys(write@.operations).len())
            } else {
                *final(memory) == *old(memory)
            },
    {
        let operation = write.public_operation();
        if !is_nonzero_uuid(&database_uuid) {
            return Err(invalid_argument(operation));
        }
        if next_commit_seq(head_seq).is_err() {
            return Err(permanent_capacity_exceeded(operation));
        }
        let mut before_states: Vec<ValueState> = Vec::new();
        if !memory.reserve_exact(&mut before_states, write.keys().len()) {
            return Err(resource_exhausted(operation));
        }
        Ok(CommitDraft { write, database_uuid, head_seq, before_states })
    }

    /// The key whose state is to be read next.
    pub fn next_key(&self) -> (key: Option<&'a [u8]>)
        ensures
            match key {
                Some(key) => self@.before_states.len() < distinct_keys(
                    self@.write.operations,
                ).len() && key@ == distinct_keys(
                    self@.write.operations,
                )[self@.before_states.len() as int],
                None => self@.before_states.len() >= distinct_keys(self@.write.operations).len(),
            },
    {
        let keys = self.write.keys();
        let count: usize = self.before_states.len();
        proof {
            assert(byte_views(keys@).len() == keys@.len());
            if count < keys@.len() {
                assert(byte_views(keys@)[count as int] == keys@[count as int]@);
            }
        }
        if count < keys.len() {
            Some(keys[count])
        } else {
            None
        }
    }

    /// Takes what the index holds for the next key, or the failure to read it.
    pub fn key_read(&mut self, read: Result<Option<Vec<u8>>>) -> (result: Result<()>)
        requires
            old(self)@.before_states.len() < distinct_keys(old(self)@.write.operations).len(),
        ensures
            ({
                let key = distinct_keys(
                    old(self)@.write.operations,
                )[old(self)@.before_states.len() as int];
                let operation = old(self)@.write.public_operation;
                match read {
                    Err(failure) => {
                        &&& result matches Err(error) && error@ == remapped_index_read(
                            failure@,
                            operation,
                        )
                        &&& final(self)@ == old(self)@
                    },
                    Ok(stored) => match stored_state(opt_bytes(stored), key, operation) {
                        Ok(state) => {
                            &&& result is Ok
                            &&& final(self)@ == (DraftView {
                                before_states: old(self)@.before_states.push(state),
                                ..old(self)@
                            })
                        },
                        Err(refusal) => {
                            &&& result matches Err(error) && error@ == refusal
                            &&& final(self)@ == old(self)@
                        },
                    },
                }
            }),
    {
        proof {
            use_type_invariant(&*self);
        }
        let operation = self.write.public_operation();
        let stored = match read {
            Ok(stored) => stored,
            Err(error) => return Err(remap_index_read(error, operation)),
        };
        let keys = self.write.keys();
        let count: usize = self.before_states.len();
        proof {
            assert(byte_views(keys@).len() == keys@.len());
            assert(byte_views(keys@)[count as int] == keys@[count as int]@);
        }
        let state = decode_before_state(stored, keys[count], operation)?;
        let mut before_states: Vec<ValueState> = Vec::new();
        self.take_states(&mut before_states);
        before_states.push(state);
        let write = self.write;
        let database_uuid = self.database_uuid;
        let head_seq = self.head_seq;
        *self = CommitDraft { write, database_uuid, head_seq, before_states };
        Ok(())
    }

    fn take_states(&mut self, states: &mut Vec<ValueState>)
        requires
            old(states)@.len() == 0,
        ensures
            final(states)@ == old(self)@.before_states,
            final(self)@ == (DraftView { before_states: Seq::empty(), ..old(self)@ }),
    {
        proof {
            use_type_invariant(&*self);
        }
        let mut empty = CommitDraft {
            write: self.write,
            database_uuid: self.database_uuid,
            head_seq: self.head_seq,
            before_states: Vec::new(),
        };
        std::mem::swap(&mut empty, self);
        *states = empty.before_states;
    }

    /// Prepares the commit, once the state of every key is known, behind the end of the log.
    /// The random bytes come from the operating system, which may fail to give them.
    pub fn finish(
        self,
        memory: &mut Memory,
        append_cursor: VLogPosition,
        geometry: VLogGeometry,
        random: std::result::Result<[u8; 16], IoFailure>,
    ) -> (result: Result<PreparedCommit>)
        requires
            !old(memory).refused(),
            self@.before_states.len() == distinct_keys(self@.write.operations).len(),
        ensures
            final(memory).refused() ==> (result matches Err(error) && error@ == write_memory_view(
                self@.write.public_operation,
            )),
            !final(memory).refused() ==> match random {
                Err(failure) => result matches Err(error) && error@ == preflight_view(
                    StorageErrorKind::Io,
                    self@.write.public_operation,
                    RetryAdvice::RetrySameInstance,
                ).with_os_code(failure.os_code),
                Ok(bytes) => match (CommitInputs {
                    write: self@.write,
                    database_uuid: self@.database_uuid,
                    head_seq: self@.head_seq,
                    before_states: self@.before_states,
                    append_cursor,
                    geometry,
                    tx_uuid: versioned(bytes@),
                }).prepared() {
                    Ok(expected) => result matches Ok(prepared) && prepared@ == expected,
                    Err(refusal) => result matches Err(error) && error@ == refusal,
                },
            },
            match random {
                Err(_) => *final(memory) == *old(memory),
                Ok(bytes) => (CommitInputs {
                    write: self@.write,
                    database_uuid: self@.database_uuid,
                    head_seq: self@.head_seq,
                    before_states: self@.before_states,
                    append_cursor,
                    geometry,
                    tx_uuid: versioned(bytes@),
                }).asked_to_prepare(*old(memory), *final(memory)),
            },
    {
        proof {
            use_type_invariant(&self);
        }
        let operation = self.write.public_operation();
        let tx_uuid = match random {
            Ok(bytes) => tx_uuid_of(bytes),
            Err(failure) => {
                let mut error = StorageError::write_preflight(
                    StorageErrorKind::Io,
                    operation,
                    RetryAdvice::RetrySameInstance,
                );
                error.os_code = failure.os_code;
                return Err(error);
            },
        };
        let ghost inputs = CommitInputs {
            write: self@.write,
            database_uuid: self@.database_uuid,
            head_seq: self@.head_seq,
            before_states: self@.before_states,
            append_cursor,
            geometry,
            tx_uuid: tx_uuid@,
        };
        let commit_seq: u64 = self.head_seq + 1;
        let mut planner = match LayoutPlanner::from_position(geometry, append_cursor) {
            Ok(planner) => planner,
            Err(error) => return Err(remap_preflight(error, operation)),
        };
        let operations = self.write.operations();
        let envelope = match prepare_envelope(
            memory,
            &mut planner,
            self.database_uuid,
            commit_seq,
            tx_uuid,
            operations.as_slice(),
        ) {
            Ok(envelope) => envelope,
            Err(error) => return Err(remap_preflight(error, operation)),
        };
        let ghost written = envelope@;
        proof {
            law_prepared_descriptor_is_valid(inputs, written);
            law_keys_of_a_write(inputs.write.operations);
            assert forall|i: int| 0 <= i < inputs.write.operations.len() implies (
            #[trigger] written.value_pointers[i]) is Some == (inputs.write.operations[i] is Put) by {
                lemma_pointer_fits(inputs, written, i);
            }
            lemma_pointer_fits(inputs, written, 0);
        }
        let plans = build_key_plans(
            memory,
            self.write,
            &self.before_states,
            &envelope.value_pointers,
        )?;
        let descriptor = TransactionDescriptor {
            meta: TxMeta {
                commit_seq,
                tx_uuid,
                prev_seq: self.head_seq,
                vlog_begin: envelope.vlog_begin,
                vlog_end: envelope.vlog_end,
                logical_op_count: operations.len() as u64,
                distinct_key_count: plans.len() as u64,
                envelope_crc32c: envelope.envelope_crc32c,
                descriptor_crc32c: 0,
            },
            mutations: plans,
        };
        proof {
            assert(descriptor@.mutations =~= inputs.plans(written));
            assert(descriptor@ =~= inputs.descriptor(written));
        }
        let encoded = match encode_descriptor(memory, &descriptor) {
            Ok(encoded) => encoded,
            Err(error) => return Err(remap_preflight(error, operation)),
        };
        proof {
            let view = inputs.descriptor(written);
            lemma_tx_meta_key(commit_seq);
            let crc = le_bytes(view.checksum() as nat, 4);
            crate::bytes::lemma_le_bytes_len(view.checksum() as nat, 4);
            lemma_meta_layout(view.meta, crc);
            assert forall|i: int| 0 <= i < encoded@.mutations.len() implies {
                &&& 0 < (#[trigger] encoded@.mutations[i]).key.len() <= MAX_TX_MUTATION_LEN
                &&& 0 < encoded@.mutations[i].value.len() <= MAX_TX_MUTATION_LEN
            } by {
                lemma_tx_mutation_key(commit_seq, i as u64);
                assert(view.mutations[i].valid());
                lemma_mutation_length(view.mutations[i]);
                assert(encoded@.mutations[i] == view.entries()[i]);
            }
        }
        let index_batch = build_index_batch(
            memory,
            &descriptor.mutations,
            encoded,
            commit_seq,
            operation,
        )?;
        Ok(
            PreparedCommit {
                commit_seq,
                tx_uuid,
                vlog_begin: envelope.vlog_begin,
                vlog_end: envelope.vlog_end,
                envelope,
                index_batch,
                sync: self.write.sync(),
            },
        )
    }
}

impl CommitInputs {
    /// How many reservations the commit takes, once its envelope is laid out: those of the
    /// envelope; one for the changed keys and one for each of them; three for the descriptor and
    /// one for each of its entries; and those of the batch.
    pub open spec fn reservations(self, written: EnvelopeView) -> nat {
        let plans = self.plans(written);
        envelope_reservations(self.transaction(), written) + 4 + 2 * plans.len()
            + batch_reservations(plans, plans.len())
    }

    /// The most elements that a list is to have room for.
    pub open spec fn most_asked(self, written: EnvelopeView) -> nat {
        let plans = self.plans(written);
        envelope_most(self.geometry, self.transaction(), written) + batch_most(plans, plans.len())
    }

    /// What the preparation asks of memory: nothing where the log cannot go on from where it is
    /// said to end; and no more than the measuring and the placing of the records take, where
    /// there is no envelope.
    pub open spec fn asked_to_prepare(self, before: Memory, after: Memory) -> bool {
        let n = self.write.operations.len();
        if !(self.geometry.valid() && can_go_on(self.geometry, self.append_cursor)) {
            after == before
        } else {
            match envelope(self.geometry, self.append_cursor, self.transaction()) {
                Ok(written) => asked(
                    before,
                    after,
                    self.reservations(written),
                    self.most_asked(written),
                ),
                Err(_) => asked_within(before, after, n + 6, n + 6),
            }
        }
    }
}

/// The states of the keys after the first operations.
spec fn plans_after(
    operations: Seq<OperationView>,
    before: Seq<ValueState>,
    pointers: Seq<Option<ValuePointer>>,
    keys: Seq<Seq<u8>>,
) -> Seq<MutationView> {
    Seq::new(
        keys.len(),
        |i: int|
            MutationView {
                user_key: keys[i],
                before_state: before[i],
                after_state: state_after(operations, pointers, keys[i], before[i]),
            },
    )
}

/// Works out the state of every key after the write.
pub fn build_key_plans(
    memory: &mut Memory,
    write: &ValidatedWrite<'_>,
    before_states: &Vec<ValueState>,
    value_pointers: &Vec<Option<ValuePointer>>,
) -> (result: Result<Vec<TxMutation>>)
    requires
        !old(memory).refused(),
        before_states@.len() == distinct_keys(write@.operations).len(),
        value_pointers@.len() == write@.operations.len(),
    ensures
        match result {
            Ok(plans) => !final(memory).refused() && mutation_views(plans@) == key_plans(
                write@.operations,
                before_states@,
                value_pointers@,
            ),
            Err(error) => final(memory).refused() && error@ == write_memory_view(
                write@.public_operation,
            ),
        },
        asked(
            *old(memory),
            *final(memory),
            1 + distinct_keys(write@.operations).len(),
            distinct_keys(write@.operations).len() + MAX_KEY_VALUE_SIZE as nat,
        ),
{
    let operation = write.public_operation();
    let keys = write.keys();
    let ordinals = write.ordinals();
    let ghost names = byte_views(keys@);
    let ghost operations = write@.operations;
    let mut plans: Vec<TxMutation> = Vec::new();
    proof {
        assert(names.len() == keys@.len());
        law_keys_of_a_write(operations);
        assert forall|k: int| 0 <= k < names.len() implies (#[trigger] names[k]).len()
            <= MAX_KEY_VALUE_SIZE by {
            assert(names.contains(names[k]));
            let i = choose|i: int|
                0 <= i < operations.len() && (#[trigger] operations[i]).key() == names[k];
            lemma_operation_fits(operations, write@.public_operation, i);
        }
    }
    if !memory.reserve_exact(&mut plans, keys.len()) {
        return Err(resource_exhausted(operation));
    }
    let mut i: usize = 0;
    while i < keys.len()
        invariant
            !old(memory).refused(),
            names == distinct_keys(write@.operations),
            forall|k: int| 0 <= k < names.len() ==> (#[trigger] names[k]).len() <= MAX_KEY_VALUE_SIZE,
            asked(*old(memory), *memory, 1 + i as nat, names.len() + MAX_KEY_VALUE_SIZE as nat),
            i <= keys@.len(),
            operation == write@.public_operation,
            names == byte_views(keys@),
            before_states@.len() == keys@.len(),
            plans@.len() == i,
            !memory.refused(),
            mutation_views(plans@) == plans_after(
                Seq::empty(),
                before_states@,
                value_pointers@,
                names,
            ).take(i as int),
        decreases keys@.len() - i,
    {
        let key = keys[i];
        proof {
            assert(names[i as int] == key@);
        }
        let user_key = match memory.copy(key) {
            Some(user_key) => user_key,
            None => return Err(resource_exhausted(operation)),
        };
        plans.push(
            TxMutation {
                user_key,
                before_state: before_states[i],
                after_state: before_states[i],
            },
        );
        i = i + 1;
        proof {
            assert(names[i - 1] == key@);
            assert(mutation_views(plans@) =~= plans_after(
                Seq::empty(),
                before_states@,
                value_pointers@,
                names,
            ).take(i as int));
        }
    }
    let mut j: usize = 0;
    proof {
        assert(operations.take(0) =~= Seq::empty());
        assert(mutation_views(plans@) =~= plans_after(
            operations.take(0),
            before_states@,
            value_pointers@,
            names,
        ));
    }
    while j < ordinals.len()
        invariant
            !old(memory).refused(),
            names == distinct_keys(write@.operations),
            asked(
                *old(memory),
                *memory,
                1 + names.len(),
                names.len() + MAX_KEY_VALUE_SIZE as nat,
            ),
            j <= ordinals@.len(),
            names == distinct_keys(operations),
            names.no_duplicates(),
            are_ordinals(ordinals@, operations, names),
            value_pointers@.len() == operations.len(),
            plans@.len() == names.len(),
            !memory.refused(),
            mutation_views(plans@) == plans_after(
                operations.take(j as int),
                before_states@,
                value_pointers@,
                names,
            ),
        decreases ordinals@.len() - j,
    {
        let ordinal: usize = ordinals[j];
        let ghost front = operations.take(j as int);
        let ghost next = operations.take(j + 1);
        let ghost before = mutation_views(plans@);
        let after_state = match value_pointers[j] {
            Some(pointer) => ValueState::Present(pointer),
            None => ValueState::Absent,
        };
        proof {
            assert(names[ordinal as int] == operations[j as int].key());
            assert(next.drop_last() =~= front);
            assert(next.last() == operations[j as int]);
            assert(before[ordinal as int] == plans@[ordinal as int]@);
        }
        let mut plan = TxMutation {
            user_key: Vec::new(),
            before_state: ValueState::Absent,
            after_state: ValueState::Absent,
        };
        plans.set_and_swap(ordinal, &mut plan);
        plan.after_state = after_state;
        plans.set(ordinal, plan);
        proof {
            let after = mutation_views(plans@);
            let wanted = plans_after(next, before_states@, value_pointers@, names);
            assert forall|k: int| 0 <= k < names.len() implies after[k] == wanted[k] by {
                if k != ordinal {
                    assert(names[k] != names[ordinal as int]);
                    assert(after[k] == before[k]);
                }
            }
            assert(after =~= wanted);
        }
        j = j + 1;
    }
    proof {
        assert(operations.take(ordinals@.len() as int) =~= operations);
        assert(mutation_views(plans@) =~= key_plans(
            operations,
            before_states@,
            value_pointers@,
        ));
    }
    Ok(plans)
}

fn map_index_construction_error(error: InternalIndexError, operation: Operation) -> (mapped: StorageError)
    ensures
        mapped@ == preflight_view(
            error.kind,
            operation,
            if error.kind == StorageErrorKind::ResourceExhausted {
                RetryAdvice::RetrySameInstance
            } else {
                RetryAdvice::FixRequestAndRetrySameInstance
            },
        ),
{
    let retry_advice = if error.kind == StorageErrorKind::ResourceExhausted {
        RetryAdvice::RetrySameInstance
    } else {
        RetryAdvice::FixRequestAndRetrySameInstance
    };
    StorageError::write_preflight(error.kind, operation, retry_advice)
}

/// Appends an ordinary change to the batch of a commit.
pub fn push_index(
    memory: &mut Memory,
    batch: &mut IndexAtomicBatch,
    mutation: IndexMutation,
    operation: Operation,
) -> (result: Result<()>)
    requires
        !old(memory).refused(),
        is_ordinary(mutation@),
    ensures
        match result {
            Ok(_) => !final(memory).refused() && final(batch)@ == old(batch)@.push(mutation@),
            Err(error) => final(memory).refused() && error@ == write_memory_view(operation)
                && final(batch)@ == old(batch)@,
        },
        asked(*old(memory), *final(memory), 1, old(batch)@.len() + 1),
{
    match batch.try_push(memory, mutation) {
        Ok(_) => Ok(()),
        Err(error) => Err(map_index_construction_error(error, operation)),
    }
}

/// How many keys are left with a value.
pub open spec fn present_count(mutations: Seq<MutationView>) -> nat
    decreases mutations.len(),
{
    if mutations.len() == 0 {
        0
    } else {
        present_count(mutations.drop_last()) + (if mutations.last().after_state is Absent {
            0nat
        } else {
            1
        })
    }
}

/// The first keys leave no more of them with a value than all do.
proof fn lemma_present_count(mutations: Seq<MutationView>, count: int)
    requires
        0 <= count <= mutations.len(),
    ensures
        present_count(mutations.take(count)) <= present_count(mutations),
    decreases mutations.len(),
{
    if count < mutations.len() {
        lemma_present_count(mutations.drop_last(), count);
        assert(mutations.drop_last().take(count) =~= mutations.take(count));
    } else {
        assert(mutations.take(count) =~= mutations);
    }
}

/// How many reservations the batch of a commit takes: one for the batch; for each key one for
/// its copy, one for its place in the batch and one for its pointer, if it has one; three for the
/// head of the transaction and for each of its entries; and two for the head of the index.
pub open spec fn batch_reservations(plans: Seq<MutationView>, entries: nat) -> nat {
    1 + 2 * plans.len() + present_count(plans) + 3 + 3 * entries + 2
}

/// The most elements that a list is to have room for when the batch of a commit is made.
pub open spec fn batch_most(plans: Seq<MutationView>, entries: nat) -> nat {
    2 * plans.len() + entries + 2 + MAX_TX_MUTATION_LEN as nat
}

/// Makes the batch that a commit hands to the index.
fn build_index_batch(
    memory: &mut Memory,
    plans: &Vec<TxMutation>,
    descriptor: EncodedDescriptor,
    commit_seq: CommitSeq,
    operation: Operation,
) -> (result: Result<IndexAtomicBatch>)
    requires
        !old(memory).refused(),
        2 * plans@.len() + 2 <= usize::MAX,
        forall|i: int| 0 <= i < plans@.len() ==> (#[trigger] mutation_views(plans@)[i]).valid(),
        0 < descriptor@.meta_key.len() <= MAX_TX_MUTATION_LEN,
        0 < descriptor@.meta_value.len() <= MAX_TX_MUTATION_LEN,
        forall|i: int|
            0 <= i < descriptor@.mutations.len() ==> {
                &&& 0 < (#[trigger] descriptor@.mutations[i]).key.len() <= MAX_TX_MUTATION_LEN
                &&& 0 < descriptor@.mutations[i].value.len() <= MAX_TX_MUTATION_LEN
            },
    ensures
        match result {
            Ok(batch) => !final(memory).refused() && batch@ == user_changes(mutation_views(plans@))
                + record_changes(descriptor@, commit_seq),
            Err(error) => final(memory).refused() && error@ == write_memory_view(operation),
        },
        asked(
            *old(memory),
            *final(memory),
            batch_reservations(mutation_views(plans@), descriptor@.mutations.len()),
            batch_most(mutation_views(plans@), descriptor@.mutations.len()),
        ),
{
    let ghost views = mutation_views(plans@);
    let ghost encoded = descriptor@;
    let capacity: usize = plans.len() * 2 + 2;
    let mut batch = match IndexAtomicBatch::try_with_capacity(memory, capacity) {
        Ok(batch) => batch,
        Err(error) => return Err(map_index_construction_error(error, operation)),
    };
    let ghost most = batch_most(views, encoded.mutations.len());
    let mut i: usize = 0;
    proof {
        assert(user_changes(views).take(0) =~= Seq::empty());
        assert(views.take(0) =~= Seq::empty());
    }
    while i < plans.len()
        invariant
            encoded == descriptor@,
            !old(memory).refused(),
            most == batch_most(views, encoded.mutations.len()),
            views.len() == plans@.len(),
            asked(
                *old(memory),
                *memory,
                1 + 2 * i as nat + present_count(views.take(i as int)),
                most,
            ),
            i <= plans@.len(),
            views == mutation_views(plans@),
            !memory.refused(),
            forall|k: int| 0 <= k < plans@.len() ==> (#[trigger] views[k]).valid(),
            batch@ == user_changes(views).take(i as int),
        decreases plans@.len() - i,
    {
        let plan = &plans[i];
        proof {
            assert(views[i as int] == plan@);
            assert(views[i as int].valid());
            assert(views.take(i + 1).drop_last() =~= views.take(i as int));
            lemma_present_count(views, i + 1);
        }
        let user_key = match memory.copy(plan.user_key.as_slice()) {
            Some(user_key) => user_key,
            None => return Err(resource_exhausted(operation)),
        };
        let mutation = match plan.after_state {
            ValueState::Absent => IndexMutation::DeleteUser { user_key },
            ValueState::Present(pointer) => {
                proof {
                    lemma_pointer_layout(pointer);
                }
                let bytes = match pointer.encode() {
                    Ok(bytes) => bytes,
                    Err(error) => return Err(remap_preflight(error, operation)),
                };
                let encoded_pointer = match memory.copy(bytes.as_slice()) {
                    Some(encoded_pointer) => encoded_pointer,
                    None => return Err(resource_exhausted(operation)),
                };
                IndexMutation::PutUser { user_key, encoded_pointer }
            },
        };
        proof {
            assert(mutation@ == user_changes(views)[i as int]);
        }
        push_index(memory, &mut batch, mutation, operation)?;
        i = i + 1;
        proof {
            assert(user_changes(views).take(i as int) =~= user_changes(views).take(
                i - 1,
            ).push(user_changes(views)[i - 1]));
        }
    }
    proof {
        assert(user_changes(views).take(i as int) =~= user_changes(views));
        assert(views.take(i as int) =~= views);
    }
    let ghost users = user_changes(views);
    let meta_key = match memory.copy(descriptor.meta_key.as_slice()) {
        Some(key) => key,
        None => return Err(resource_exhausted(operation)),
    };
    let meta_value = match memory.copy(descriptor.meta_value.as_slice()) {
        Some(value) => value,
        None => return Err(resource_exhausted(operation)),
    };
    push_index(
        memory,
        &mut batch,
        IndexMutation::PutInternal {
            space: InternalIndexSpace::Transaction,
            key: meta_key,
            value: meta_value,
        },
        operation,
    )?;
    let ghost with_meta = batch@;
    let entries = descriptor.mutations;
    let ghost entry_list = entry_views(entries@);
    let mut j: usize = 0;
    proof {
        assert(encoded.mutations == entry_list);
        assert(with_meta + entry_changes(entry_list).take(0) =~= with_meta);
    }
    while j < entries.len()
        invariant
            j <= entries@.len(),
            entry_list == entry_views(entries@),
            !memory.refused(),
            forall|k: int|
                0 <= k < entry_list.len() ==> {
                    &&& 0 < (#[trigger] entry_list[k]).key.len() <= MAX_TX_MUTATION_LEN
                    &&& 0 < entry_list[k].value.len() <= MAX_TX_MUTATION_LEN
                },
            !old(memory).refused(),
            views == mutation_views(plans@),
            encoded == descriptor@,
            encoded.mutations == entry_list,
            most == batch_most(views, entry_list.len()),
            entry_list.len() == entries@.len(),
            with_meta.len() == views.len() + 1,
            asked(
                *old(memory),
                *memory,
                1 + 2 * views.len() + present_count(views) + 3 + 3 * j as nat,
                most,
            ),
            batch@ == with_meta + entry_changes(entry_list).take(j as int),
        decreases entries@.len() - j,
    {
        let entry = &entries[j];
        proof {
            assert(entry_list[j as int] == entry@);
        }
        let key = match memory.copy(entry.key.as_slice()) {
            Some(key) => key,
            None => return Err(resource_exhausted(operation)),
        };
        let value = match memory.copy(entry.value.as_slice()) {
            Some(value) => value,
            None => return Err(resource_exhausted(operation)),
        };
        push_index(
            memory,
            &mut batch,
            IndexMutation::PutInternal { space: InternalIndexSpace::Transaction, key, value },
            operation,
        )?;
        j = j + 1;
        proof {
            assert(with_meta + entry_changes(entry_list).take(j as int) =~= (with_meta
                + entry_changes(entry_list).take(j - 1)).push(entry_changes(entry_list)[j - 1]));
        }
    }
    proof {
        assert(entry_changes(entry_list).take(j as int) =~= entry_changes(entry_list));
    }
    let head_key = match memory.copy(&head_seq_name()) {
        Some(key) => key,
        None => return Err(resource_exhausted(operation)),
    };
    let head_value = encode_head_seq(commit_seq);
    proof {
        crate::bytes::lemma_le_bytes_len(commit_seq as nat, 8);
        assert(head_seq_key() != database_identity_key()) by {
            crate::index::batch::lemma_system_keys_differ();
        }
    }
    push_index(
        memory,
        &mut batch,
        IndexMutation::PutInternal {
            space: InternalIndexSpace::System,
            key: head_key,
            value: head_value,
        },
        operation,
    )?;
    proof {
        assert(batch@ =~= users + record_changes(encoded, commit_seq));
    }
    Ok(batch)
}

/// A commit that cannot be prepared is told of with the kind and the code of what went wrong,
/// and never as committed. Want of memory may pass; damaged contents and contents of another
/// format poison the instance; anything else is a mistake of the request, which the instance
/// survives.
pub proof fn law_failed_preparation_is_not_committed(error: ErrorView, operation: Operation)
    ensures
        ({
            let told = remapped_preflight(error, operation);
            let damaged = error.kind == StorageErrorKind::Corruption || error.kind
                == StorageErrorKind::InvalidLayout;
            let other_format = error.kind == StorageErrorKind::IncompatibleFormat;
            &&& told.kind == error.kind
            &&& told.os_code == error.os_code
            &&& told.operation == operation
            &&& told.protocol_stage == ProtocolStage::Preflight
            &&& told.write_outcome == Some(WriteOutcome::NotCommitted)
            &&& told.instance_state == Some(
                if damaged || other_format {
                    InstanceState::Poisoned
                } else {
                    InstanceState::Healthy
                },
            )
            &&& told.retry_advice == RetryAdvice::RetrySameInstance <==> error.kind
                == StorageErrorKind::ResourceExhausted
            &&& told.retry_advice == RetryAdvice::RestoreOrRepair <==> damaged
            &&& told.retry_advice == RetryAdvice::DoNotRetry <==> other_format || (error.kind
                == StorageErrorKind::CapacityExceeded && error.retry_advice
                == RetryAdvice::DoNotRetry)
            &&& told.instance_state == Some(InstanceState::Healthy) && told.retry_advice
                != RetryAdvice::RetrySameInstance && told.retry_advice != RetryAdvice::DoNotRetry
                ==> told.retry_advice == RetryAdvice::FixRequestAndRetrySameInstance
        }),
{
}

/// A commit for which the index cannot be read is not committed either. Want of memory and an
/// index that is busy may pass; an index that takes no writes wants its surroundings mended;
/// every other failure poisons the instance.
pub proof fn law_unreadable_index_is_not_committed(error: ErrorView, operation: Operation)
    ensures
        ({
            let told = remapped_index_read(error, operation);
            let passing = error.kind == StorageErrorKind::ResourceExhausted || error.kind
                == StorageErrorKind::Busy;
            let stopped = error.kind == StorageErrorKind::StorageWriteStopped;
            let broken = error.kind == StorageErrorKind::Io || error.kind
                == StorageErrorKind::StoragePoisoned;
            let damaged = error.kind == StorageErrorKind::Corruption || error.kind
                == StorageErrorKind::InvalidLayout || error.kind
                == StorageErrorKind::Unrecoverable;
            &&& told.kind == error.kind
            &&& told.os_code == error.os_code
            &&& told.operation == operation
            &&& told.protocol_stage == ProtocolStage::Preflight
            &&& told.write_outcome == Some(WriteOutcome::NotCommitted)
            &&& told.instance_state == Some(InstanceState::Healthy) <==> passing
            &&& told.instance_state == Some(InstanceState::WriteStopped) <==> stopped
            &&& told.instance_state == Some(InstanceState::Poisoned) <==> !passing && !stopped
            &&& told.retry_advice == RetryAdvice::RetrySameInstance <==> passing
            &&& told.retry_advice == RetryAdvice::FixEnvironmentAndReopen <==> stopped
            &&& told.retry_advice == RetryAdvice::ReopenAndVerify <==> broken
            &&& told.retry_advice == RetryAdvice::RestoreOrRepair <==> damaged
            &&& told.retry_advice == RetryAdvice::DoNotRetry <==> !passing && !stopped && !broken
                && !damaged
        }),
{
}

/// What a commit finds in the index for a key is what an earlier one left there: nothing, or the
/// pointer whose encoding the index holds, and then the key is as long as the record of that
/// pointer says. Anything else is damage, which poisons the instance.
pub proof fn law_stored_state_is_what_was_left(
    state: ValueState,
    stored: Option<Seq<u8>>,
    key: Seq<u8>,
    operation: Operation,
)
    ensures
        stored_state(stored, key, operation) == Ok::<ValueState, ErrorView>(state) <==> state_fits(
            state,
            key.len(),
        ) && stored == match state {
            ValueState::Absent => None,
            ValueState::Present(pointer) => Some(pointer.encoded()),
        },
        stored_state(stored, key, operation) matches Err(error) ==> {
            &&& error.operation == operation
            &&& error.write_outcome == Some(WriteOutcome::NotCommitted)
            &&& error.instance_state == Some(InstanceState::Poisoned)
            &&& error.kind == StorageErrorKind::Corruption && error.retry_advice
                == RetryAdvice::RestoreOrRepair || error.kind
                == StorageErrorKind::IncompatibleFormat && error.retry_advice
                == RetryAdvice::DoNotRetry
        },
{
    match state {
        ValueState::Absent => {},
        ValueState::Present(pointer) => {
            if exists|other: ValuePointer|
                other.valid() && stored == Some(#[trigger] other.encoded()) {
                let other = choose|other: ValuePointer|
                    other.valid() && stored == Some(#[trigger] other.encoded());
                if stored == Some(pointer.encoded()) {
                    law_pointer_round_trip(pointer, other);
                }
                let chosen = choose|chosen: ValuePointer|
                    chosen.valid() && stored->0 == #[trigger] chosen.encoded();
                law_pointer_round_trip(other, chosen);
            }
        },
    }
}

/// The last operation on a key decides its state; where there is none, the state stays.
pub proof fn law_last_operation_decides(
    operations: Seq<OperationView>,
    pointers: Seq<Option<ValuePointer>>,
    key: Seq<u8>,
    before: ValueState,
    last: int,
)
    requires
        -1 <= last < operations.len(),
        last >= 0 ==> operations[last].key() == key,
        forall|i: int| last < i < operations.len() ==> (#[trigger] operations[i]).key() != key,
    ensures
        state_after(operations, pointers, key, before) == if last < 0 {
            before
        } else {
            match pointers[last] {
                Some(pointer) => ValueState::Present(pointer),
                None => ValueState::Absent,
            }
        },
    decreases operations.len(),
{
    if operations.len() > 0 && last < operations.len() - 1 {
        assert(operations[operations.len() - 1].key() != key);
        let front = operations.drop_last();
        assert forall|i: int| last < i < front.len() implies (#[trigger] front[i]).key() != key by {
            assert(front[i] == operations[i]);
        }
        law_last_operation_decides(front, pointers, key, before, last);
    }
}

/// An identifier is marked as random in the two places that say so, and keeps every other bit
/// of the random bytes that it was made from.
pub proof fn law_identifier_keeps_random_bits(random: Seq<u8>)
    requires
        random.len() == 16,
    ensures
        ({
            let made = versioned(random);
            &&& made.len() == 16
            &&& forall|i: int|
                0 <= i < 16 && i != 6 && i != 8 ==> #[trigger] made[i] == random[i]
            &&& made[6] / 16 == 4
            &&& made[6] % 16 == random[6] % 16
            &&& made[8] / 64 == 2
            &&& made[8] % 64 == random[8] % 64
        }),
{
    let six = random[6];
    let eight = random[8];
    assert(((six & 0x0f) | 0x40) / 16 == 4 && ((six & 0x0f) | 0x40) % 16 == six % 16)
        by (bit_vector);
    assert(((eight & 0x3f) | 0x80) / 64 == 2 && ((eight & 0x3f) | 0x80) % 64 == eight % 64)
        by (bit_vector);
}

} // verus!
