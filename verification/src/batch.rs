//! Write batches: ordered operations that are committed together.

use vstd::prelude::*;

use crate::error::{
    plain_error, ErrorView, Operation, ProtocolStage, Result, RetryAdvice, StorageError,
    StorageErrorKind, WriteOutcome,
};
use crate::memory::{asked, Memory};

verus! {

/// The largest key, and the largest key with its value, in bytes.
pub const MAX_KEY_VALUE_SIZE: usize = 60_000;

/// One operation of a batch.
#[derive(Clone, Debug, PartialEq, Eq)]
pub enum BatchOperation {
    Put { key: Vec<u8>, value: Vec<u8> },
    Delete { key: Vec<u8> },
}

/// What one operation does, over mathematical byte strings.
#[verifier::ext_equal]
pub enum OperationView {
    Put { key: Seq<u8>, value: Seq<u8> },
    Delete { key: Seq<u8> },
}

impl View for BatchOperation {
    type V = OperationView;

    open spec fn view(&self) -> OperationView {
        match self {
            BatchOperation::Put { key, value } => OperationView::Put { key: key@, value: value@ },
            BatchOperation::Delete { key } => OperationView::Delete { key: key@ },
        }
    }
}

impl OperationView {
    /// The key that the operation writes or removes.
    pub open spec fn key(self) -> Seq<u8> {
        match self {
            OperationView::Put { key, value } => key,
            OperationView::Delete { key } => key,
        }
    }

    /// The value that the operation leaves under its key, if any.
    pub open spec fn value(self) -> Option<Seq<u8>> {
        match self {
            OperationView::Put { key, value } => Some(value),
            OperationView::Delete { key } => None,
        }
    }
}

/// An ordered list of operations that are applied together or not at all.
pub struct WriteBatch {
    operations: Vec<BatchOperation>,
}

impl View for WriteBatch {
    type V = Seq<OperationView>;

    closed spec fn view(&self) -> Seq<OperationView> {
        Seq::new(self.operations@.len(), |i: int| self.operations@[i]@)
    }
}

/// Why a key is refused.
pub open spec fn key_refusal(key: Seq<u8>) -> Option<ErrorView> {
    if key.len() == 0 || key.len() > MAX_KEY_VALUE_SIZE {
        Some(invalid_argument_view())
    } else {
        None
    }
}

/// Why a key and its value are refused: the key first, then a value whose length needs more
/// than sixteen bits, then the sum of both lengths.
pub open spec fn key_value_refusal(key: Seq<u8>, value: Seq<u8>) -> Option<ErrorView> {
    if key_refusal(key) is Some {
        key_refusal(key)
    } else if value.len() > u16::MAX {
        Some(capacity_exceeded_view())
    } else if key.len() + value.len() > MAX_KEY_VALUE_SIZE {
        Some(invalid_argument_view())
    } else {
        None
    }
}

/// Why one more operation is refused.
pub open spec fn count_refusal(current: nat) -> Option<ErrorView> {
    if current + 1 > u32::MAX {
        Some(capacity_exceeded_view())
    } else {
        None
    }
}

pub open spec fn invalid_argument_view() -> ErrorView {
    batch_error(
        StorageErrorKind::InvalidArgument,
        RetryAdvice::FixRequestAndRetrySameInstance,
    )
}

pub open spec fn capacity_exceeded_view() -> ErrorView {
    batch_error(
        StorageErrorKind::CapacityExceeded,
        RetryAdvice::FixRequestAndRetrySameInstance,
    )
}

pub open spec fn resource_exhausted_view() -> ErrorView {
    batch_error(StorageErrorKind::ResourceExhausted, RetryAdvice::RetrySameInstance)
}

pub open spec fn batch_error(kind: StorageErrorKind, retry_advice: RetryAdvice) -> ErrorView {
    plain_error(
        kind,
        Operation::WriteBatch,
        ProtocolStage::Preflight,
        Some(WriteOutcome::NotCommitted),
        None,
        retry_advice,
    )
}

/// What a batch answers to one more operation whose own checks give `refusal`, and what it
/// holds afterwards; `refused` says whether memory for the operation was refused.
pub open spec fn appended(
    before: Seq<OperationView>,
    operation: OperationView,
    refusal: Option<ErrorView>,
    refused: bool,
    after: Seq<OperationView>,
    result: Result<()>,
) -> bool {
    if refusal is Some {
        &&& after == before
        &&& !refused
        &&& result matches Err(error) && error@ == refusal->0
    } else if count_refusal(before.len()) is Some {
        &&& after == before
        &&& !refused
        &&& result matches Err(error) && error@ == count_refusal(before.len())->0
    } else if refused {
        &&& after == before
        &&& result matches Err(error) && error@ == resource_exhausted_view()
    } else {
        &&& after == before.push(operation)
        &&& result is Ok
    }
}

/// Why an operation is refused for what it is.
pub open spec fn operation_refusal(operation: OperationView) -> Option<ErrorView> {
    match operation {
        OperationView::Put { key, value } => key_value_refusal(key, value),
        OperationView::Delete { key } => key_refusal(key),
    }
}

/// Every operation fits, and there are no more of them than a count of thirty-two bits tells.
pub open spec fn within_limits(operations: Seq<OperationView>) -> bool {
    &&& operations.len() <= u32::MAX
    &&& forall|i: int|
        0 <= i < operations.len() ==> operation_refusal(#[trigger] operations[i]) is None
}

/// Whatever is put into a batch or deleted in it, and however that ends, the batch stays within
/// its limits; it is within them when it is new.
pub proof fn law_batch_stays_within_limits(
    before: Seq<OperationView>,
    operation: OperationView,
    refused: bool,
    after: Seq<OperationView>,
    result: Result<()>,
)
    requires
        within_limits(before),
        appended(before, operation, operation_refusal(operation), refused, after, result),
    ensures
        within_limits(after),
        within_limits(Seq::empty()),
{
}

/// A batch passes its own checks of one more operation, and asks for memory.
pub open spec fn appendable(before: Seq<OperationView>, refusal: Option<ErrorView>) -> bool {
    refusal is None && count_refusal(before.len()) is None
}

/// The most elements that a list is to have room for when an operation is appended: the bytes
/// of its key or of its value, or the operations with the new one.
pub open spec fn most_asked(before: Seq<OperationView>, key: Seq<u8>, value: Seq<u8>) -> nat {
    let longer = if key.len() > value.len() {
        key.len()
    } else {
        value.len()
    };
    if longer > before.len() + 1 {
        longer
    } else {
        before.len() + 1
    }
}

impl WriteBatch {
    pub fn new() -> (batch: Self)
        ensures
            batch@ == Seq::<OperationView>::empty(),
    {
        let batch = WriteBatch { operations: Vec::new() };
        proof {
            assert(batch@ =~= Seq::<OperationView>::empty());
        }
        batch
    }

    /// Appends a put. A failure leaves the batch as it was.
    pub fn put(&mut self, key: &[u8], value: &[u8]) -> (result: Result<()>)
        ensures
            exists|refused: bool| #[trigger]
                appended(
                    old(self)@,
                    OperationView::Put { key: key@, value: value@ },
                    key_value_refusal(key@, value@),
                    refused,
                    final(self)@,
                    result,
                ),
    {
        let mut memory = Memory::new();
        self.put_in(&mut memory, key, value)
    }

    /// Appends a delete. A failure leaves the batch as it was.
    pub fn delete(&mut self, key: &[u8]) -> (result: Result<()>)
        ensures
            exists|refused: bool| #[trigger]
                appended(
                    old(self)@,
                    OperationView::Delete { key: key@ },
                    key_refusal(key@),
                    refused,
                    final(self)@,
                    result,
                ),
    {
        let mut memory = Memory::new();
        self.delete_in(&mut memory, key)
    }

    /// Appends a put with the memory of a request.
    pub fn put_in(&mut self, memory: &mut Memory, key: &[u8], value: &[u8]) -> (result: Result<()>)
        requires
            !old(memory).refused(),
        ensures
            appended(
                old(self)@,
                OperationView::Put { key: key@, value: value@ },
                key_value_refusal(key@, value@),
                final(memory).refused(),
                final(self)@,
                result,
            ),
            if appendable(old(self)@, key_value_refusal(key@, value@)) {
                asked(*old(memory), *final(memory), 3, most_asked(old(self)@, key@, value@))
            } else {
                *final(memory) == *old(memory)
            },
    {
        validate_key_value(key, value)?;
        validate_next_operation_count(self.operations.len())?;
        let key = try_clone_bytes(memory, key)?;
        let value = try_clone_bytes(memory, value)?;
        let operation = BatchOperation::Put { key, value };
        self.push_operation(memory, operation)
    }

    /// Appends a delete with the memory of a request.
    pub fn delete_in(&mut self, memory: &mut Memory, key: &[u8]) -> (result: Result<()>)
        requires
            !old(memory).refused(),
        ensures
            appended(
                old(self)@,
                OperationView::Delete { key: key@ },
                key_refusal(key@),
                final(memory).refused(),
                final(self)@,
                result,
            ),
            if appendable(old(self)@, key_refusal(key@)) {
                asked(*old(memory), *final(memory), 2, most_asked(old(self)@, key@, Seq::empty()))
            } else {
                *final(memory) == *old(memory)
            },
    {
        validate_key(key)?;
        validate_next_operation_count(self.operations.len())?;
        let key = try_clone_bytes(memory, key)?;
        let operation = BatchOperation::Delete { key };
        self.push_operation(memory, operation)
    }

    /// Appends an operation where there is room for it.
    fn push_operation(&mut self, memory: &mut Memory, operation: BatchOperation) -> (result: Result<
        (),
    >)
        requires
            !old(memory).refused(),
        ensures
            match result {
                Ok(_) => !final(memory).refused() && final(self)@ == old(self)@.push(operation@),
                Err(error) => {
                    &&& final(memory).refused()
                    &&& error@ == resource_exhausted_view()
                    &&& final(self)@ == old(self)@
                },
            },
            asked(*old(memory), *final(memory), 1, old(self)@.len() + 1),
    {
        if !memory.reserve(&mut self.operations, 1) {
            proof {
                assert(self@ =~= old(self)@);
            }
            return Err(resource_exhausted());
        }
        self.operations.push(operation);
        proof {
            assert(self@ =~= old(self)@.push(operation@));
        }
        Ok(())
    }

    pub fn clear(&mut self)
        ensures
            final(self)@ == Seq::<OperationView>::empty(),
    {
        self.operations.clear();
        proof {
            assert(final(self)@ =~= Seq::<OperationView>::empty());
        }
    }

    pub fn len(&self) -> (count: usize)
        ensures
            count == self@.len(),
    {
        self.operations.len()
    }

    pub fn is_empty(&self) -> (empty: bool)
        ensures
            empty == (self@.len() == 0),
    {
        self.operations.len() == 0
    }

    /// The operations, in the order in which they were appended.
    pub fn operations(&self) -> (operations: &Vec<BatchOperation>)
        ensures
            operations@.len() == self@.len(),
            forall|i: int| 0 <= i < self@.len() ==> #[trigger] operations@[i]@ == self@[i],
    {
        &self.operations
    }
}

fn try_clone_bytes(memory: &mut Memory, bytes: &[u8]) -> (result: Result<Vec<u8>>)
    requires
        !old(memory).refused(),
    ensures
        match result {
            Ok(owned) => !final(memory).refused() && owned@ == bytes@,
            Err(error) => final(memory).refused() && error@ == resource_exhausted_view(),
        },
        asked(*old(memory), *final(memory), 1, bytes@.len()),
{
    match memory.copy(bytes) {
        Some(owned) => Ok(owned),
        None => Err(resource_exhausted()),
    }
}

pub fn validate_key(key: &[u8]) -> (result: Result<()>)
    ensures
        match result {
            Ok(_) => key_refusal(key@) is None,
            Err(error) => key_refusal(key@) == Some(error@),
        },
{
    if key.len() == 0 || key.len() > MAX_KEY_VALUE_SIZE {
        return Err(invalid_argument());
    }
    Ok(())
}

pub fn validate_key_value(key: &[u8], value: &[u8]) -> (result: Result<()>)
    ensures
        match result {
            Ok(_) => key_value_refusal(key@, value@) is None,
            Err(error) => key_value_refusal(key@, value@) == Some(error@),
        },
{
    validate_key(key)?;
    if value.len() > 65_535 {
        return Err(capacity_exceeded());
    }
    if key.len() + value.len() > MAX_KEY_VALUE_SIZE {
        return Err(invalid_argument());
    }
    Ok(())
}

pub fn validate_next_operation_count(current: usize) -> (result: Result<()>)
    ensures
        match result {
            Ok(_) => count_refusal(current as nat) is None,
            Err(error) => count_refusal(current as nat) == Some(error@),
        },
{
    match current.checked_add(1) {
        None => Err(capacity_exceeded()),
        Some(next) => {
            if next as u64 > 0xffff_ffff {
                Err(capacity_exceeded())
            } else {
                Ok(())
            }
        },
    }
}

fn invalid_argument() -> (error: StorageError)
    ensures
        error@ == invalid_argument_view(),
{
    StorageError::invalid_batch(
        StorageErrorKind::InvalidArgument,
        RetryAdvice::FixRequestAndRetrySameInstance,
    )
}

fn capacity_exceeded() -> (error: StorageError)
    ensures
        error@ == capacity_exceeded_view(),
{
    StorageError::invalid_batch(
        StorageErrorKind::CapacityExceeded,
        RetryAdvice::FixRequestAndRetrySameInstance,
    )
}

fn resource_exhausted() -> (error: StorageError)
    ensures
        error@ == resource_exhausted_view(),
{
    StorageError::invalid_batch(
        StorageErrorKind::ResourceExhausted,
        RetryAdvice::RetrySameInstance,
    )
}

/// A refused operation leaves the batch byte for byte as it was; an accepted one becomes its
/// last operation, and the ones before it stay.
pub proof fn law_append_is_all_or_nothing(
    before: Seq<OperationView>,
    operation: OperationView,
    refusal: Option<ErrorView>,
    refused: bool,
    after: Seq<OperationView>,
    result: Result<()>,
)
    requires
        appended(before, operation, refusal, refused, after, result),
    ensures
        result is Err ==> after == before,
        result is Ok ==> after.len() == before.len() + 1 && after.last() == operation
            && after.drop_last() == before,
{
    if result is Ok {
        assert(after.drop_last() =~= before);
    }
}

/// An operation fits exactly where its key has one to sixty thousand bytes and key and value
/// together have no more; a value beyond sixteen bits of length is told apart from other
/// mistakes. A batch takes such operations up to the largest count of thirty-two bits, and
/// a refused one is told that nothing was committed.
pub proof fn law_limits_of_a_batch(operation: OperationView, current: nat)
    ensures
        ({
            let key = operation.key().len();
            let refusal = operation_refusal(operation);
            &&& refusal is None <==> 1 <= key <= 60_000 && (operation matches OperationView::Put {
                value,
                ..
            } ==> key + value.len() <= 60_000)
            &&& refusal matches Some(error) ==> {
                &&& error.operation == Operation::WriteBatch
                &&& error.protocol_stage == ProtocolStage::Preflight
                &&& error.write_outcome == Some(WriteOutcome::NotCommitted)
                &&& error.retry_advice == RetryAdvice::FixRequestAndRetrySameInstance
                &&& error.kind == if 1 <= key <= 60_000 && (operation matches OperationView::Put {
                    value,
                    ..
                } && value.len() > 65_535) {
                    StorageErrorKind::CapacityExceeded
                } else {
                    StorageErrorKind::InvalidArgument
                }
            }
            &&& count_refusal(current) is None <==> current < 0xffff_ffff
            &&& count_refusal(current) matches Some(error) ==> error.kind
                == StorageErrorKind::CapacityExceeded && error.write_outcome == Some(
                WriteOutcome::NotCommitted,
            )
            &&& resource_exhausted_view().kind == StorageErrorKind::ResourceExhausted
            &&& resource_exhausted_view().retry_advice == RetryAdvice::RetrySameInstance
            &&& resource_exhausted_view().write_outcome == Some(WriteOutcome::NotCommitted)
        }),
{
}

/// An operation that fits is appended unless memory is refused or the batch is full: nothing else
/// keeps it out.
pub proof fn law_fitting_operation_is_appended(
    before: Seq<OperationView>,
    operation: OperationView,
    after: Seq<OperationView>,
    result: Result<()>,
)
    requires
        operation_refusal(operation) is None,
        before.len() < 0xffff_ffff,
        appended(before, operation, operation_refusal(operation), false, after, result),
    ensures
        result is Ok,
        after == before.push(operation),
{
}

} // verus!
