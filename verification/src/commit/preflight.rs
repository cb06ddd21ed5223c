//! Checking a write before anything is done for it, and finding the keys that it changes.

use vstd::prelude::*;

use crate::batch::{BatchOperation, OperationView, WriteBatch, MAX_KEY_VALUE_SIZE};
use crate::error::{
    plain_error, ErrorView, InstanceState, Operation, ProtocolStage, Result, RetryAdvice,
    StorageError, StorageErrorKind, WriteOutcome,
};
use crate::key_index::KeyIndex;
use crate::memory::{asked, Memory};
use crate::vlog::envelope::{operation_key, operation_views, LogicalOperationRef};

verus! {

/// The records of an envelope that hold no operation.
pub const ENVELOPE_BOUNDARY_RECORD_COUNT: usize = 2;

/// The changes of the index that a commit makes beside those of its keys.
pub const INDEX_FIXED_MUTATION_COUNT: usize = 2;

/// The largest number of operations of a write.
pub const MAX_OPERATION_COUNT: u32 = 0xffff_ffff;

/// A refusal while a healthy instance looks at a write.
pub open spec fn preflight_view(
    kind: StorageErrorKind,
    operation: Operation,
    retry_advice: RetryAdvice,
) -> ErrorView {
    plain_error(
        kind,
        operation,
        ProtocolStage::Preflight,
        Some(WriteOutcome::NotCommitted),
        Some(InstanceState::Healthy),
        retry_advice,
    )
}

pub open spec fn write_invalid_view(operation: Operation) -> ErrorView {
    preflight_view(
        StorageErrorKind::InvalidArgument,
        operation,
        RetryAdvice::FixRequestAndRetrySameInstance,
    )
}

pub open spec fn write_capacity_view(operation: Operation) -> ErrorView {
    preflight_view(
        StorageErrorKind::CapacityExceeded,
        operation,
        RetryAdvice::FixRequestAndRetrySameInstance,
    )
}

pub open spec fn permanent_capacity_view(operation: Operation) -> ErrorView {
    preflight_view(StorageErrorKind::CapacityExceeded, operation, RetryAdvice::DoNotRetry)
}

pub open spec fn write_memory_view(operation: Operation) -> ErrorView {
    preflight_view(
        StorageErrorKind::ResourceExhausted,
        operation,
        RetryAdvice::RetrySameInstance,
    )
}

pub fn invalid_argument(operation: Operation) -> (error: StorageError)
    ensures
        error@ == write_invalid_view(operation),
{
    StorageError::write_preflight(
        StorageErrorKind::InvalidArgument,
        operation,
        RetryAdvice::FixRequestAndRetrySameInstance,
    )
}

pub fn capacity_exceeded(operation: Operation) -> (error: StorageError)
    ensures
        error@ == write_capacity_view(operation),
{
    StorageError::write_preflight(
        StorageErrorKind::CapacityExceeded,
        operation,
        RetryAdvice::FixRequestAndRetrySameInstance,
    )
}

pub fn permanent_capacity_exceeded(operation: Operation) -> (error: StorageError)
    ensures
        error@ == permanent_capacity_view(operation),
{
    StorageError::write_preflight(
        StorageErrorKind::CapacityExceeded,
        operation,
        RetryAdvice::DoNotRetry,
    )
}

pub fn resource_exhausted(operation: Operation) -> (error: StorageError)
    ensures
        error@ == write_memory_view(operation),
{
    StorageError::write_preflight(
        StorageErrorKind::ResourceExhausted,
        operation,
        RetryAdvice::RetrySameInstance,
    )
}

/// Why one operation of a write is refused.
pub open spec fn operation_refusal(change: OperationView, operation: Operation) -> Option<
    ErrorView,
> {
    if change.key().len() == 0 || change.key().len() > MAX_KEY_VALUE_SIZE {
        Some(write_invalid_view(operation))
    } else {
        match change.value() {
            None => None,
            Some(value) => if value.len() > u16::MAX {
                Some(write_capacity_view(operation))
            } else if change.key().len() + value.len() > MAX_KEY_VALUE_SIZE {
                Some(write_invalid_view(operation))
            } else {
                None
            },
        }
    }
}

/// Why the first refused operation of a write is refused.
pub open spec fn first_refusal(changes: Seq<OperationView>, operation: Operation) -> Option<
    ErrorView,
>
    decreases changes.len(),
{
    if changes.len() == 0 {
        None
    } else {
        match first_refusal(changes.drop_last(), operation) {
            Some(refusal) => Some(refusal),
            None => operation_refusal(changes.last(), operation),
        }
    }
}

/// A write has more operations than it may have.
pub open spec fn too_many(count: nat, limit: nat) -> bool {
    count + ENVELOPE_BOUNDARY_RECORD_COUNT > usize::MAX || count > limit || count > u32::MAX
}

/// The keys of operations, each once, in the order of their first occurrence.
pub open spec fn distinct_keys(changes: Seq<OperationView>) -> Seq<Seq<u8>>
    decreases changes.len(),
{
    if changes.len() == 0 {
        Seq::empty()
    } else {
        let front = distinct_keys(changes.drop_last());
        if front.contains(changes.last().key()) {
            front
        } else {
            front.push(changes.last().key())
        }
    }
}

/// Why a write is refused.
pub open spec fn write_refusal(changes: Seq<OperationView>, operation: Operation, limit: nat) -> Option<
    ErrorView,
> {
    if too_many(changes.len(), limit) {
        Some(write_capacity_view(operation))
    } else if first_refusal(changes, operation) is Some {
        first_refusal(changes, operation)
    } else if changes.len() == 0 {
        Some(write_invalid_view(operation))
    } else if 2 * distinct_keys(changes).len() + INDEX_FIXED_MUTATION_COUNT > usize::MAX {
        Some(write_capacity_view(operation))
    } else {
        None
    }
}

/// A write that was checked.
pub struct ValidatedWrite<'a> {
    operations: Vec<LogicalOperationRef<'a>>,
    sync: bool,
    distinct_keys: Vec<&'a [u8]>,
    operation_ordinals: Vec<usize>,
    public_operation: Operation,
}

/// A checked write as a mathematical value.
#[verifier::ext_equal]
pub struct WriteView {
    pub operations: Seq<OperationView>,
    pub sync: bool,
    pub public_operation: Operation,
}

impl WriteView {
    /// Every operation fits, and there is one.
    pub open spec fn valid(self) -> bool {
        &&& 0 < self.operations.len() <= u32::MAX
        &&& self.operations.len() + ENVELOPE_BOUNDARY_RECORD_COUNT <= usize::MAX
        &&& first_refusal(self.operations, self.public_operation) is None
        &&& 2 * distinct_keys(self.operations).len() + INDEX_FIXED_MUTATION_COUNT <= usize::MAX
    }
}

impl View for ValidatedWrite<'_> {
    type V = WriteView;

    closed spec fn view(&self) -> WriteView {
        WriteView {
            operations: operation_views(self.operations@),
            sync: self.sync,
            public_operation: self.public_operation,
        }
    }
}

pub open spec fn byte_views(items: Seq<&[u8]>) -> Seq<Seq<u8>> {
    Seq::new(items.len(), |i: int| items[i]@)
}

/// Each operation has the place of its key among the distinct keys.
pub open spec fn are_ordinals(
    ordinals: Seq<usize>,
    changes: Seq<OperationView>,
    keys: Seq<Seq<u8>>,
) -> bool {
    &&& ordinals.len() == changes.len()
    &&& forall|i: int|
        0 <= i < changes.len() ==> (#[trigger] ordinals[i]) < keys.len() && keys[ordinals[i] as int]
            == changes[i].key()
}

impl<'a> ValidatedWrite<'a> {
    #[verifier::type_invariant]
    spec fn well_formed(&self) -> bool {
        &&& self@.valid()
        &&& byte_views(self.distinct_keys@) == distinct_keys(self@.operations)
        &&& are_ordinals(
            self.operation_ordinals@,
            self@.operations,
            distinct_keys(self@.operations),
        )
    }

    pub fn logical_op_count(&self) -> (count: usize)
        ensures
            count == self@.operations.len(),
    {
        self.operations.len()
    }

    pub fn distinct_key_count(&self) -> (count: usize)
        ensures
            count == distinct_keys(self@.operations).len(),
    {
        proof {
            use_type_invariant(self);
            assert(byte_views(self.distinct_keys@).len() == self.distinct_keys@.len());
        }
        self.distinct_keys.len()
    }

    pub fn sync(&self) -> (sync: bool)
        ensures
            sync == self@.sync,
    {
        self.sync
    }

    pub fn public_operation(&self) -> (operation: Operation)
        ensures
            operation == self@.public_operation,
    {
        self.public_operation
    }

    /// The operations, in their order.
    pub fn operations(&self) -> (operations: &Vec<LogicalOperationRef<'a>>)
        ensures
            operation_views(operations@) == self@.operations,
            self@.valid(),
    {
        proof {
            use_type_invariant(self);
        }
        &self.operations
    }

    /// The keys that the write changes.
    pub fn keys(&self) -> (keys: &Vec<&'a [u8]>)
        ensures
            byte_views(keys@) == distinct_keys(self@.operations),
            self@.valid(),
    {
        proof {
            use_type_invariant(self);
        }
        &self.distinct_keys
    }

    /// The place of the key of each operation among the keys.
    pub fn ordinals(&self) -> (ordinals: &Vec<usize>)
        ensures
            are_ordinals(ordinals@, self@.operations, distinct_keys(self@.operations)),
    {
        proof {
            use_type_invariant(self);
        }
        &self.operation_ordinals
    }
}

/// A write passes the checks that are made before any memory is asked for: it has operations,
/// not too many of them, and none is refused.
pub open spec fn passes(changes: Seq<OperationView>, operation: Operation, limit: nat) -> bool {
    changes.len() > 0 && !too_many(changes.len(), limit) && first_refusal(changes, operation)
        is None
}

/// What a check of a write asks of memory: nothing where the write does not pass, and else so
/// many reservations, none of them for more elements than the write has operations.
pub open spec fn asked_to_check(
    before: Memory,
    after: Memory,
    changes: Seq<OperationView>,
    operation: Operation,
    limit: nat,
    times: nat,
) -> bool {
    if passes(changes, operation, limit) {
        asked(before, after, times, changes.len())
    } else {
        after == before
    }
}

/// What a check of a write gives: the write, or why it is refused.
pub open spec fn checked(
    result: Result<ValidatedWrite<'_>>,
    changes: Seq<OperationView>,
    sync: bool,
    operation: Operation,
    limit: nat,
    refused: bool,
) -> bool {
    if refused {
        &&& passes(changes, operation, limit)
        &&& result matches Err(error) && error@ == write_memory_view(operation)
    } else {
        match write_refusal(changes, operation, limit) {
            Some(refusal) => result matches Err(error) && error@ == refusal,
            None => result matches Ok(write) && write@ == (WriteView {
                operations: changes,
                sync,
                public_operation: operation,
            }),
        }
    }
}

fn validate_key(key: &[u8], operation: Operation) -> (result: Result<()>)
    ensures
        match operation_refusal(OperationView::Delete { key: key@ }, operation) {
            Some(refusal) => result matches Err(error) && error@ == refusal,
            None => result is Ok,
        },
{
    if key.len() == 0 || key.len() > MAX_KEY_VALUE_SIZE {
        return Err(invalid_argument(operation));
    }
    Ok(())
}

fn validate_put(key: &[u8], value: &[u8], operation: Operation) -> (result: Result<()>)
    ensures
        match operation_refusal(OperationView::Put { key: key@, value: value@ }, operation) {
            Some(refusal) => result matches Err(error) && error@ == refusal,
            None => result is Ok,
        },
{
    validate_key(key, operation)?;
    if value.len() > 0xffff {
        return Err(capacity_exceeded(operation));
    }
    if key.len() + value.len() > MAX_KEY_VALUE_SIZE {
        return Err(invalid_argument(operation));
    }
    Ok(())
}

fn validate_operation(change: &LogicalOperationRef<'_>, operation: Operation) -> (result: Result<()>)
    ensures
        match operation_refusal(change@, operation) {
            Some(refusal) => result matches Err(error) && error@ == refusal,
            None => result is Ok,
        },
{
    match change {
        LogicalOperationRef::Put { key, value } => validate_put(key, value, operation),
        LogicalOperationRef::Delete { key } => validate_key(key, operation),
    }
}

/// Checks the number of operations of a write.
pub fn validate_operation_count(
    operation_count: usize,
    max_operation_count: usize,
    operation: Operation,
) -> (result: Result<()>)
    ensures
        match result {
            Ok(_) => !too_many(operation_count as nat, max_operation_count as nat),
            Err(error) => too_many(operation_count as nat, max_operation_count as nat) && error@
                == write_capacity_view(operation),
        },
{
    if operation_count > usize::MAX - ENVELOPE_BOUNDARY_RECORD_COUNT || operation_count
        > max_operation_count || operation_count as u64 > MAX_OPERATION_COUNT as u64 {
        return Err(capacity_exceeded(operation));
    }
    Ok(())
}

/// Checks a put.
pub fn preflight_put<'a>(memory: &mut Memory, key: &'a [u8], value: &'a [u8], sync: bool) -> (result: Result<
    ValidatedWrite<'a>,
>)
    requires
        !old(memory).refused(),
    ensures
        match operation_refusal(OperationView::Put { key: key@, value: value@ }, Operation::Put) {
            Some(refusal) => result matches Err(error) && error@ == refusal,
            None => result is Ok == !final(memory).refused(),
        },
        checked(
            result,
            seq![OperationView::Put { key: key@, value: value@ }],
            sync,
            Operation::Put,
            u32::MAX as nat,
            final(memory).refused(),
        ),
        asked_to_check(
            *old(memory),
            *final(memory),
            seq![OperationView::Put { key: key@, value: value@ }],
            Operation::Put,
            u32::MAX as nat,
            5,
        ),
{
    let mut operations: Vec<LogicalOperationRef<'a>> = Vec::new();
    proof {
        reveal_with_fuel(first_refusal, 2);
        reveal_with_fuel(distinct_keys, 2);
        assert(seq![OperationView::Put { key: key@, value: value@ }].drop_last() =~= Seq::empty());
    }
    validate_put(key, value, Operation::Put)?;
    if !memory.reserve_exact(&mut operations, 1) {
        return Err(resource_exhausted(Operation::Put));
    }
    operations.push(LogicalOperationRef::Put { key, value });
    proof {
        assert(operation_views(operations@) =~= seq![
            OperationView::Put { key: key@, value: value@ },
        ]);
    }
    validate_normalized(memory, operations, sync, Operation::Put, MAX_OPERATION_COUNT as usize)
}

/// Checks a delete.
pub fn preflight_delete<'a>(memory: &mut Memory, key: &'a [u8], sync: bool) -> (result: Result<
    ValidatedWrite<'a>,
>)
    requires
        !old(memory).refused(),
    ensures
        match operation_refusal(OperationView::Delete { key: key@ }, Operation::Delete) {
            Some(refusal) => result matches Err(error) && error@ == refusal,
            None => result is Ok == !final(memory).refused(),
        },
        checked(
            result,
            seq![OperationView::Delete { key: key@ }],
            sync,
            Operation::Delete,
            u32::MAX as nat,
            final(memory).refused(),
        ),
        asked_to_check(
            *old(memory),
            *final(memory),
            seq![OperationView::Delete { key: key@ }],
            Operation::Delete,
            u32::MAX as nat,
            5,
        ),
{
    let mut operations: Vec<LogicalOperationRef<'a>> = Vec::new();
    proof {
        reveal_with_fuel(first_refusal, 2);
        reveal_with_fuel(distinct_keys, 2);
        assert(seq![OperationView::Delete { key: key@ }].drop_last() =~= Seq::empty());
    }
    validate_key(key, Operation::Delete)?;
    if !memory.reserve_exact(&mut operations, 1) {
        return Err(resource_exhausted(Operation::Delete));
    }
    operations.push(LogicalOperationRef::Delete { key });
    proof {
        assert(operation_views(operations@) =~= seq![OperationView::Delete { key: key@ }]);
    }
    validate_normalized(memory, operations, sync, Operation::Delete, MAX_OPERATION_COUNT as usize)
}

/// Checks a batch.
pub fn preflight_batch<'a>(memory: &mut Memory, batch: &'a WriteBatch, sync: bool) -> (result: Result<
    ValidatedWrite<'a>,
>)
    requires
        !old(memory).refused(),
    ensures
        checked(
            result,
            batch@,
            sync,
            Operation::WriteBatch,
            u32::MAX as nat,
            final(memory).refused(),
        ),
        asked_to_check(
            *old(memory),
            *final(memory),
            batch@,
            Operation::WriteBatch,
            u32::MAX as nat,
            5,
        ),
{
    preflight_batch_with_operation_limit(memory, batch, sync, MAX_OPERATION_COUNT as usize)
}

/// Checks a batch against a limit on its operations.
pub fn preflight_batch_with_operation_limit<'a>(
    memory: &mut Memory,
    batch: &'a WriteBatch,
    sync: bool,
    max_operation_count: usize,
) -> (result: Result<ValidatedWrite<'a>>)
    requires
        !old(memory).refused(),
    ensures
        checked(
            result,
            batch@,
            sync,
            Operation::WriteBatch,
            max_operation_count as nat,
            final(memory).refused(),
        ),
        asked_to_check(
            *old(memory),
            *final(memory),
            batch@,
            Operation::WriteBatch,
            max_operation_count as nat,
            5,
        ),
{
    let source = batch.operations();
    let count: usize = source.len();
    if count == 0 {
        return Err(invalid_argument(Operation::WriteBatch));
    }
    validate_operation_count(count, max_operation_count, Operation::WriteBatch)?;
    let mut i: usize = 0;
    while i < count
        invariant
            *memory == *old(memory),
            i <= count,
            count == source@.len(),
            count == batch@.len(),
            !memory.refused(),
            !too_many(count as nat, max_operation_count as nat),
            forall|k: int| 0 <= k < batch@.len() ==> #[trigger] source@[k]@ == batch@[k],
            first_refusal(batch@.take(i as int), Operation::WriteBatch) is None,
        decreases count - i,
    {
        proof {
            lemma_refusal_at(batch@, i as int, Operation::WriteBatch);
            assert(source@[i as int]@ == batch@[i as int]);
        }
        match &source[i] {
            BatchOperation::Put { key, value } => {
                validate_put(key.as_slice(), value.as_slice(), Operation::WriteBatch)?;
            },
            BatchOperation::Delete { key } => {
                validate_key(key.as_slice(), Operation::WriteBatch)?;
            },
        }
        i = i + 1;
    }
    proof {
        assert(batch@.take(count as int) =~= batch@);
    }
    let mut operations: Vec<LogicalOperationRef<'a>> = Vec::new();
    if !memory.reserve_exact(&mut operations, count) {
        return Err(resource_exhausted(Operation::WriteBatch));
    }
    let mut j: usize = 0;
    while j < count
        invariant
            asked(*old(memory), *memory, 1, count as nat),
            !old(memory).refused(),
            passes(batch@, Operation::WriteBatch, max_operation_count as nat),
            j <= count,
            count == source@.len(),
            count == batch@.len(),
            !memory.refused(),
            forall|k: int| 0 <= k < batch@.len() ==> #[trigger] source@[k]@ == batch@[k],
            operation_views(operations@) == batch@.take(j as int),
        decreases count - j,
    {
        proof {
            assert(source@[j as int]@ == batch@[j as int]);
        }
        let change = match &source[j] {
            BatchOperation::Put { key, value } => LogicalOperationRef::Put {
                key: key.as_slice(),
                value: value.as_slice(),
            },
            BatchOperation::Delete { key } => LogicalOperationRef::Delete { key: key.as_slice() },
        };
        let ghost before = operation_views(operations@);
        proof {
            assert(change@ == batch@[j as int]);
        }
        operations.push(change);
        j = j + 1;
        proof {
            assert(operation_views(operations@) =~= before.push(change@));
            assert(batch@.take(j as int) =~= batch@.take(j - 1).push(batch@[j - 1]));
        }
    }
    proof {
        assert(batch@.take(count as int) =~= batch@);
    }
    validate_normalized(memory, operations, sync, Operation::WriteBatch, max_operation_count)
}

/// The first refused operation refuses the write.
proof fn lemma_refusal_at(changes: Seq<OperationView>, i: int, operation: Operation)
    requires
        0 <= i < changes.len(),
        first_refusal(changes.take(i), operation) is None,
    ensures
        first_refusal(changes.take(i + 1), operation) == operation_refusal(changes[i], operation),
        operation_refusal(changes[i], operation) is Some ==> first_refusal(changes, operation)
            == operation_refusal(changes[i], operation),
{
    assert(changes.take(i + 1).drop_last() =~= changes.take(i));
    lemma_refusal_stays(changes, i + 1, operation);
}

proof fn lemma_refusal_stays(changes: Seq<OperationView>, n: int, operation: Operation)
    requires
        0 <= n <= changes.len(),
    ensures
        first_refusal(changes.take(n), operation) is Some ==> first_refusal(changes, operation)
            == first_refusal(changes.take(n), operation),
    decreases changes.len(),
{
    if n < changes.len() {
        lemma_refusal_stays(changes.drop_last(), n, operation);
        assert(changes.drop_last().take(n) =~= changes.take(n));
    } else {
        assert(changes.take(n) =~= changes);
    }
}

/// Checks operations and finds their keys.
pub fn validate_normalized<'a>(
    memory: &mut Memory,
    operations: Vec<LogicalOperationRef<'a>>,
    sync: bool,
    public_operation: Operation,
    max_operation_count: usize,
) -> (result: Result<ValidatedWrite<'a>>)
    requires
        !old(memory).refused(),
    ensures
        checked(
            result,
            operation_views(operations@),
            sync,
            public_operation,
            max_operation_count as nat,
            final(memory).refused(),
        ),
        asked_to_check(
            *old(memory),
            *final(memory),
            operation_views(operations@),
            public_operation,
            max_operation_count as nat,
            4,
        ),
{
    let ghost changes = operation_views(operations@);
    let count: usize = operations.len();
    if count == 0 {
        return Err(invalid_argument(public_operation));
    }
    validate_operation_count(count, max_operation_count, public_operation)?;
    let mut i: usize = 0;
    while i < count
        invariant
            *memory == *old(memory),
            i <= count,
            count == operations@.len(),
            changes == operation_views(operations@),
            !memory.refused(),
            !too_many(count as nat, max_operation_count as nat),
            first_refusal(changes.take(i as int), public_operation) is None,
        decreases count - i,
    {
        proof {
            lemma_refusal_at(changes, i as int, public_operation);
            assert(changes[i as int] == operations@[i as int]@);
        }
        validate_operation(&operations[i], public_operation)?;
        i = i + 1;
    }
    proof {
        assert(changes.take(count as int) =~= changes);
    }
    let mut keys: Vec<&'a [u8]> = Vec::new();
    let mut ordinals: Vec<usize> = Vec::new();
    if !memory.reserve_exact(&mut keys, count) || !memory.reserve_exact(&mut ordinals, count) {
        return Err(resource_exhausted(public_operation));
    }
    let mut places = match KeyIndex::reserved(memory, count) {
        Some(places) => places,
        None => return Err(resource_exhausted(public_operation)),
    };
    let mut j: usize = 0;
    proof {
        assert(byte_views(keys@) =~= Seq::empty());
        assert(changes.take(0) =~= Seq::empty());
    }
    while j < count
        invariant
            asked(*old(memory), *memory, 4, count as nat),
            j <= count,
            count == operations@.len(),
            changes == operation_views(operations@),
            !memory.refused(),
            byte_views(keys@) == distinct_keys(changes.take(j as int)),
            keys@.len() <= j,
            are_ordinals(
                ordinals@,
                changes.take(j as int),
                distinct_keys(changes.take(j as int)),
            ),
            forall|key: Seq<u8>| #[trigger]
                places@.dom().contains(key) == byte_views(keys@).contains(key),
            forall|key: Seq<u8>| #[trigger]
                places@.dom().contains(key) ==> places@[key] < keys@.len() && byte_views(
                    keys@,
                )[places@[key] as int] == key,
        decreases count - j,
    {
        let ghost before = byte_views(keys@);
        let ghost front = changes.take(j as int);
        let ghost next = changes.take(j + 1);
        let key = operation_key(operations[j]);
        proof {
            assert(changes[j as int] == operations@[j as int]@);
            assert(next.drop_last() =~= front);
        }
        let ordinal: usize = match places.get(key) {
            Some(ordinal) => ordinal,
            None => {
                let ordinal: usize = keys.len();
                keys.push(key);
                places.insert(key, ordinal);
                proof {
                    assert(byte_views(keys@) =~= before.push(key@));
                    lemma_pushed_contains(before, key@);
                }
                ordinal
            },
        };
        ordinals.push(ordinal);
        proof {
            let now = byte_views(keys@);
            assert(now == distinct_keys(next));
            assert forall|k: int| 0 <= k < next.len() implies (#[trigger] ordinals@[k])
                < now.len() && now[ordinals@[k] as int] == next[k].key() by {
                if k < j {
                    assert(front[k] == next[k]);
                }
            }
        }
        j = j + 1;
    }
    proof {
        assert(changes.take(count as int) =~= changes);
        assert(byte_views(keys@).len() == keys@.len());
    }
    let distinct: usize = keys.len();
    if distinct > (usize::MAX - INDEX_FIXED_MUTATION_COUNT) / 2 {
        return Err(capacity_exceeded(public_operation));
    }
    Ok(
        ValidatedWrite {
            operations,
            sync,
            distinct_keys: keys,
            operation_ordinals: ordinals,
            public_operation,
        },
    )
}

proof fn lemma_pushed_contains(s: Seq<Seq<u8>>, key: Seq<u8>)
    ensures
        forall|x: Seq<u8>| #[trigger] s.push(key).contains(x) == (s.contains(x) || x == key),
{
    assert forall|x: Seq<u8>| #[trigger] s.push(key).contains(x) == (s.contains(x) || x == key) by {
        if s.contains(x) {
            let k = choose|k: int| 0 <= k < s.len() && s[k] == x;
            assert(s.push(key)[k] == x);
        }
        if x == key {
            assert(s.push(key)[s.len() as int] == x);
        }
        if s.push(key).contains(x) {
            let k = choose|k: int| 0 <= k < s.push(key).len() && s.push(key)[k] == x;
            assert(k < s.len() ==> s[k] == x);
        }
    }
}

/// The keys of a write are those of its operations, each once.
pub proof fn law_keys_of_a_write(changes: Seq<OperationView>)
    ensures
        distinct_keys(changes).no_duplicates(),
        distinct_keys(changes).len() <= changes.len(),
        forall|key: Seq<u8>| #[trigger]
            distinct_keys(changes).contains(key) == (exists|i: int|
                0 <= i < changes.len() && (#[trigger] changes[i]).key() == key),
    decreases changes.len(),
{
    if changes.len() > 0 {
        let last = changes.last();
        let front = distinct_keys(changes.drop_last());
        law_keys_of_a_write(changes.drop_last());
        lemma_pushed_contains(front, last.key());
        assert forall|key: Seq<u8>| #[trigger]
            distinct_keys(changes).contains(key) == (exists|i: int|
                0 <= i < changes.len() && (#[trigger] changes[i]).key() == key) by {
            if front.contains(key) {
                let i = choose|i: int|
                    0 <= i < changes.drop_last().len() && (
                    #[trigger] changes.drop_last()[i]).key() == key;
                assert(changes[i].key() == key);
            }
            if key == last.key() {
                assert(changes[changes.len() - 1].key() == key);
            }
            if exists|i: int| 0 <= i < changes.len() && (#[trigger] changes[i]).key() == key {
                let i = choose|i: int|
                    0 <= i < changes.len() && (#[trigger] changes[i]).key() == key;
                if i < changes.len() - 1 {
                    assert(changes.drop_last()[i].key() == key);
                }
            }
        }
    }
}

/// An operation that a write may have: its key has one to sixty thousand bytes, and key and value
/// together have no more.
pub open spec fn may_be_written(change: OperationView) -> bool {
    &&& 1 <= change.key().len() <= 60_000
    &&& change.value() matches Some(value) ==> change.key().len() + value.len() <= 60_000
}

proof fn lemma_first_refusal(changes: Seq<OperationView>, operation: Operation) -> (first: int)
    ensures
        first_refusal(changes, operation) is None ==> forall|i: int|
            0 <= i < changes.len() ==> may_be_written(#[trigger] changes[i]),
        first_refusal(changes, operation) is Some ==> {
            &&& 0 <= first < changes.len()
            &&& !may_be_written(changes[first])
            &&& forall|i: int| 0 <= i < first ==> may_be_written(#[trigger] changes[i])
            &&& first_refusal(changes, operation) == operation_refusal(changes[first], operation)
        },
    decreases changes.len(),
{
    if changes.len() == 0 {
        0
    } else {
        let front = changes.drop_last();
        let first = lemma_first_refusal(front, operation);
        if first_refusal(front, operation) is Some {
            assert forall|i: int| 0 <= i < first implies may_be_written(#[trigger] changes[i]) by {
                assert(front[i] == changes[i]);
            }
            first
        } else {
            assert forall|i: int| 0 <= i < front.len() implies may_be_written(
                #[trigger] changes[i],
            ) by {
                assert(front[i] == changes[i]);
            }
            changes.len() - 1
        }
    }
}

/// A write is taken exactly where it has operations, no more of them than the limit and than a
/// number of four bytes counts, and each of them may be written. A refused one is told that
/// nothing was committed, and which kind of mistake the first one was: too many operations, a
/// value that no length of two bytes tells, or a key or a pair that is no such thing.
pub proof fn law_write_is_refused_for_a_reason(
    changes: Seq<OperationView>,
    operation: Operation,
    limit: nat,
)
    requires
        2 * changes.len() + 2 <= usize::MAX,
    ensures
        ({
            let refusal = write_refusal(changes, operation, limit);
            let too_many = changes.len() > limit || changes.len() > 0xffff_ffff;
            &&& refusal is None <==> changes.len() > 0 && !too_many && forall|i: int|
                0 <= i < changes.len() ==> may_be_written(#[trigger] changes[i])
            &&& refusal matches Some(error) ==> {
                &&& error.operation == operation
                &&& error.protocol_stage == ProtocolStage::Preflight
                &&& error.write_outcome == Some(WriteOutcome::NotCommitted)
                &&& error.instance_state == Some(InstanceState::Healthy)
                &&& error.retry_advice == RetryAdvice::FixRequestAndRetrySameInstance
                &&& too_many ==> error.kind == StorageErrorKind::CapacityExceeded
                &&& !too_many ==> changes.len() == 0 && error.kind
                    == StorageErrorKind::InvalidArgument || exists|first: int|
                    0 <= first < changes.len() && !may_be_written(#[trigger] changes[first]) && (
                    forall|i: int| 0 <= i < first ==> may_be_written(#[trigger] changes[i])) && (
                    error.kind == if 1 <= changes[first].key().len() <= 60_000
                        && changes[first].value()->0.len() > 65_535 {
                        StorageErrorKind::CapacityExceeded
                    } else {
                        StorageErrorKind::InvalidArgument
                    })
            }
        }),
{
    law_keys_of_a_write(changes);
    let first = lemma_first_refusal(changes, operation);
}

/// A write that cannot be taken for want of memory may be tried again as it is; one that no
/// number is left for may not.
pub proof fn law_advice_on_refused_write(operation: Operation)
    ensures
        write_memory_view(operation).kind == StorageErrorKind::ResourceExhausted,
        write_memory_view(operation).retry_advice == RetryAdvice::RetrySameInstance,
        write_memory_view(operation).write_outcome == Some(WriteOutcome::NotCommitted),
        permanent_capacity_view(operation).kind == StorageErrorKind::CapacityExceeded,
        permanent_capacity_view(operation).retry_advice == RetryAdvice::DoNotRetry,
        permanent_capacity_view(operation).write_outcome == Some(WriteOutcome::NotCommitted),
{
}

/// A check gives the write as it was asked for, or says why not: without memory only where there
/// was none, and else exactly as the write is refused. A refused write is not given.
pub proof fn law_check_gives_the_write(
    result: Result<ValidatedWrite<'_>>,
    changes: Seq<OperationView>,
    sync: bool,
    operation: Operation,
    limit: nat,
    refused: bool,
)
    requires
        checked(result, changes, sync, operation, limit, refused),
    ensures
        result matches Ok(write) ==> {
            &&& !refused && write@.operations == changes && write@.sync == sync
            &&& write@.public_operation == operation
            &&& write_refusal(changes, operation, limit) is None
        },
        !refused && write_refusal(changes, operation, limit) is None ==> result is Ok,
        result matches Err(error) ==> error@.write_outcome == Some(WriteOutcome::NotCommitted)
            && error@.operation == operation && (error@.kind == StorageErrorKind::ResourceExhausted
            <==> refused),
        refused ==> changes.len() > 0,
{
    if !refused {
        lemma_refusal_is_about_the_write(changes, operation);
    }
}

proof fn lemma_refusal_is_about_the_write(changes: Seq<OperationView>, operation: Operation)
    ensures
        first_refusal(changes, operation) matches Some(error) ==> error.write_outcome == Some(
            WriteOutcome::NotCommitted,
        ) && error.operation == operation && error.kind != StorageErrorKind::ResourceExhausted,
    decreases changes.len(),
{
    if changes.len() > 0 {
        lemma_refusal_is_about_the_write(changes.drop_last(), operation);
    }
}

} // verus!
