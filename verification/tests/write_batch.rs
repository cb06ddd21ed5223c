//! Write batches.

use rustkv::batch::{validate_next_operation_count, BatchOperation};
use rustkv::memory::Memory;
use rustkv::{
    InstanceState, Operation, ProtocolStage, RetryAdvice, StorageErrorKind, WriteBatch,
    WriteOutcome,
};

#[test]
fn preserves_operation_order_and_owns_input_bytes() {
    let mut batch = WriteBatch::new();
    let mut key = vec![1, 2, 3];
    let mut value = vec![4, 5, 6];

    batch.put(&key, &value).unwrap();
    batch.delete(&[7, 8]).unwrap();
    key.fill(9);
    value.fill(10);

    assert_eq!(
        *batch.operations(),
        vec![
            BatchOperation::Put {
                key: vec![1, 2, 3],
                value: vec![4, 5, 6],
            },
            BatchOperation::Delete { key: vec![7, 8] },
        ]
    );
}

#[test]
fn allocation_failures_leave_batch_byte_for_byte_unchanged() {
    // The key, the value and the list of operations are reserved in this order.
    for site in [0, 1, 2] {
        let mut batch = WriteBatch::new();
        batch.put(b"existing-key", b"existing-value").unwrap();
        let before = batch.operations().clone();

        let mut memory = Memory::rehearsal(Some(site));
        let error = batch.put_in(&mut memory, b"new-key", b"new-value").unwrap_err();

        assert_eq!(error.schema_version, 1);
        assert_eq!(error.kind, StorageErrorKind::ResourceExhausted);
        assert_eq!(error.operation, Operation::WriteBatch);
        assert_eq!(error.protocol_stage, ProtocolStage::Preflight);
        assert_eq!(error.write_outcome, Some(WriteOutcome::NotCommitted));
        assert_eq!(error.instance_state, None::<InstanceState>);
        assert_eq!(error.retry_advice, RetryAdvice::RetrySameInstance);
        assert_eq!(*batch.operations(), before);

        batch.put(b"new-key", b"new-value").unwrap();
        assert_eq!(batch.len(), 2);
    }
}

#[test]
fn refuses_keys_and_values_that_do_not_fit() {
    let mut batch = WriteBatch::new();
    let longest = vec![7u8; 60_000];
    let too_long = vec![7u8; 60_001];

    assert_eq!(batch.put(b"", b"value").unwrap_err().kind, StorageErrorKind::InvalidArgument);
    assert_eq!(batch.put(&too_long, b"").unwrap_err().kind, StorageErrorKind::InvalidArgument);
    assert_eq!(batch.delete(b"").unwrap_err().kind, StorageErrorKind::InvalidArgument);
    assert_eq!(batch.delete(&too_long).unwrap_err().kind, StorageErrorKind::InvalidArgument);
    assert_eq!(
        batch.put(b"k", &vec![0u8; 65_536]).unwrap_err().kind,
        StorageErrorKind::CapacityExceeded
    );
    let sum = batch.put(b"k", &longest).unwrap_err();
    assert_eq!(sum.kind, StorageErrorKind::InvalidArgument);
    assert_eq!(sum.retry_advice, RetryAdvice::FixRequestAndRetrySameInstance);
    assert!(batch.is_empty());

    batch.put(b"k", &vec![0u8; 59_999]).unwrap();
    batch.put(&longest, b"").unwrap();
    batch.delete(&longest).unwrap();
    assert_eq!(batch.len(), 3);
}

#[test]
fn clearing_empties_a_batch() {
    let mut batch = WriteBatch::new();
    batch.put(b"a", b"1").unwrap();
    batch.delete(b"a").unwrap();
    assert!(!batch.is_empty());
    batch.clear();
    assert!(batch.is_empty());
    assert_eq!(batch.len(), 0);
}

#[test]
fn counts_operations_in_thirty_two_bits() {
    assert!(validate_next_operation_count(u32::MAX as usize - 1).is_ok());
    let error = validate_next_operation_count(u32::MAX as usize).unwrap_err();
    assert_eq!(error.kind, StorageErrorKind::CapacityExceeded);
}

#[test]
fn an_empty_value_is_a_value() {
    let mut batch = WriteBatch::new();
    batch.put(b"k", b"").unwrap();
    assert_eq!(
        batch.operations()[0],
        BatchOperation::Put { key: vec![b'k'], value: vec![] }
    );
}

#[test]
fn the_answers_of_memory_decide() {
    // A put reserves three times and a delete twice.
    for (refuse_at, put, delete) in [
        (None, true, true),
        (Some(0), false, false),
        (Some(1), false, false),
        (Some(2), false, true),
        (Some(3), true, true),
    ] {
        let mut batch = WriteBatch::new();
        let mut memory = Memory::rehearsal(refuse_at);
        assert_eq!(batch.put_in(&mut memory, b"k", b"v").is_ok(), put);
        assert_eq!(memory.is_refused(), !put);
        assert_eq!(batch.len(), put as usize);

        let mut batch = WriteBatch::new();
        let mut memory = Memory::rehearsal(refuse_at);
        assert_eq!(batch.delete_in(&mut memory, b"k").is_ok(), delete);
        assert_eq!(memory.is_refused(), !delete);
        assert_eq!(batch.len(), delete as usize);
    }
    // What does not fit is refused before any memory is asked for.
    let mut memory = Memory::rehearsal(Some(0));
    let mut batch = WriteBatch::new();
    let error = batch.put_in(&mut memory, b"", b"v").unwrap_err();
    assert_eq!(error.kind, StorageErrorKind::InvalidArgument);
    let error = batch.delete_in(&mut memory, &vec![0; 60_001]).unwrap_err();
    assert_eq!(error.kind, StorageErrorKind::InvalidArgument);
    assert!(!memory.is_refused());
}

#[test]
fn a_batch_stays_within_its_limits() {
    let mut batch = WriteBatch::new();
    let long = vec![0u8; 60_001];
    for key in [&b"a"[..], b"", &long, b"b"] {
        for value in [&b""[..], &long, b"1"] {
            let _ = batch.put(key, value);
        }
        let _ = batch.delete(key);
    }
    assert_eq!(batch.len(), 6);
    for operation in batch.operations() {
        let (key, value) = match operation {
            BatchOperation::Put { key, value } => (key, value.len()),
            BatchOperation::Delete { key } => (key, 0),
        };
        assert!(!key.is_empty() && key.len() + value <= 60_000);
    }
}
