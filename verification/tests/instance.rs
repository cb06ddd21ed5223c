//! A running instance: its state, its writes, its reads and its cursors.

use std::collections::BTreeMap;

use rustkv::cursor::{CursorDirection, CursorStep};
use rustkv::db::range::{begin_range, empty_range_cursor, RangePlan};
use rustkv::db::read::{
    begin_get, begin_read, complete_read, handle_read_failure, select_read_view,
    ReadFailureDomain, ReadSource, ReadStep,
};
use rustkv::index::range::{UserKeyBound, UserKeyRange};
use rustkv::index::IndexCompression;
use rustkv::memory::Memory;
use rustkv::runtime::lifecycle::Lifecycle;
use rustkv::runtime::state::{
    decode_state, encode_state, Abandoned, RuntimeControl, StateSnapshot,
};
use rustkv::runtime::write_gate::RequestPhase;
use rustkv::stats::StatsState;
use rustkv::{
    Compression, CursorState, DbIterator, DestroyFailureContext, DestroyStage, InstanceState,
    KeyRange, ManagedObject, Operation, Options, ProtocolStage, RangeCursor, ReadOptions, RetryAdvice, Snapshot, StorageError,
    StorageErrorKind, WriteOptions, WriteOutcome,
};

const HEALTHY: StateSnapshot =
    StateSnapshot { instance_state: InstanceState::Healthy, state_epoch: 0 };

fn error_of(kind: StorageErrorKind, stage: ProtocolStage) -> StorageError {
    StorageError::new(
        kind,
        Operation::Get,
        stage,
        None,
        Some(InstanceState::Healthy),
        RetryAdvice::RetrySameInstance,
    )
}

#[test]
fn default_options() {
    let options = Options::default();
    assert!(!options.create_if_missing && !options.error_if_exists);
    assert_eq!(options.write_buffer_size, 4 * 1024 * 1024);
    assert_eq!(options.max_open_files, 1000);
    assert_eq!(options.block_cache_size, 8 * 1024 * 1024);
    assert_eq!(options.block_size, 4096);
    assert_eq!(options.block_restart_interval, 16);
    assert_eq!(options.max_file_size, 2 * 1024 * 1024);
    assert_eq!(options.compression, Compression::NoCompression);
    assert_eq!(options.vlog_read_handle_cache_capacity, 64);
    assert!(!WriteOptions::default().sync);
    assert!(ReadOptions::default().snapshot.is_none());
    let index = Options { compression: Compression::Lz4, ..options }.fjall_index_options();
    assert_eq!(index.compression, IndexCompression::Lz4);
    assert_eq!(index.max_file_size, options.max_file_size);
}

#[test]
fn a_state_fits_in_a_word() {
    for state in [InstanceState::Healthy, InstanceState::WriteStopped, InstanceState::Poisoned] {
        let snapshot = StateSnapshot { instance_state: state, state_epoch: 77 };
        let back = decode_state(encode_state(snapshot));
        assert_eq!((back.instance_state, back.state_epoch), (state, 77));
    }
    let poisoned =
        StateSnapshot { instance_state: InstanceState::Poisoned, state_epoch: 1 };
    assert_eq!(encode_state(poisoned), 6);
    // An epoch that is too large for the word loses its highest bits.
    let late = StateSnapshot { instance_state: InstanceState::WriteStopped, ..HEALTHY };
    let late = StateSnapshot { state_epoch: (1 << 62) + 3, ..late };
    assert_eq!(encode_state(late), 13);
    assert_eq!(decode_state(13).state_epoch, 3);
}

#[test]
fn writes_start_in_order() {
    let mut runtime = RuntimeControl::new();
    assert!(runtime.enqueue_write(Operation::Put, 1).unwrap());
    assert!(!runtime.enqueue_write(Operation::Put, 2).unwrap());
    assert!(!runtime.enqueue_write(Operation::Put, 3).unwrap());
    assert!(!runtime.enqueue_write(Operation::Put, 4).unwrap());
    assert!(runtime.cancel_queued_write(3));
    assert!(!runtime.cancel_queued_write(3));
    assert_eq!(runtime.queued_write_count(), 2);
    assert_eq!(runtime.finish_write(2), (false, None));
    assert_eq!(runtime.finish_write(1), (true, Some(2)));
    assert_eq!(runtime.finish_write(2), (true, Some(4)));
    assert_eq!(runtime.finish_write(4), (true, None));
    assert_eq!(runtime.active_request(), None);
}

#[test]
fn the_state_only_gets_worse() {
    let mut runtime = RuntimeControl::new();
    runtime.enqueue_write(Operation::Put, 1).unwrap();
    runtime.enqueue_write(Operation::Put, 2).unwrap();
    let stopped = error_of(StorageErrorKind::StorageWriteStopped, ProtocolStage::VLogAppend);
    let (transition, cancelled) = runtime.latch_failure(InstanceState::Healthy, &stopped);
    assert!(transition.changed);
    assert_eq!(cancelled, vec![2]);
    assert_eq!(transition.cancelled_writes, 1);
    assert_eq!(runtime.state().instance_state, InstanceState::WriteStopped);
    assert_eq!(runtime.state().state_epoch, 1);
    // A synchronization that failed poisons.
    let sync = error_of(StorageErrorKind::Io, ProtocolStage::VLogSync);
    let (transition, _) = runtime.latch_failure(InstanceState::Healthy, &sync);
    assert!(transition.changed);
    assert_eq!(runtime.state().instance_state, InstanceState::Poisoned);
    let (transition, _) = runtime.latch_failure(InstanceState::WriteStopped, &stopped);
    assert!(!transition.changed);
    assert_eq!(runtime.state().state_epoch, 2);
    // The first error is kept.
    let first = runtime.first_latched_error().unwrap();
    assert_eq!(first.kind, StorageErrorKind::StorageWriteStopped);
    let mut stats = StatsState::new();
    runtime.publish_stats(&mut stats);
    let reported = runtime.stats(&stats);
    assert_eq!(reported.instance_state, InstanceState::Poisoned);
    assert_eq!(reported.state_epoch, 2);
    assert_eq!(
        reported.first_latched_error.unwrap().kind,
        StorageErrorKind::StorageWriteStopped
    );
}

#[test]
fn writes_are_refused_by_state() {
    let mut runtime = RuntimeControl::new();
    assert!(runtime.check_write_admission(Operation::Put).is_ok());
    runtime.latch_failure(
        InstanceState::WriteStopped,
        &error_of(StorageErrorKind::Io, ProtocolStage::VLogAppend),
    );
    let error = runtime.enqueue_write(Operation::Delete, 1).unwrap_err();
    assert_eq!(error.kind, StorageErrorKind::StorageWriteStopped);
    assert_eq!(error.operation, Operation::Delete);
    assert_eq!(error.protocol_stage, ProtocolStage::Admission);
    assert_eq!(error.write_outcome, Some(WriteOutcome::NotCommitted));
    assert_eq!(error.retry_advice, RetryAdvice::FixEnvironmentAndReopen);
    // Reads go on.
    assert!(begin_read(runtime.state(), Operation::Get).is_ok());
    runtime.latch_failure(
        InstanceState::Poisoned,
        &error_of(StorageErrorKind::Corruption, ProtocolStage::Read),
    );
    let error = runtime.check_write_admission(Operation::Put).unwrap_err();
    assert_eq!(error.kind, StorageErrorKind::StoragePoisoned);
    assert_eq!(error.retry_advice, RetryAdvice::ReopenAndVerify);
    let error = begin_read(runtime.state(), Operation::Get).unwrap_err();
    assert_eq!(error.kind, StorageErrorKind::StoragePoisoned);
}

#[test]
fn an_abandoned_write_poisons() {
    let mut runtime = RuntimeControl::new();
    runtime.enqueue_write(Operation::Put, 1).unwrap();
    runtime.enqueue_write(Operation::Put, 2).unwrap();
    runtime.enqueue_write(Operation::Put, 3).unwrap();
    assert!(matches!(runtime.abandon_write(Operation::Put, 2), Abandoned::Dequeued));
    assert!(matches!(runtime.abandon_write(Operation::Put, 2), Abandoned::NotHeld));
    match runtime.abandon_write(Operation::Put, 1) {
        Abandoned::Poisoned { transition, cancelled } => {
            assert!(transition.changed);
            assert_eq!(cancelled, vec![3]);
        }
        _ => panic!("the active write was abandoned"),
    }
    assert_eq!(runtime.state().instance_state, InstanceState::Poisoned);
    assert_eq!(runtime.active_request(), None);
}

#[test]
fn a_waiting_write_is_started_or_sent_away() {
    let mut request = RequestPhase::Queued;
    assert!(request.outcome(Operation::Put).is_none());
    assert!(request.mark_started());
    assert!(!request.cancel_for_state(InstanceState::Poisoned));
    assert!(matches!(request.outcome(Operation::Put), Some(Ok(()))));
    assert!(request.mark_completed());
    let mut other = RequestPhase::Queued;
    assert!(other.cancel_for_state(InstanceState::WriteStopped));
    assert!(!other.mark_started());
    match other.outcome(Operation::Put) {
        Some(Err(error)) => assert_eq!(error.kind, StorageErrorKind::StorageWriteStopped),
        _ => panic!("sent away"),
    }
}

#[test]
fn an_instance_ends_with_its_last_lease_and_operation() {
    let mut lifecycle = Lifecycle::new_with_external_lease();
    assert!(lifecycle.acquire_operation());
    lifecycle.clone_external_lease();
    assert!(!lifecycle.release_external_lease());
    assert!(!lifecycle.release_external_lease());
    assert!(!lifecycle.snapshot().accepting_operations);
    assert!(!lifecycle.acquire_operation());
    assert!(!lifecycle.is_quiescent());
    assert!(lifecycle.release_operation_guard());
    assert!(lifecycle.is_quiescent());
}

#[test]
fn commit_statistics_move_together() {
    let mut stats = StatsState::default();
    let fresh = format!("{:?}", StatsState::new().snapshot());
    assert_eq!(format!("{:?}", stats.snapshot()), fresh);
    assert!(stats.update_commit_state(9, 4, Some((1, 500)), Some(1), 2, 700));
    let seen = stats.snapshot();
    assert_eq!(seen.schema_version, 1);
    assert_eq!((seen.head_seq, seen.durable_seq, seen.durability_lag), (9, 4, 5));
    let end = seen.durable_vlog_end.unwrap();
    assert_eq!((end.file_id, end.offset), (1, 500));
    assert_eq!((seen.vlog_file_count, seen.vlog_logical_bytes), (2, 700));
    assert!(!stats.update_commit_state(3, 4, None, None, 0, 0));
    assert_eq!(stats.snapshot().head_seq, 9);
}

#[test]
fn a_read_finds_a_value_or_nothing() {
    let mut runtime = RuntimeControl::new();
    let options = ReadOptions::default();
    let (run, source) = begin_get(runtime.state(), 7, &options, b"key").unwrap();
    assert!(matches!(source, ReadSource::Current));
    match run.pointer_read(&mut runtime, Ok(Some(vec![1, 2]))) {
        ReadStep::ReadValue(pointer) => assert_eq!(pointer, vec![1, 2]),
        _ => panic!("a pointer was found"),
    }
    match run.value_read(&mut runtime, Ok(b"value".to_vec())) {
        ReadStep::Found(value) => assert_eq!(value, b"value".to_vec()),
        _ => panic!("a value was read"),
    }
    assert!(matches!(run.pointer_read(&mut runtime, Ok(None)), ReadStep::Absent));
}

#[test]
fn a_read_of_a_key_that_cannot_be() {
    let options = ReadOptions::default();
    for key in [Vec::new(), vec![1u8; 60_001]] {
        let error = begin_get(HEALTHY, 7, &options, &key).err().unwrap();
        assert_eq!(error.kind, StorageErrorKind::InvalidArgument);
        assert_eq!(error.operation, Operation::Get);
        assert_eq!(error.write_outcome, None);
    }
}

#[test]
fn a_snapshot_belongs_to_its_instance() {
    let snapshot = Snapshot::new(7, 3);
    assert!(snapshot.belongs_to(7));
    let options = ReadOptions { snapshot: Some(&snapshot) };
    assert!(matches!(
        select_read_view(&options, 7, Operation::Get, HEALTHY),
        Ok(ReadSource::Kept(3))
    ));
    let error = begin_get(HEALTHY, 8, &options, b"key").err().unwrap();
    assert_eq!(error.kind, StorageErrorKind::InvalidArgument);
}

#[test]
fn corruption_that_a_read_meets_poisons() {
    let mut runtime = RuntimeControl::new();
    runtime.enqueue_write(Operation::Put, 1).unwrap();
    runtime.enqueue_write(Operation::Put, 2).unwrap();
    let (run, _) = begin_get(runtime.state(), 7, &ReadOptions::default(), b"key").unwrap();
    let corrupt = error_of(StorageErrorKind::Corruption, ProtocolStage::Read);
    match run.value_read(&mut runtime, Err(corrupt)) {
        ReadStep::Failed { error, cancelled } => {
            assert_eq!(error.kind, StorageErrorKind::Corruption);
            assert_eq!(error.instance_state, Some(InstanceState::Poisoned));
            assert_eq!(cancelled, vec![2]);
        }
        _ => panic!("the read failed"),
    }
    assert_eq!(runtime.state().instance_state, InstanceState::Poisoned);
    // A read that began before gives nothing out.
    match run.value_read(&mut runtime, Ok(vec![1])) {
        ReadStep::Failed { error, .. } => {
            assert_eq!(error.kind, StorageErrorKind::StoragePoisoned);
        }
        _ => panic!("overtaken"),
    }
    assert!(complete_read(HEALTHY, runtime.state(), Operation::Get).is_err());
}

#[test]
fn exhaustion_that_a_read_meets_passes() {
    let mut runtime = RuntimeControl::new();
    let (error, cancelled) = handle_read_failure(
        &mut runtime,
        error_of(StorageErrorKind::ResourceExhausted, ProtocolStage::Read),
        ReadFailureDomain::ValueLog,
        Operation::Get,
    );
    assert_eq!(error.kind, StorageErrorKind::ResourceExhausted);
    assert!(cancelled.is_empty());
    assert_eq!(runtime.state().instance_state, InstanceState::Healthy);
}

/// Entries under a cursor, with an iterator that a cursor step opened.
struct Entries {
    map: BTreeMap<Vec<u8>, Vec<u8>>,
    open: Vec<(Vec<u8>, Vec<u8>)>,
    front: usize,
    back: usize,
}

impl Entries {
    fn new(keys: &[&str]) -> Entries {
        let mut map = BTreeMap::new();
        for key in keys {
            map.insert(key.as_bytes().to_vec(), key.to_uppercase().into_bytes());
        }
        let mut entries = Entries { map, open: Vec::new(), front: 0, back: 0 };
        entries.open_all(&UserKeyRange::all());
        entries
    }

    fn open_all(&mut self, range: &UserKeyRange) {
        self.open = self
            .map
            .iter()
            .filter(|(key, _)| {
                let above = match &range.lower {
                    UserKeyBound::Unbounded => true,
                    UserKeyBound::Inclusive(bound) => *key >= bound,
                    UserKeyBound::Exclusive(bound) => *key > bound,
                };
                let below = match &range.upper {
                    UserKeyBound::Unbounded => true,
                    UserKeyBound::Inclusive(bound) => *key <= bound,
                    UserKeyBound::Exclusive(bound) => *key < bound,
                };
                above && below
            })
            .map(|(key, value)| (key.clone(), value.clone()))
            .collect();
        self.front = 0;
        self.back = self.open.len();
    }

    fn take(&mut self, direction: CursorDirection) -> Option<(Vec<u8>, Vec<u8>)> {
        if self.front >= self.back {
            return None;
        }
        match direction {
            CursorDirection::Forward => {
                self.front += 1;
                Some(self.open[self.front - 1].clone())
            }
            CursorDirection::Reverse => {
                self.back -= 1;
                Some(self.open[self.back].clone())
            }
        }
    }

    fn settle(&mut self, cursor: &mut DbIterator, mut step: CursorStep) {
        loop {
            step = match step {
                CursorStep::Settled => return,
                CursorStep::CreateIterator { range, direction } => {
                    self.open_all(&range);
                    cursor.iterator_created(Ok(()), direction)
                }
                CursorStep::ReadEntry(direction) => {
                    cursor.entry_read(Ok(self.take(direction)));
                    CursorStep::Settled
                }
            };
        }
    }
}

fn key_of(cursor: &DbIterator) -> Option<String> {
    cursor.key().map(|key| String::from_utf8(key.to_vec()).unwrap())
}

#[test]
fn a_cursor_walks_in_both_directions() {
    let mut entries = Entries::new(&["a", "c", "e"]);
    let mut cursor = DbIterator::new(Operation::Iterator);
    assert_eq!(cursor.state(), CursorState::Unpositioned);
    assert!(!cursor.valid());
    let step = cursor.seek_to_first(Ok(HEALTHY));
    entries.settle(&mut cursor, step);
    assert_eq!(key_of(&cursor).as_deref(), Some("a"));
    assert_eq!(cursor.value(), Some(&b"A"[..]));
    let step = cursor.next(Ok(HEALTHY));
    entries.settle(&mut cursor, step);
    assert_eq!(key_of(&cursor).as_deref(), Some("c"));
    let step = cursor.prev(Ok(HEALTHY));
    entries.settle(&mut cursor, step);
    assert_eq!(key_of(&cursor).as_deref(), Some("a"));
    let step = cursor.next(Ok(HEALTHY));
    entries.settle(&mut cursor, step);
    assert_eq!(key_of(&cursor).as_deref(), Some("c"));
    let step = cursor.seek_to_last(Ok(HEALTHY));
    entries.settle(&mut cursor, step);
    assert_eq!(key_of(&cursor).as_deref(), Some("e"));
    let step = cursor.next(Ok(HEALTHY));
    entries.settle(&mut cursor, step);
    assert_eq!(cursor.state(), CursorState::Exhausted);
    assert!(cursor.status().is_ok());
    let mut memory = Memory::new();
    let step = cursor.seek(&mut memory, Ok(HEALTHY), b"b");
    entries.settle(&mut cursor, step);
    assert_eq!(key_of(&cursor).as_deref(), Some("c"));
    let step = cursor.seek(&mut memory, Ok(HEALTHY), b"f");
    entries.settle(&mut cursor, step);
    assert_eq!(cursor.state(), CursorState::Exhausted);
    let step = cursor.seek(&mut memory, Ok(HEALTHY), b"");
    entries.settle(&mut cursor, step);
    assert_eq!(key_of(&cursor).as_deref(), Some("a"));
}

#[test]
fn a_failed_cursor_stays_failed() {
    let mut entries = Entries::new(&["a"]);
    let mut cursor = DbIterator::new(Operation::Iterator);
    let mut memory = Memory::new();
    let step = cursor.seek(&mut memory, Ok(HEALTHY), &vec![1u8; 60_001]);
    entries.settle(&mut cursor, step);
    assert_eq!(cursor.state(), CursorState::Failed);
    assert_eq!(cursor.status().unwrap_err().kind, StorageErrorKind::InvalidArgument);
    let step = cursor.seek_to_first(Ok(HEALTHY));
    entries.settle(&mut cursor, step);
    assert_eq!(cursor.state(), CursorState::Failed);
    assert_eq!(cursor.key(), None);

    let mut other = DbIterator::new(Operation::Iterator);
    other.seek_to_first(Ok(HEALTHY));
    other.entry_read(Err(error_of(StorageErrorKind::Io, ProtocolStage::Read)));
    assert_eq!(other.status().unwrap_err().kind, StorageErrorKind::Io);
}

fn take_range(keys: &[&str], range: KeyRange<'_>, limit: usize) -> Vec<String> {
    let mut memory = Memory::new();
    let (_, plan) =
        begin_range(&mut memory, HEALTHY, 1, &ReadOptions::default(), range, limit).unwrap();
    let mut entries = Entries::new(keys);
    let mut cursor = match plan {
        RangePlan::Empty => empty_range_cursor(),
        RangePlan::Scan { range, end, .. } => {
            entries.open_all(&range);
            let mut inner = DbIterator::new(Operation::Range);
            let step = inner.seek_to_first(Ok(HEALTHY));
            entries.settle(&mut inner, step);
            RangeCursor::new(inner, end, limit)
        }
    };
    let mut found = Vec::new();
    while let Some(key) = cursor.key() {
        found.push(String::from_utf8(key.to_vec()).unwrap());
        match cursor.next(Ok(HEALTHY)) {
            CursorStep::Settled => {}
            CursorStep::CreateIterator { .. } => panic!("a range is walked once"),
            CursorStep::ReadEntry(direction) => {
                let entry = entries.take(direction);
                cursor.entry_read(Ok(entry));
            }
        }
    }
    assert!(cursor.status().is_ok());
    found
}

#[test]
fn a_range_gives_out_what_it_holds() {
    let keys = ["a", "b", "c", "d"];
    let whole = KeyRange { start: None, end: None };
    assert_eq!(take_range(&keys, whole, 10), vec!["a", "b", "c", "d"]);
    assert_eq!(take_range(&keys, whole, 2), vec!["a", "b"]);
    let middle = KeyRange { start: Some(b"b"), end: Some(b"d") };
    assert_eq!(take_range(&keys, middle, 10), vec!["b", "c"]);
    assert!(take_range(&keys, middle, 0).is_empty());
    let none = KeyRange { start: Some(b"b"), end: Some(b"b") };
    assert!(take_range(&keys, none, 10).is_empty());
}

#[test]
fn a_range_without_bounds_needs_no_memory() {
    let whole = KeyRange { start: None, end: None };
    let upper = KeyRange { start: None, end: Some(b"m") };
    let options = ReadOptions::default();
    let mut memory = Memory::rehearsal(Some(0));
    assert!(begin_range(&mut memory, HEALTHY, 1, &options, whole, 10).is_ok());
    assert!(!memory.is_refused());
    let refused = begin_range(&mut memory, HEALTHY, 1, &options, upper, 10);
    assert_eq!(refused.err().unwrap().kind, StorageErrorKind::ResourceExhausted);
    assert!(memory.is_refused());
    let mut memory = Memory::rehearsal(None);
    assert!(begin_range(&mut memory, HEALTHY, 1, &options, upper, 10).is_ok());
}

#[test]
fn a_range_refuses_bounds_that_cannot_be() {
    let mut memory = Memory::new();
    let long = vec![1u8; 60_001];
    let range = KeyRange { start: Some(&long), end: None };
    let error = begin_range(&mut memory, HEALTHY, 1, &ReadOptions::default(), range, 1)
        .err()
        .unwrap();
    assert_eq!(error.kind, StorageErrorKind::InvalidArgument);
    assert_eq!(error.operation, Operation::Range);
}

#[test]
fn an_error_is_told_in_words() {
    let mut error = error_of(StorageErrorKind::Corruption, ProtocolStage::Read);
    assert_eq!(error.to_text(), "");
    error.message = "a page is gone".to_string();
    assert_eq!(error.to_text(), "a page is gone");
}

#[test]
fn an_error_is_shown_with_its_fields() {
    let mut error = error_of(StorageErrorKind::Io, ProtocolStage::Lifecycle);
    error.os_code = Some(5);
    error.message = "gone".to_string();
    let before = "StorageError { schema_version: 1, kind: Io, operation: Get, \
        protocol_stage: Lifecycle, write_outcome: None, instance_state: Some(Healthy), \
        retry_advice: RetrySameInstance, os_code: Some(5), commit_seq: None, tx_uuid: None, \
        vlog_file_id: None, vlog_offset: None, ";
    let plain = "destroy_failure: false, message: \"gone\", source: false }";
    assert_eq!(format!("{:?}", error), format!("{}{}", before, plain));
    // Of a failed destruction it is only shown that there was one.
    error.destroy_failure = Some(DestroyFailureContext {
        failed_object: ManagedObject::Format,
        stage: DestroyStage::RemoveFile,
        partially_deleted: true,
        os_code: Some(5),
    });
    let failed = "destroy_failure: true, message: \"gone\", source: false }";
    assert_eq!(format!("{:?}", error), format!("{}{}", before, failed));
    assert!(error.shown().destroy_failure);
    let lines = format!("{:#?}", error);
    assert!(lines.contains("\n    destroy_failure: true,\n"));
}
