//! The value log: layout, envelopes, files, reads and writes.

use rustkv::claims::ClaimTable;
use rustkv::io_failure::{IoCause, IoFailure, RetryCount};
use rustkv::memory::Memory;
use rustkv::vlog::envelope::{
    append_placement, prepare_envelope, LogicalOperationRef, PreparedEnvelope,
};
use rustkv::vlog::file_map::FileMap;
use rustkv::vlog::file_set::{
    classify_open_error, validate_candidate_header, ExactRead, FileCatalog, FileFacts,
    FileIdentity, Inserted, OpenRetry, OpenStep, ReadHandleCache, ReadOutcome, ReadStep,
};
use rustkv::vlog::geometry::{page_end, remaining_in_page, VLogGeometry, VLogPosition};
use rustkv::vlog::header::VLogFileHeader;
use rustkv::vlog::layout::{LayoutPlanner, LayoutPrelude};
use rustkv::vlog::locate::locate_footer_from_end;
use rustkv::vlog::reader::ValueRead;
use rustkv::vlog::scan::scan_prepared_envelope;
use rustkv::vlog::writer::{AppendAction, AppendState, ValueLogWriter};
use rustkv::vlog::writer_open::{take_up, TakenUp};
use rustkv::vlog::writer_sync::SyncAction;
use rustkv::{ProtocolStage, RetryAdvice, StorageErrorKind, WriteOutcome};

const UUID: [u8; 16] = [3; 16];
const TX: [u8; 16] = [4; 16];

fn position(file_id: u32, offset: u64) -> VLogPosition {
    VLogPosition { file_id, offset }
}

fn small() -> VLogGeometry {
    VLogGeometry::test_only(256, 512, 3).unwrap()
}

fn facts(inode: u64, len: u64) -> FileFacts {
    FileFacts { is_regular: true, identity: FileIdentity { device: 1, inode }, len }
}

fn failure(cause: IoCause, os_code: i32) -> IoFailure {
    IoFailure { cause, os_code: Some(os_code) }
}

fn prepare(
    geometry: VLogGeometry,
    at: VLogPosition,
    commit_seq: u64,
    operations: &[LogicalOperationRef<'_>],
) -> PreparedEnvelope {
    let mut memory = Memory::new();
    let mut planner = LayoutPlanner::from_position(geometry, at).unwrap();
    prepare_envelope(&mut memory, &mut planner, UUID, commit_seq, TX, operations).unwrap()
}

fn new_writer(geometry: VLogGeometry, catalog: &FileCatalog) -> ValueLogWriter {
    let directory = FileIdentity { device: 1, inode: 1 };
    match take_up(&mut ClaimTable::new(), directory, UUID, geometry, catalog, None).unwrap() {
        TakenUp::Ready(writer) => writer,
        TakenUp::Checking(_) => panic!("nothing to check"),
    }
}

#[test]
fn geometry_limits() {
    assert!(VLogGeometry::test_only(64, 512, 3).is_err());
    assert!(VLogGeometry::test_only(256, 500, 3).is_err());
    assert!(VLogGeometry::test_only(256, 512, 1_000_000).is_err());
    let geometry = VLogGeometry::production();
    assert_eq!(
        (geometry.page_size, geometry.max_file_size, geometry.max_file_id),
        (65_536, 4_294_967_296, 999_999)
    );
    assert_eq!(page_end(70_000, geometry).unwrap(), 131_072);
    assert_eq!(remaining_in_page(70_000, geometry).unwrap(), 61_072);
    assert!(page_end(4_294_967_296, geometry).is_err());
}

#[test]
fn the_first_record_stands_behind_the_headers() {
    let mut memory = Memory::new();
    let mut planner = LayoutPlanner::empty(VLogGeometry::production()).unwrap();
    let placement = planner.plan_record(&mut memory, 71).unwrap();
    assert_eq!(
        placement.preludes,
        vec![
            LayoutPrelude::PageHeader { position: position(0, 0), page_no: 0 },
            LayoutPrelude::FileHeader { position: position(0, 16) },
        ]
    );
    assert_eq!(placement.record_start, position(0, 64));
    assert_eq!(planner.position(), position(0, 135));
}

#[test]
fn a_record_that_does_not_fit_goes_to_the_next_page() {
    let mut memory = Memory::new();
    let mut planner = LayoutPlanner::from_position(small(), position(0, 135)).unwrap();
    let placement = planner.plan_record(&mut memory, 100).unwrap();
    assert_eq!(
        placement.preludes,
        vec![
            LayoutPrelude::PageEnd { position: position(0, 135), encoded_len: 121 },
            LayoutPrelude::PageHeader { position: position(0, 256), page_no: 1 },
        ]
    );
    assert_eq!(placement.record_start, position(0, 272));
    // And from the last page of a file to the next file.
    let placement = planner.plan_record(&mut memory, 97).unwrap();
    assert_eq!(placement.record_start, position(0, 372));
    let placement = planner.plan_record(&mut memory, 71).unwrap();
    assert_eq!(placement.record_start, position(1, 64));
    assert_eq!(placement.preludes.len(), 3);
}

#[test]
fn an_envelope_scans_back() {
    let mut memory = Memory::new();
    let operations = [
        LogicalOperationRef::Put { key: b"a", value: b"first" },
        LogicalOperationRef::Delete { key: b"b" },
        LogicalOperationRef::Put { key: b"a", value: b"second" },
    ];
    for geometry in [VLogGeometry::production(), small()] {
        let envelope = prepare(geometry, position(0, 0), 1, &operations);
        assert_eq!(envelope.value_pointers.len(), 3);
        assert!(envelope.value_pointers[1].is_none());
        let scanned = scan_prepared_envelope(
            &mut memory,
            &envelope.chunks,
            geometry,
            UUID,
            envelope.vlog_begin,
            envelope.vlog_end,
            Some(envelope.envelope_crc32c),
        )
        .unwrap();
        assert_eq!((scanned.commit_seq, scanned.tx_uuid), (1, TX));
        assert_eq!((scanned.logical_op_count, scanned.distinct_key_count), (3, 2));
        assert_eq!((scanned.kv_record_count, scanned.delete_record_count), (2, 1));

        let wrong = scan_prepared_envelope(
            &mut memory,
            &envelope.chunks,
            geometry,
            UUID,
            envelope.vlog_begin,
            envelope.vlog_end,
            Some(envelope.envelope_crc32c ^ 1),
        );
        assert_eq!(wrong.unwrap_err().kind, StorageErrorKind::Corruption);
        let other_database = scan_prepared_envelope(
            &mut memory,
            &envelope.chunks,
            geometry,
            [9; 16],
            envelope.vlog_begin,
            envelope.vlog_end,
            None,
        );
        assert!(other_database.is_err());
    }
}

#[test]
fn any_changed_byte_of_an_envelope_is_found() {
    let mut memory = Memory::new();
    let geometry = small();
    let operations = [
        LogicalOperationRef::Put { key: b"key", value: b"value" },
        LogicalOperationRef::Delete { key: b"gone" },
    ];
    let envelope = prepare(geometry, position(0, 0), 7, &operations);
    for chunk in 0..envelope.chunks.len() {
        for byte in 0..envelope.chunks[chunk].bytes.len() {
            let mut chunks = envelope.chunks.clone();
            chunks[chunk].bytes[byte] ^= 0x10;
            let scanned = scan_prepared_envelope(
                &mut memory,
                &chunks,
                geometry,
                UUID,
                envelope.vlog_begin,
                envelope.vlog_end,
                Some(envelope.envelope_crc32c),
            );
            assert!(scanned.is_err(), "chunk {} byte {}", chunk, byte);
        }
    }
}

#[test]
fn a_value_is_read_by_its_pointer() {
    let geometry = VLogGeometry::production();
    let envelope = prepare(
        geometry,
        position(0, 0),
        1,
        &[LogicalOperationRef::Put { key: b"key", value: b"the value" }],
    );
    let mut file = Vec::new();
    for chunk in &envelope.chunks {
        assert_eq!(chunk.position, position(0, file.len() as u64));
        file.extend_from_slice(&chunk.bytes);
    }
    let pointer = envelope.value_pointers[0].unwrap();
    let read = ValueRead::from_pointer(pointer).unwrap();
    let mut memory = Memory::new();
    let mut buffer = read.buffer(&mut memory, file.len() as u64).unwrap();
    let from = read.offset() as usize;
    let to = from + buffer.len();
    buffer.copy_from_slice(&file[from..to]);
    assert_eq!(
        read.finish(&mut memory, &buffer, geometry, b"key").unwrap(),
        b"the value".to_vec()
    );
    assert!(read.finish(&mut memory, &buffer, geometry, b"kez").is_err());
    assert!(read.buffer(&mut memory, from as u64).is_err());
    let mut refusing = Memory::rehearsal(Some(0));
    assert_eq!(
        read.buffer(&mut refusing, file.len() as u64).unwrap_err().kind,
        StorageErrorKind::ResourceExhausted
    );
}

#[test]
fn the_end_record_is_found_from_behind() {
    let geometry = VLogGeometry::production();
    let envelope = prepare(
        geometry,
        position(0, 0),
        6,
        &[LogicalOperationRef::Put { key: b"k", value: b"v" }],
    );
    let mut file = Vec::new();
    for chunk in &envelope.chunks {
        file.extend_from_slice(&chunk.bytes);
    }
    let tail_start = file.len() - 111;
    let located = locate_footer_from_end(
        position(0, tail_start as u64),
        &file[tail_start..],
        envelope.vlog_end,
        geometry,
    )
    .unwrap();
    assert_eq!(located.record_start, position(0, tail_start as u64));
    assert_eq!(located.footer.commit_seq, 6);
    assert_eq!(located.footer.vlog_begin, envelope.vlog_begin);
}

#[test]
fn names_of_files_bind_their_identity() {
    let mut catalog = FileCatalog::new();
    catalog.register(5, facts(50, 0)).unwrap();
    assert!(catalog.verify(5, facts(50, 100)).is_ok());
    assert_eq!(catalog.verify(5, facts(51, 100)).unwrap_err().kind, StorageErrorKind::Corruption);
    assert_eq!(catalog.identity(6).unwrap_err().kind, StorageErrorKind::Corruption);
    assert!(catalog.register(1_000_000, facts(1, 0)).is_err());
    assert_eq!(catalog.file_ids(), vec![5]);
    catalog.unregister(5);
    assert!(catalog.file_ids().is_empty());
}

#[test]
fn the_oldest_handle_leaves_a_full_cache() {
    let mut cache: ReadHandleCache<&str> = ReadHandleCache::new(2);
    assert!(matches!(cache.insert_or_get(1, "one"), Inserted::Kept));
    assert!(matches!(cache.insert_or_get(2, "two"), Inserted::Kept));
    assert_eq!(cache.hit(1), Some(&"one"));
    assert!(matches!(cache.insert_or_get(1, "again"), Inserted::NotKept("again")));
    assert!(matches!(cache.insert_or_get(3, "three"), Inserted::KeptInPlaceOf("one")));
    assert_eq!(cache.order(), vec![2, 3]);
    assert_eq!(cache.remove(2), Some("two"));
    assert_eq!(cache.clear(), vec![(3, "three")]);
    assert_eq!(cache.len(), 0);
    let mut none: ReadHandleCache<&str> = ReadHandleCache::new(0);
    assert!(matches!(none.insert_or_get(1, "one"), Inserted::NotKept("one")));
}

#[test]
fn transient_failures_are_repeated_a_few_times() {
    let mut count = RetryCount::new();
    let interrupted = failure(IoCause::Interrupted, 4);
    let blocked = failure(IoCause::WouldBlock, 11);
    for _ in 0..8 {
        assert!(count.retry(&interrupted));
    }
    assert!(!count.retry(&interrupted));
    for _ in 0..3 {
        assert!(count.retry(&blocked));
    }
    assert!(!count.retry(&blocked));
    assert!(!count.retry(&failure(IoCause::Other, 5)));
}

#[test]
fn opening_without_descriptors_empties_the_cache_once() {
    let mut retry = OpenRetry::new();
    let full = failure(IoCause::Other, 24);
    assert!(matches!(retry.after_failure(1, full), OpenStep::ClearCacheAndRetry));
    let error = match retry.after_failure(1, full) {
        OpenStep::Fail(error) => error,
        OpenStep::Retry | OpenStep::ClearCacheAndRetry => panic!("emptied once already"),
    };
    // A full table of the system is waited for.
    let mut waiting = OpenRetry::new();
    for _ in 0..3 {
        assert!(matches!(
            waiting.after_failure(1, failure(IoCause::Other, 23)),
            OpenStep::Retry
        ));
    }
    assert!(matches!(
        waiting.after_failure(1, failure(IoCause::Other, 23)),
        OpenStep::Fail(_)
    ));
    assert_eq!(error.kind, StorageErrorKind::ResourceExhausted);
    assert_eq!(error.vlog_file_id, Some(1));
    assert_eq!(
        classify_open_error(1, failure(IoCause::NotFound, 2)).kind,
        StorageErrorKind::Corruption
    );
    assert_eq!(classify_open_error(1, failure(IoCause::Other, 5)).kind, StorageErrorKind::Io);
}

#[test]
fn an_exact_read_accounts_for_every_byte() {
    let (mut read, step) = ExactRead::start(2, 100, 10);
    assert!(matches!(step, ReadStep::ReadAt { offset: 100, wanted: 10 }));
    let step = read.advance(ReadOutcome::Read(4));
    assert!(matches!(step, ReadStep::ReadAt { offset: 104, wanted: 6 }));
    let step = read.advance(ReadOutcome::Failed(failure(IoCause::Interrupted, 4)));
    assert!(matches!(step, ReadStep::ReadAt { offset: 104, wanted: 6 }));
    assert!(matches!(read.advance(ReadOutcome::Read(6)), ReadStep::Done));
    let (mut short, _) = ExactRead::start(2, 100, 10);
    match short.advance(ReadOutcome::Read(0)) {
        ReadStep::Fail(error) => {
            assert_eq!(error.kind, StorageErrorKind::Corruption);
            assert_eq!(error.vlog_offset, Some(100));
        }
        _ => panic!("the file ended"),
    }
    let (mut failed, _) = ExactRead::start(2, 100, 10);
    match failed.advance(ReadOutcome::Failed(failure(IoCause::Other, 5))) {
        ReadStep::Fail(error) => {
            assert_eq!((error.kind, error.os_code), (StorageErrorKind::Io, Some(5)));
        }
        _ => panic!("the read failed"),
    }
}

#[test]
fn headers_belong_to_their_file() {
    let encoded = VLogFileHeader::new(UUID, 4).encode().unwrap();
    assert!(validate_candidate_header(4, &UUID, &encoded).is_ok());
    assert!(validate_candidate_header(5, &UUID, &encoded).is_err());
    assert!(validate_candidate_header(4, &TX, &encoded).is_err());
}

#[test]
fn one_directory_has_one_writer() {
    let mut claims = ClaimTable::new();
    let directory = FileIdentity { device: 1, inode: 1 };
    let catalog = FileCatalog::new();
    let geometry = VLogGeometry::production();
    assert!(take_up(&mut claims, directory, UUID, geometry, &catalog, None).is_ok());
    let error = take_up(&mut claims, directory, UUID, geometry, &catalog, None).err().unwrap();
    assert_eq!(error.kind, StorageErrorKind::Busy);
    claims.release(directory);
    assert!(take_up(&mut claims, directory, UUID, geometry, &catalog, None).is_ok());
}

#[test]
fn a_failed_creation_leaves_the_writer_usable_only_if_it_may_pass() {
    let geometry = VLogGeometry::production();
    let catalog = FileCatalog::new();
    let envelope = prepare(
        geometry,
        position(0, 0),
        1,
        &[LogicalOperationRef::Put { key: b"k", value: b"v" }],
    );
    // Nothing was written and the failure may pass: the envelope can be appended again.
    let mut writer = new_writer(geometry, &catalog);
    let mut run = writer.begin_append(&envelope).unwrap();
    assert!(matches!(
        writer.place(&envelope, &mut run),
        AppendAction::CreateFile { file_id: 0 }
    ));
    match writer.file_not_created(&envelope, &mut run, failure(IoCause::WouldBlock, 11)) {
        AppendAction::Fail(error) => {
            assert_eq!(error.kind, StorageErrorKind::ResourceExhausted);
            assert_eq!(error.protocol_stage, ProtocolStage::VLogAppend);
            assert_eq!(error.write_outcome, Some(WriteOutcome::NotCommitted));
        }
        _ => panic!("the file was not created"),
    }
    assert!(!writer.has_terminal_failure());
    assert!(writer.begin_append(&envelope).is_ok());

    // Any other failure stops the writer.
    let mut run = writer.begin_append(&envelope).unwrap();
    writer.place(&envelope, &mut run);
    assert!(matches!(
        writer.file_not_created(&envelope, &mut run, failure(IoCause::StorageFull, 28)),
        AppendAction::Fail(error) if error.kind == StorageErrorKind::CapacityExceeded
    ));
    assert!(writer.has_terminal_failure());
    let refused = writer.begin_append(&envelope).err().unwrap();
    assert_eq!(refused.kind, StorageErrorKind::StorageWriteStopped);
    assert_eq!(refused.retry_advice, RetryAdvice::FixEnvironmentAndReopen);
}

#[test]
fn a_torn_write_stops_the_writer() {
    let geometry = VLogGeometry::production();
    let catalog = FileCatalog::new();
    let mut writer = new_writer(geometry, &catalog);
    let envelope = prepare(
        geometry,
        position(0, 0),
        1,
        &[LogicalOperationRef::Put { key: b"k", value: b"v" }],
    );
    let mut run = writer.begin_append(&envelope).unwrap();
    writer.place(&envelope, &mut run);
    let action = writer.file_created(&envelope, &mut run);
    assert!(matches!(action, AppendAction::Write { chunk: 0, from: 0, offset: 0 }));
    let action = writer.bytes_written(&envelope, &mut run, 3);
    assert!(matches!(action, AppendAction::Write { chunk: 0, from: 3, offset: 3 }));
    match writer.bytes_not_written(&envelope, &mut run, failure(IoCause::StorageFull, 28)) {
        AppendAction::Fail(error) => assert_eq!(error.commit_seq, Some(1)),
        _ => panic!("three bytes are in the log"),
    }
    assert!(writer.has_terminal_failure());
}

#[test]
fn a_sync_covers_every_file_and_directory_entry() {
    let geometry = small();
    let mut catalog = FileCatalog::new();
    let mut writer = new_writer(geometry, &catalog);
    let operations = [
        LogicalOperationRef::Put { key: b"a", value: b"1" },
        LogicalOperationRef::Put { key: b"b", value: b"2" },
        LogicalOperationRef::Put { key: b"c", value: b"3" },
        LogicalOperationRef::Put { key: b"d", value: b"4" },
    ];
    let envelope = prepare(geometry, position(0, 0), 1, &operations);
    assert_eq!(envelope.vlog_end.file_id, 1);
    let mut lengths = [0u64; 2];
    let mut run = writer.begin_append(&envelope).unwrap();
    let mut action = writer.place(&envelope, &mut run);
    loop {
        action = match action {
            AppendAction::CreateFile { .. } => writer.file_created(&envelope, &mut run),
            AppendAction::Write { chunk, from, .. } => {
                let chunk = &envelope.chunks[chunk];
                let count = chunk.bytes.len() as u64 - from;
                lengths[chunk.position.file_id as usize] += count;
                writer.bytes_written(&envelope, &mut run, count)
            }
            AppendAction::Inspect { file_id } => writer.file_inspected(
                &mut catalog,
                &envelope,
                &mut run,
                facts(file_id as u64 + 10, lengths[file_id as usize]),
            ),
            AppendAction::Done => break,
            AppendAction::RemoveIfEmpty { .. } | AppendAction::Fail(_) => panic!("no failure"),
        };
    }
    assert_eq!(
        writer.append_state(),
        AppendState::Open { file_id: 1, offset: envelope.vlog_end.offset }
    );
    assert_eq!(lengths[0], 512);

    let mut run = writer.begin_sync(1, Some(envelope.vlog_end)).unwrap();
    let mut synced = Vec::new();
    let mut directory = 0;
    let mut action = writer.next_sync(&run);
    loop {
        action = match action {
            SyncAction::SyncActive { file_id } | SyncAction::SyncOpened { file_id } => {
                synced.push(file_id);
                writer.file_synced(&mut run)
            }
            SyncAction::OpenFile { file_id } => {
                let facts = facts(file_id as u64 + 10, lengths[file_id as usize]);
                writer.file_opened(&catalog, &run, facts)
            }
            SyncAction::SyncDirectory => {
                directory += 1;
                writer.directory_synced(&mut run)
            }
            SyncAction::Done(done) => {
                assert_eq!(done.target_seq(), 1);
                assert_eq!(done.target_end(), Some(envelope.vlog_end));
                writer.frontier_succeeded(done).unwrap();
                break;
            }
            SyncAction::Fail(_) => panic!("no failure"),
        };
    }
    synced.sort();
    assert_eq!((synced, directory), (vec![0, 1], 1));
    // Nothing is left to bring to the disk.
    let run = writer.begin_sync(1, Some(envelope.vlog_end)).unwrap();
    assert!(run.files.is_empty() && run.directory_entries.is_empty());
}

#[test]
fn a_failed_sync_stops_the_writer() {
    let geometry = VLogGeometry::production();
    let mut catalog = FileCatalog::new();
    let mut writer = new_writer(geometry, &catalog);
    let envelope = prepare(
        geometry,
        position(0, 0),
        1,
        &[LogicalOperationRef::Delete { key: b"k" }],
    );
    let mut length = 0;
    let mut run = writer.begin_append(&envelope).unwrap();
    let mut action = writer.place(&envelope, &mut run);
    loop {
        action = match action {
            AppendAction::CreateFile { .. } => writer.file_created(&envelope, &mut run),
            AppendAction::Write { chunk, from, .. } => {
                let count = envelope.chunks[chunk].bytes.len() as u64 - from;
                length += count;
                writer.bytes_written(&envelope, &mut run, count)
            }
            AppendAction::Inspect { .. } => {
                writer.file_inspected(&mut catalog, &envelope, &mut run, facts(10, length))
            }
            AppendAction::Done => break,
            AppendAction::RemoveIfEmpty { .. } | AppendAction::Fail(_) => panic!("no failure"),
        };
    }
    let run = writer.begin_sync(1, Some(envelope.vlog_end)).unwrap();
    assert!(matches!(writer.next_sync(&run), SyncAction::SyncActive { file_id: 0 }));
    match writer.active_not_synced(&run, failure(IoCause::Other, 5)) {
        SyncAction::Fail(error) => {
            assert_eq!(error.protocol_stage, ProtocolStage::VLogSync);
            assert_eq!(error.os_code, Some(5));
        }
        _ => panic!("the file was not synced"),
    }
    assert!(writer.has_terminal_failure());
    assert!(writer.begin_sync(1, Some(envelope.vlog_end)).is_err());
}

#[test]
fn a_file_that_is_removed_again_leaves_no_trace() {
    let geometry = VLogGeometry::production();
    let catalog = FileCatalog::new();
    let envelope = prepare(
        geometry,
        position(0, 0),
        1,
        &[LogicalOperationRef::Put { key: b"k", value: b"v" }],
    );
    let mut writer = new_writer(geometry, &catalog);
    let mut run = writer.begin_append(&envelope).unwrap();
    writer.place(&envelope, &mut run);
    writer.file_created(&envelope, &mut run);
    assert_eq!(writer.append_state(), AppendState::Open { file_id: 0, offset: 0 });
    let mut action =
        writer.bytes_not_written(&envelope, &mut run, failure(IoCause::WouldBlock, 11));
    while matches!(action, AppendAction::Write { .. }) {
        action = writer.bytes_not_written(&envelope, &mut run, failure(IoCause::WouldBlock, 11));
    }
    assert!(matches!(action, AppendAction::RemoveIfEmpty { file_id: 0 }));
    match writer.file_removed(&envelope, &mut run) {
        AppendAction::Fail(error) => {
            assert_eq!(error.kind, StorageErrorKind::ResourceExhausted);
            assert_eq!(error.write_outcome, Some(WriteOutcome::NotCommitted));
        }
        _ => panic!("nothing was written"),
    }
    assert_eq!(writer.append_state(), AppendState::Empty);
    assert!(!writer.has_terminal_failure());
    let nothing = writer.begin_sync(0, None).unwrap();
    assert!(nothing.files.is_empty() && nothing.directory_entries.is_empty());
    assert!(writer.begin_append(&envelope).is_ok());
}

#[test]
fn a_placement_that_finds_no_memory_keeps_what_it_appended() {
    let geometry = VLogGeometry::production();
    let mut memory = Memory::new();
    let mut planner = LayoutPlanner::empty(geometry).unwrap();
    let placement = planner.plan_record(&mut memory, 64).unwrap();
    // A new log begins with the headers of its first page and of its first file.
    assert_eq!(placement.preludes.len(), 2);
    let mut whole = Vec::new();
    append_placement(&mut memory, &mut whole, &placement, vec![7; 64], UUID, 1, TX, geometry)
        .unwrap();
    assert_eq!(whole.len(), 3);
    for at in 0..2 {
        let mut refusing = Memory::rehearsal(Some(at));
        let mut chunks = Vec::new();
        let bytes = vec![7; 64];
        let error = append_placement(
            &mut refusing,
            &mut chunks,
            &placement,
            bytes,
            UUID,
            1,
            TX,
            geometry,
        )
        .unwrap_err();
        assert_eq!(error.kind, StorageErrorKind::ResourceExhausted);
        assert_eq!(chunks.len(), at);
        for (chunk, wanted) in chunks.iter().zip(&whole) {
            assert_eq!((chunk.position, &chunk.bytes), (wanted.position, &wanted.bytes));
        }
    }
}

#[test]
fn files_are_known_in_the_order_of_their_numbers() {
    let mut files: FileMap<u64> = FileMap::new();
    assert!(files.is_empty());
    for (file_id, value) in [(7, 70), (2, 20), (9, 90), (2, 21)] {
        files.insert(file_id, value);
    }
    assert_eq!(files.file_ids(), vec![2, 7, 9]);
    assert_eq!((files.get(2), files.get(3)), (Some(21), None));
    files.remove(7);
    files.remove(3);
    assert_eq!(files.file_ids(), vec![2, 9]);
    assert!(!files.is_empty());
}
