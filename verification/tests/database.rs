//! Opening, recovering and destroying a database, and the index engine under it.

use rustkv::claims::ClaimTable;
use rustkv::commit::coordinator::{
    classify_vlog_append_failure, fail_started, map_index_commit_error, CommitState,
};
use rustkv::commit::descriptor::IndexEntry;
use rustkv::commit::metadata::{
    encode_tx_meta_key, encode_tx_mutation_key, DatabaseIdentity, DurableFrontier, DurableVLogEnd, RecoveryPhase, RecoveryState,
};
use rustkv::commit::durability::add_frontier_to_batch;
use rustkv::commit::preflight::{preflight_batch, preflight_delete, preflight_put};
use rustkv::db::background::{
    background_cleanup_commit_error, background_failure_target, latch_background_failure,
};
use rustkv::db::destroy::{
    add_destroy_file, check_destroy_length, check_format_files, destroy_file_id,
    inventory_for_destroy, DestroyAction, DestroyFormat, DestroyRun,
};
use rustkv::db::failure::{inventory_corruption, lifecycle_binding_error, retry_advice_for};
use rustkv::db::open::{
    check_absent, check_coexistence, check_existing, check_interrupted_vlog, check_publishable,
    check_written_format, choose_path, draw_identifier, initialization_action,
    validate_final_identity, validate_interrupted_index, IdentifierDraw, IndexContents,
    InitializationAction, OpenPath,
};
use rustkv::format::FormatMetadataV0;
use rustkv::index::batch::{
    durable_frontier_name, head_seq_name, initialization_batch, recovery_state_name,
    IndexAtomicBatch, IndexCommitError, IndexCommitMode, IndexMutation, InternalIndexError,
    InternalIndexSpace,
};
use rustkv::index::engine::{
    check_batch, validate_exact_keyspace_names, validate_options, CommitCheck, EngineCause,
    EngineFailure,
};
use rustkv::index::layout::{
    check_table_entry, check_top_entry, check_tree_entry, current_version, parse_number,
    EntryType, KeyspaceTrees,
};
use rustkv::index::range::InternalKeyRange;
use rustkv::io_failure::{IoCause, IoFailure};
use rustkv::key_index::KeyIndex;
use rustkv::memory::Memory;
use rustkv::recovery::analysis::read_index_state;
use rustkv::recovery::descriptors::{descriptor_range, unstable_descriptor_range};
use rustkv::recovery::execute::{verify_final_state, RecoveryAction, RecoveryRun, RecoveryStage};
use rustkv::recovery::topology::{
    headers_to_check, ManagedInventory, PhysicalTail, RecoveryTopology, VLogInventoryEntry,
};
use rustkv::recovery::undo::{push_head, push_recovery_state};
use rustkv::recovery::trim::{accepted_files, next_trim, trim_done, TrimAction};
use rustkv::root::{
    directory_or_missing, lock_error, regular_or_missing, reserve_root, ManagedEntryKind,
};
use rustkv::runtime::state::RuntimeControl;
use rustkv::vlog::file_set::{FileCatalog, FileIdentity};
use rustkv::vlog::geometry::{VLogGeometry, VLogPosition};
use rustkv::vlog::writer_open::{take_up, TakenUp};
use rustkv::{
    DestroyStage, InstanceState, ManagedObject, Operation, Options, ProtocolStage, RetryAdvice,
    StorageError, StorageErrorKind, WriteBatch, WriteOutcome,
};

const UUID: [u8; 16] = [6; 16];
const REGULAR: ManagedEntryKind = ManagedEntryKind::RegularFile { len: 36 };

fn position(file_id: u32, offset: u64) -> VLogPosition {
    VLogPosition { file_id, offset }
}

fn identity_bytes() -> Vec<u8> {
    DatabaseIdentity {
        identity_format_version: 0,
        database_format_version: 0,
        database_uuid: UUID,
        keyspace_layout_version: 0,
    }
    .encode()
    .unwrap()
}

fn empty_frontier() -> DurableFrontier {
    DurableFrontier { durable_seq: 0, durable_vlog_end: DurableVLogEnd::Empty }
}

fn frontier_at(durable_seq: u64, offset: u64) -> DurableFrontier {
    DurableFrontier {
        durable_seq,
        durable_vlog_end: DurableVLogEnd::Position(position(0, offset)),
    }
}

#[test]
fn what_is_found_decides_how_a_database_is_opened() {
    let format = FormatMetadataV0::new(UUID).unwrap();
    assert!(matches!(choose_path(&Some(format), &None), Ok(OpenPath::Existing)));
    assert!(matches!(choose_path(&None, &Some(format)), Ok(OpenPath::Interrupted)));
    assert!(matches!(choose_path(&None, &None), Ok(OpenPath::Absent)));
    let both = choose_path(&Some(format), &Some(format)).err().unwrap();
    assert_eq!(both.kind, StorageErrorKind::InvalidLayout);
    assert!(check_coexistence(REGULAR, REGULAR).is_err());
    assert!(check_coexistence(REGULAR, ManagedEntryKind::Missing).is_ok());

    let missing = ManagedEntryKind::Missing;
    assert!(check_absent(missing, missing, true).is_ok());
    assert_eq!(
        check_absent(missing, missing, false).unwrap_err().kind,
        StorageErrorKind::NotFound
    );
    assert_eq!(
        check_absent(ManagedEntryKind::Directory, missing, true).unwrap_err().kind,
        StorageErrorKind::InvalidLayout
    );
    assert_eq!(check_existing(true).unwrap_err().kind, StorageErrorKind::InvalidArgument);
    assert!(check_existing(false).is_ok());
    assert!(check_interrupted_vlog(ManagedEntryKind::Directory, true).is_err());
    assert!(check_interrupted_vlog(ManagedEntryKind::Directory, false).is_ok());
}

#[test]
fn the_format_is_published_last() {
    let mut taken = 0;
    let mut actions = Vec::new();
    while let Some(action) = initialization_action(taken) {
        actions.push(action);
        taken += 1;
    }
    assert_eq!(actions.len(), 13);
    assert!(matches!(actions[0], InitializationAction::WriteTemporaryFormat));
    assert!(matches!(actions[11], InitializationAction::PublishFormat));
    assert!(matches!(actions[12], InitializationAction::SyncRoot));
    let format = FormatMetadataV0::new(UUID).unwrap();
    assert!(check_written_format(&Some(format), &format).is_ok());
    assert!(check_written_format(&None, &format).is_err());
    assert!(check_publishable(ManagedEntryKind::Missing, REGULAR).is_ok());
    assert!(check_publishable(REGULAR, REGULAR).is_err());
}

#[test]
fn identifiers_are_not_zero() {
    assert!(matches!(draw_identifier(0, UUID), IdentifierDraw::Use(UUID)));
    assert!(matches!(draw_identifier(2, [0; 16]), IdentifierDraw::DrawAgain));
    match draw_identifier(3, [0; 16]) {
        IdentifierDraw::GiveUp(error) => {
            assert_eq!(error.kind, StorageErrorKind::Unrecoverable);
        }
        _ => panic!("four draws are enough"),
    }
}

#[test]
fn an_interrupted_index_holds_nothing_of_its_own() {
    let format = FormatMetadataV0::new(UUID).unwrap();
    let empty = IndexContents {
        identity: Ok(None),
        has_user_entries: Ok(false),
        has_transaction_entries: Ok(false),
        system_entries: Vec::new(),
        system_failure: None,
    };
    assert!(validate_interrupted_index(empty, &format).is_ok());
    let entries = vec![
        IndexEntry {
            key: b"database_identity".to_vec(),
            value: identity_bytes(),
        },
        IndexEntry {
            key: durable_frontier_name().to_vec(),
            value: empty_frontier().encode().unwrap(),
        },
        IndexEntry { key: head_seq_name().to_vec(), value: vec![0; 8] },
    ];
    let made = IndexContents {
        identity: Ok(Some(identity_bytes())),
        has_user_entries: Ok(false),
        has_transaction_entries: Ok(false),
        system_entries: entries.clone(),
        system_failure: None,
    };
    assert!(validate_interrupted_index(made, &format).is_ok());
    let used = IndexContents {
        identity: Ok(Some(identity_bytes())),
        has_user_entries: Ok(true),
        has_transaction_entries: Ok(false),
        system_entries: entries,
        system_failure: None,
    };
    assert!(validate_interrupted_index(used, &format).is_err());
}

#[test]
fn the_index_says_whose_it_is() {
    let format = FormatMetadataV0::new(UUID).unwrap();
    let head = || Ok(Some(vec![0; 8]));
    let frontier = || Ok(Some(empty_frontier().encode().unwrap()));
    assert!(
        validate_final_identity(Ok(Some(identity_bytes())), head(), frontier(), &format).is_ok()
    );
    assert!(validate_final_identity(Ok(None), head(), frontier(), &format).is_err());
    let other = FormatMetadataV0::new([7; 16]).unwrap();
    let error = validate_final_identity(Ok(Some(identity_bytes())), head(), frontier(), &other)
        .unwrap_err();
    assert_eq!(error.kind, StorageErrorKind::InvalidLayout);
    assert!(
        validate_final_identity(Ok(Some(identity_bytes())), Ok(None), frontier(), &format)
            .is_err()
    );
}

#[test]
fn the_stored_state_is_read_and_checked() {
    let frontier = frontier_at(3, 500);
    let state = read_index_state(
        Ok(Some(identity_bytes())),
        Ok(Some(frontier.encode().unwrap())),
        Ok(Some(5u64.to_le_bytes().to_vec())),
        Ok(None),
        0,
        &UUID,
        true,
    )
    .unwrap();
    assert_eq!((state.head_seq, state.durable_frontier), (5, frontier));
    assert!(state.recovery_state.is_none());
    let behind = read_index_state(
        Ok(Some(identity_bytes())),
        Ok(Some(frontier.encode().unwrap())),
        Ok(Some(2u64.to_le_bytes().to_vec())),
        Ok(None),
        0,
        &UUID,
        true,
    );
    assert_eq!(behind.err().unwrap().kind, StorageErrorKind::Corruption);
}

#[test]
fn ranges_hold_the_keys_of_their_transactions() {
    let mut memory = Memory::new();
    let range = unstable_descriptor_range(&mut memory, 3, 5).unwrap().unwrap();
    let start = range.start_inclusive.unwrap();
    // Open above, so that a transaction behind the head is seen.
    assert!(range.end_exclusive.is_none());
    let key = |seq| rustkv::commit::metadata::encode_tx_meta_key(seq).unwrap();
    assert!(key(3) < start && key(4) >= start);
    assert!(unstable_descriptor_range(&mut memory, u64::MAX, u64::MAX).unwrap().is_none());
    assert_eq!(
        unstable_descriptor_range(&mut memory, 4, 3).err().unwrap().kind,
        StorageErrorKind::Corruption
    );
    let one = descriptor_range(&mut memory, 4).unwrap();
    assert!(key(4) >= one.start_inclusive.unwrap());
    assert!(key(5) >= one.end_exclusive.unwrap());
}

#[test]
fn files_form_one_log() {
    let geometry = VLogGeometry::test_only(256, 512, 5).unwrap();
    let mut memory = Memory::new();
    let mut inventory = ManagedInventory::new();
    for (file_id, len) in [(1, 300), (0, 512)] {
        inventory.add(&mut memory, VLogInventoryEntry { file_id, len }).unwrap();
    }
    let stable = DurableVLogEnd::Position(position(0, 512));
    let topology = RecoveryTopology::analyze(&inventory, stable, geometry).unwrap();
    assert_eq!(topology.physical_tail, PhysicalTail::Position(position(1, 300)));
    assert!(topology.has_suffix_after(&inventory, stable));
    let all = DurableVLogEnd::Position(position(1, 300));
    assert!(!topology.has_suffix_after(&inventory, all));
    assert!(topology.physical_tail_matches(all));
    assert!(topology.contains_end(&inventory, stable));
    // A frontier behind the end of the log is not covered by it.
    let behind = DurableVLogEnd::Position(position(1, 400));
    assert!(RecoveryTopology::analyze(&inventory, behind, geometry).is_err());
    // A hole in the durable part is corruption.
    let mut holes = ManagedInventory::new();
    holes.add(&mut memory, VLogInventoryEntry { file_id: 0, len: 512 }).unwrap();
    holes.add(&mut memory, VLogInventoryEntry { file_id: 2, len: 300 }).unwrap();
    let end = DurableVLogEnd::Position(position(2, 300));
    assert_eq!(
        RecoveryTopology::analyze(&holes, end, geometry).err().unwrap().kind,
        StorageErrorKind::Corruption
    );
    let mut twice = ManagedInventory::new();
    twice.add(&mut memory, VLogInventoryEntry { file_id: 0, len: 512 }).unwrap();
    twice.add(&mut memory, VLogInventoryEntry { file_id: 0, len: 512 }).unwrap();
    assert!(RecoveryTopology::analyze(&twice, stable, geometry).is_err());
}

#[test]
fn a_begun_recovery_goes_on_where_it_was() {
    let mut run = RecoveryRun {
        stage: RecoveryStage::Begin,
        head_seq: 4,
        frontier: frontier_at(2, 500),
        state: Some(RecoveryState {
            phase: RecoveryPhase::Undo,
            original_head: 5,
            target_seq: 3,
            target_vlog_end: DurableVLogEnd::Position(position(0, 700)),
            next_undo_seq: 4,
            trim_required: true,
        }),
        accepted: frontier_at(3, 700),
        needs_undo: true,
        needs_promote: true,
        needs_trim: true,
    };
    assert!(run.can_begin());
    assert!(!RecoveryRun { head_seq: 5, ..run }.can_begin());
    assert!(!RecoveryRun { needs_promote: false, ..run }.can_begin());
    assert!(!RecoveryRun { accepted: frontier_at(3, 800), ..run }.can_begin());
    assert!(!RecoveryRun { accepted: frontier_at(0, 700), ..run }.can_begin());
    assert!(!RecoveryRun { frontier: frontier_at(0, 500), ..run }.can_begin());
    let mut told = Vec::new();
    loop {
        match run.next() {
            RecoveryAction::WriteState(_) => told.push("write".to_string()),
            RecoveryAction::Undo { commit_seq, next_state } => {
                told.push(format!("undo {}", commit_seq));
                assert_eq!(next_state.next_undo_seq, commit_seq - 1);
            }
            RecoveryAction::SyncAccepted { .. } => told.push("sync".to_string()),
            RecoveryAction::CheckBoundary => told.push("check".to_string()),
            RecoveryAction::MoveFrontier { frontier, next_state } => {
                told.push(format!("move {}", frontier.durable_seq));
                assert_eq!(next_state.unwrap().phase, RecoveryPhase::Trim);
            }
            RecoveryAction::Trim { .. } => told.push("trim".to_string()),
            RecoveryAction::DeleteState => told.push("forget".to_string()),
            RecoveryAction::Verify { head_seq, frontier } => {
                told.push(format!("verify {} {}", head_seq, frontier.durable_seq));
            }
            RecoveryAction::Finished => break,
        }
        run.done();
    }
    assert_eq!(told[0], "undo 4");
    assert!(told.contains(&"move 3".to_string()));
    let last = told.last().unwrap();
    assert_eq!(last, "verify 3 3");
}

#[test]
fn the_end_of_a_recovery_is_verified() {
    let geometry = VLogGeometry::production();
    let mut inventory = ManagedInventory::new();
    inventory
        .add(&mut Memory::new(), VLogInventoryEntry { file_id: 0, len: 500 })
        .unwrap();
    let frontier = frontier_at(3, 500);
    let topology =
        RecoveryTopology::analyze(&inventory, frontier.durable_vlog_end, geometry).unwrap();
    assert!(verify_final_state(3, frontier, 3, frontier, false, &topology).is_ok());
    assert!(verify_final_state(3, frontier, 4, frontier, false, &topology).is_err());
    assert!(verify_final_state(3, frontier, 3, frontier, true, &topology).is_err());
}

#[test]
fn a_write_is_checked_before_anything_happens() {
    let mut memory = Memory::new();
    let put = preflight_put(&mut memory, b"k", b"v", true).unwrap();
    assert!(put.sync());
    assert_eq!(put.public_operation(), Operation::Put);
    assert_eq!((put.logical_op_count(), put.distinct_key_count()), (1, 1));
    let error = preflight_put(&mut memory, b"", b"v", false).err().unwrap();
    assert_eq!(
        (error.kind, error.operation, error.write_outcome),
        (
            StorageErrorKind::InvalidArgument,
            Operation::Put,
            Some(WriteOutcome::NotCommitted)
        )
    );
    assert!(preflight_put(&mut memory, b"k", &vec![0; 60_000], false).is_err());
    assert!(preflight_delete(&mut memory, &vec![0; 60_001], false).is_err());
    let mut refusing = Memory::rehearsal(Some(0));
    let error = preflight_put(&mut refusing, b"k", b"v", false).err().unwrap();
    assert_eq!(error.kind, StorageErrorKind::ResourceExhausted);

    let mut batch = WriteBatch::new();
    batch.put(b"b", b"1").unwrap();
    batch.put(b"a", b"2").unwrap();
    batch.delete(b"b").unwrap();
    let write = preflight_batch(&mut memory, &batch, false).unwrap();
    assert_eq!(write.keys().len(), 2);
    assert_eq!(write.keys()[0], b"b");
    assert_eq!(write.ordinals(), &vec![0, 1, 0]);
}

#[test]
fn a_full_disk_stops_writes_and_other_failures_poison() {
    let mut append = StorageError::write_protocol(
        StorageErrorKind::Io,
        Operation::Put,
        ProtocolStage::VLogAppend,
        WriteOutcome::NotCommitted,
        InstanceState::Healthy,
        RetryAdvice::FixEnvironmentAndReopen,
    );
    assert_eq!(classify_vlog_append_failure(&append, false), InstanceState::Healthy);
    assert_eq!(classify_vlog_append_failure(&append, true), InstanceState::Poisoned);
    for code in [28, 30, 69, 122] {
        append.os_code = Some(code);
        assert_eq!(classify_vlog_append_failure(&append, true), InstanceState::WriteStopped);
    }
    append.os_code = None;
    append.kind = StorageErrorKind::CapacityExceeded;
    assert_eq!(classify_vlog_append_failure(&append, true), InstanceState::WriteStopped);
}

#[test]
fn an_index_commit_says_whether_it_happened() {
    let source = InternalIndexError::new(StorageErrorKind::Io, Some(5));
    let (error, state) = map_index_commit_error(
        IndexCommitError::not_applied(source),
        Operation::Put,
        ProtocolStage::IndexCommit,
        Some((4, UUID)),
    );
    assert_eq!(error.write_outcome, Some(WriteOutcome::NotCommitted));
    assert_eq!((error.commit_seq, error.os_code), (Some(4), Some(5)));
    assert_eq!(state, InstanceState::Poisoned);
    let full = InternalIndexError::new(StorageErrorKind::ResourceExhausted, None);
    let (error, state) = map_index_commit_error(
        IndexCommitError::not_applied(full),
        Operation::Put,
        ProtocolStage::IndexCommit,
        None,
    );
    assert_eq!(error.retry_advice, RetryAdvice::FixEnvironmentAndReopen);
    assert_eq!(state, InstanceState::WriteStopped);
    let (error, state) = map_index_commit_error(
        IndexCommitError::unknown(source),
        Operation::Put,
        ProtocolStage::IndexCommit,
        Some((4, UUID)),
    );
    assert_eq!(error.write_outcome, Some(WriteOutcome::CommitUnknown));
    assert_eq!(state, InstanceState::Poisoned);
}

#[test]
fn a_commit_state_fits_its_log() {
    let catalog = FileCatalog::new();
    let directory = FileIdentity { device: 1, inode: 1 };
    let geometry = VLogGeometry::production();
    let taken =
        take_up(&mut ClaimTable::new(), directory, UUID, geometry, &catalog, None).unwrap();
    let writer = match taken {
        TakenUp::Ready(writer) => writer,
        TakenUp::Checking(_) => panic!("nothing to check"),
    };
    let state = CommitState::initial(0, empty_frontier(), &writer).unwrap();
    assert_eq!(state.head_seq, 0);
    assert!(state.barrier().is_none());
    assert!(CommitState::initial(3, frontier_at(3, 500), &writer).is_err());
}

#[test]
fn a_new_index_is_initialized_once_and_durably() {
    let mut memory = Memory::new();
    let batch = initialization_batch(&mut memory, 0, UUID).unwrap();
    assert!(batch.is_database_initialization());
    assert_eq!(batch.len(), 3);
    assert!(matches!(check_batch(&batch, IndexCommitMode::SyncAll), Ok(CommitCheck::Empty)));
    assert!(check_batch(&batch, IndexCommitMode::Buffer).is_err());
    // An ordinary batch does not touch the identity.
    let mut ordinary = IndexAtomicBatch::new();
    assert!(ordinary.is_empty());
    let error = ordinary
        .try_push(
            &mut memory,
            IndexMutation::DeleteInternal {
                space: InternalIndexSpace::System,
                key: b"database_identity".to_vec(),
            },
        )
        .unwrap_err();
    assert_eq!(error.kind, StorageErrorKind::InvalidArgument);
    ordinary
        .try_push(
            &mut memory,
            IndexMutation::DeleteInternal {
                space: InternalIndexSpace::System,
                key: recovery_state_name().to_vec(),
            },
        )
        .unwrap();
    assert!(matches!(
        check_batch(&ordinary, IndexCommitMode::Buffer),
        Ok(CommitCheck::Identity)
    ));
}

#[test]
fn ranges_of_internal_keys_are_ordered() {
    assert!(InternalKeyRange::new(Some(vec![1]), Some(vec![2])).is_ok());
    assert!(InternalKeyRange::new(Some(vec![2]), Some(vec![1])).is_err());
}

#[test]
fn engine_options_have_limits() {
    let options = Options::default().fjall_index_options();
    let validated = validate_options(&options).unwrap();
    assert_eq!((validated.block_size, validated.block_restart_interval), (4096, 16));
    let mut wrong = options;
    wrong.max_open_files = 9;
    assert_eq!(validate_options(&wrong).err().unwrap().kind, StorageErrorKind::InvalidArgument);
    let mut wrong = options;
    wrong.block_restart_interval = 256;
    assert!(validate_options(&wrong).is_err());
    let mut wrong = options;
    wrong.block_size = 1_023;
    assert!(validate_options(&wrong).is_err());
    let mut wrong = options;
    wrong.write_buffer_size = 0;
    assert!(validate_options(&wrong).is_err());
    assert!(validate_exact_keyspace_names(3, true, true, true).is_ok());
    assert!(validate_exact_keyspace_names(4, true, true, true).is_err());
    assert!(validate_exact_keyspace_names(3, true, false, true).is_err());
}

#[test]
fn engine_failures_have_kinds() {
    let kind = |cause, below| EngineFailure { cause, below }.internal_error().kind;
    assert_eq!(kind(EngineCause::Io, Some(Some(5))), StorageErrorKind::Io);
    assert_eq!(kind(EngineCause::Storage, Some(None)), StorageErrorKind::Io);
    assert_eq!(kind(EngineCause::Storage, None), StorageErrorKind::Corruption);
    assert_eq!(kind(EngineCause::Decompress, None), StorageErrorKind::Corruption);
    assert_eq!(kind(EngineCause::InvalidVersion, None), StorageErrorKind::IncompatibleFormat);
    assert_eq!(kind(EngineCause::Poisoned, None), StorageErrorKind::StoragePoisoned);
    assert_eq!(kind(EngineCause::KeyspaceDeleted, None), StorageErrorKind::InvalidLayout);
    assert_eq!(kind(EngineCause::Locked, None), StorageErrorKind::Busy);
    assert_eq!(kind(EngineCause::Other, None), StorageErrorKind::Unrecoverable);
    let error = EngineFailure { cause: EngineCause::Io, below: Some(Some(5)) }
        .storage_error(Operation::Get, ProtocolStage::Read);
    assert_eq!((error.os_code, error.operation), (Some(5), Operation::Get));
}

#[test]
fn the_engine_directory_has_known_entries() {
    let file = EntryType::File;
    assert!(check_top_entry(Some(b"0.jnl"), file, false).unwrap());
    assert!(!check_top_entry(Some(b"keyspaces"), EntryType::Directory, false).unwrap());
    assert!(check_top_entry(Some(b"00.jnl"), file, false).is_err());
    assert!(check_top_entry(Some(b"notes.txt"), file, false).is_err());
    assert!(check_top_entry(None, file, false).is_err());
    assert!(!check_top_entry(Some(b"link"), EntryType::Symlink, true).unwrap());

    let mut trees = KeyspaceTrees::new();
    for name in [b"0", b"1", b"2"] {
        assert!(trees.entry(Some(name), EntryType::Directory, false).unwrap());
    }
    assert!(trees.complete().is_err());
    assert!(trees.entry(Some(b"2"), EntryType::Directory, false).is_err());
    assert!(trees.entry(Some(b"4"), EntryType::Directory, false).is_err());
    assert!(trees.entry(Some(b"3"), EntryType::Directory, false).unwrap());
    assert!(trees.complete().is_ok());

    assert!(check_tree_entry(Some(b"v12"), file, false).is_ok());
    assert!(check_tree_entry(Some(b"vx"), file, false).is_err());
    assert!(check_tree_entry(Some(b"tables"), EntryType::Directory, false).is_ok());
    assert!(check_table_entry(Some(b"17"), file, false).is_ok());
    assert!(check_table_entry(Some(b"x17"), file, false).is_err());
    assert_eq!(parse_number(b"v042", 1, 4), Some(42));
    assert_eq!(parse_number(b"18446744073709551615", 0, 20), Some(u64::MAX));
    assert_eq!(parse_number(b"18446744073709551616", 0, 20), None);
    let mut marker = vec![0u8; 25];
    marker[0] = 9;
    assert_eq!(current_version(&marker).unwrap(), 9);
    marker[24] = 1;
    assert_eq!(current_version(&marker).unwrap_err().kind, StorageErrorKind::Corruption);
}

#[test]
fn a_root_is_held_once() {
    let mut table = ClaimTable::new();
    let root = FileIdentity { device: 1, inode: 2 };
    reserve_root(&mut table, root).unwrap();
    assert_eq!(reserve_root(&mut table, root).unwrap_err().kind, StorageErrorKind::Busy);
    assert_eq!(
        lock_error(IoFailure { cause: IoCause::WouldBlock, os_code: Some(11) }).kind,
        StorageErrorKind::Busy
    );
    assert!(regular_or_missing(REGULAR).unwrap());
    assert!(!regular_or_missing(ManagedEntryKind::Missing).unwrap());
    assert!(regular_or_missing(ManagedEntryKind::Symlink).is_err());
    assert!(directory_or_missing(ManagedEntryKind::Directory).unwrap());
    assert!(directory_or_missing(REGULAR).is_err());
}

#[test]
fn advice_goes_by_the_kind_of_error() {
    assert_eq!(
        retry_advice_for(StorageErrorKind::InvalidArgument),
        RetryAdvice::FixRequestAndRetrySameInstance
    );
    assert_eq!(
        retry_advice_for(StorageErrorKind::Corruption),
        RetryAdvice::RestoreOrRepair
    );
    assert_eq!(
        retry_advice_for(StorageErrorKind::IncompatibleFormat),
        RetryAdvice::DoNotRetry
    );
    let error = inventory_corruption(8);
    assert_eq!((error.kind, error.vlog_file_id), (StorageErrorKind::Corruption, Some(8)));
}

#[test]
fn a_cleanup_with_unknown_outcome_stops_writes() {
    let source = InternalIndexError::new(StorageErrorKind::Io, Some(5));
    let unknown = background_cleanup_commit_error(IndexCommitError::unknown(source));
    assert_eq!(unknown.operation, Operation::Background);
    assert!(background_failure_target(&unknown).is_some());
    let mut runtime = RuntimeControl::new();
    latch_background_failure(&mut runtime, &unknown);
    assert_ne!(runtime.state().instance_state, InstanceState::Healthy);
}

#[test]
fn a_database_is_destroyed_from_the_log_to_the_format() {
    let mut memory = Memory::new();
    let inspection = inventory_for_destroy(
        DestroyFormat::Published,
        ManagedEntryKind::Directory,
        ManagedEntryKind::Directory,
    )
    .unwrap();
    let mut inventory = ManagedInventory::new();
    for file_id in [0, 1] {
        add_destroy_file(
            &mut inventory,
            &mut memory,
            VLogInventoryEntry { file_id, len: 64 },
        )
        .unwrap();
    }
    let mut run = DestroyRun::begin(&inspection, &inventory);
    let mut actions = Vec::new();
    while let Some(action) = run.next() {
        if let DestroyAction::RemoveIndex = action {
            let failure = StorageError::codec_error(
                StorageErrorKind::Io,
                Operation::Destroy,
                ProtocolStage::Lifecycle,
                None,
                RetryAdvice::FixEnvironmentAndReopen,
            );
            let told = run.failed(failure, false);
            let context = told.destroy_failure.unwrap();
            assert_eq!(context.failed_object, ManagedObject::IndexDirectory);
            assert_eq!(context.stage, DestroyStage::RemoveTree);
            assert!(context.partially_deleted);
        }
        actions.push(action);
        run.done(true);
    }
    let removed: Vec<u32> = actions
        .iter()
        .filter_map(|action| match action {
            DestroyAction::RemoveVLogFile { file_id } => Some(*file_id),
            _ => None,
        })
        .collect();
    assert_eq!(removed, vec![1, 0]);
    let at = |wanted: fn(&DestroyAction) -> bool| actions.iter().position(wanted).unwrap();
    let format = at(|action| matches!(action, DestroyAction::RemoveFormat));
    let index = at(|action| matches!(action, DestroyAction::RemoveIndex));
    let vlog = at(|action| matches!(action, DestroyAction::RemoveVLogDirectory));
    assert!(vlog < index && index < format);
    assert!(matches!(actions.last(), Some(DestroyAction::SyncRoot { .. })));
}

#[test]
fn only_a_database_is_destroyed() {
    let missing = ManagedEntryKind::Missing;
    assert!(check_format_files(REGULAR, missing).is_ok());
    assert!(check_format_files(REGULAR, REGULAR).is_err());
    assert!(check_format_files(ManagedEntryKind::Directory, missing).is_err());
    let error = inventory_for_destroy(DestroyFormat::Neither, ManagedEntryKind::Directory, missing)
        .err()
        .unwrap();
    assert_eq!(error.kind, StorageErrorKind::InvalidLayout);
    assert_eq!(error.operation, Operation::Destroy);
    assert_eq!(destroy_file_id(Some(b"D000003.data")).unwrap(), 3);
    assert!(destroy_file_id(Some(b"other")).is_err());
    assert!(destroy_file_id(None).is_err());
    assert!(check_destroy_length(1, Some(64)).is_ok());
    assert_eq!(
        check_destroy_length(1, Some(63)).unwrap_err().kind,
        StorageErrorKind::Corruption
    );
    assert!(check_destroy_length(1, None).is_err());
}

/// Does every step of cutting the log off behind an end.
fn trim_all(inventory: &mut ManagedInventory, end: DurableVLogEnd) -> Vec<TrimAction> {
    let mut actions = Vec::new();
    while let Some(action) = next_trim(inventory, end) {
        trim_done(inventory, action);
        actions.push(action);
    }
    actions
}

fn three_files() -> ManagedInventory {
    let mut memory = Memory::new();
    let mut inventory = ManagedInventory::new();
    for (file_id, len) in [(2, 300), (0, 4096), (1, 4096)] {
        inventory.add(&mut memory, VLogInventoryEntry { file_id, len }).unwrap();
    }
    inventory
}

#[test]
fn a_log_is_cut_off_from_its_last_file_on() {
    let mut inventory = three_files();
    let end = DurableVLogEnd::Position(VLogPosition { file_id: 0, offset: 200 });
    assert_eq!(
        trim_all(&mut inventory, end),
        [
            TrimAction::RemoveFile { file_id: 2 },
            TrimAction::RemoveFile { file_id: 1 },
            TrimAction::CutFile { file_id: 0, len: 200 },
        ]
    );
    assert_eq!(inventory.vlog_files, [VLogInventoryEntry { file_id: 0, len: 200 }]);
    assert_eq!(next_trim(&inventory, end), None);
}

#[test]
fn a_log_with_nothing_behind_its_end_is_left_alone() {
    let mut inventory = three_files();
    let end = DurableVLogEnd::Position(VLogPosition { file_id: 2, offset: 300 });
    assert_eq!(trim_all(&mut inventory, end), []);
    assert_eq!(inventory.vlog_files.len(), 3);
    assert_eq!(trim_all(&mut inventory, DurableVLogEnd::Empty).len(), 3);
    assert_eq!(inventory.vlog_files, []);
}

#[test]
fn files_of_the_accepted_part() {
    let at = |file_id, offset| DurableVLogEnd::Position(VLogPosition { file_id, offset });
    assert_eq!(accepted_files(DurableVLogEnd::Empty, at(2, 300)), Some((0, 2)));
    assert_eq!(accepted_files(at(1, 64), at(2, 300)), Some((1, 2)));
    assert_eq!(accepted_files(at(2, 300), at(2, 300)), None);
    assert_eq!(accepted_files(at(2, 300), at(1, 64)), None);
    assert_eq!(accepted_files(DurableVLogEnd::Empty, DurableVLogEnd::Empty), None);
}

#[test]
fn only_files_that_can_hold_their_headers_have_them_checked() {
    assert!(!headers_to_check(63));
    assert!(headers_to_check(64));
}

#[test]
fn a_failed_write_may_be_tried_again_only_in_a_healthy_instance() {
    let failure = || {
        StorageError::new(
            StorageErrorKind::Io,
            Operation::Put,
            ProtocolStage::VLogAppend,
            Some(WriteOutcome::NotCommitted),
            Some(InstanceState::Healthy),
            RetryAdvice::RetrySameInstance,
        )
    };
    let mut runtime = RuntimeControl::new();
    assert!(runtime.enqueue_write(Operation::Put, 1).unwrap());
    assert!(!runtime.enqueue_write(Operation::Put, 2).unwrap());
    let (told, cancelled) = fail_started(&mut runtime, failure(), None, Some((4, [9; 16])));
    assert_eq!(told.retry_advice, RetryAdvice::RetrySameInstance);
    assert_eq!(told.instance_state, Some(InstanceState::Healthy));
    assert_eq!((told.commit_seq, told.tx_uuid), (Some(4), Some([9; 16])));
    assert_eq!(cancelled, []);
    let (told, cancelled) =
        fail_started(&mut runtime, failure(), Some(InstanceState::Poisoned), None);
    assert_ne!(told.retry_advice, RetryAdvice::RetrySameInstance);
    assert_ne!(told.retry_advice, RetryAdvice::FixRequestAndRetrySameInstance);
    assert_eq!(told.instance_state, Some(InstanceState::Poisoned));
    assert_eq!(cancelled, [2]);
    // A later failure finds the instance poisoned, whatever it asks for.
    let (told, cancelled) = fail_started(&mut runtime, failure(), None, None);
    assert_eq!(told.instance_state, Some(InstanceState::Poisoned));
    assert_ne!(told.retry_advice, RetryAdvice::RetrySameInstance);
    assert_eq!(cancelled, []);
}

#[test]
fn errors_outside_any_write() {
    let binding = lifecycle_binding_error();
    assert_eq!(binding.kind, StorageErrorKind::StoragePoisoned);
    assert_eq!(binding.protocol_stage, ProtocolStage::Lifecycle);
    assert_eq!(binding.retry_advice, RetryAdvice::ReopenAndVerify);
    let stage = ProtocolStage::Preflight;
    let read = StorageError::unsupported(Operation::Get, stage, None);
    assert_eq!((read.kind, read.write_outcome), (StorageErrorKind::Unsupported, None));
    let write = StorageError::unsupported(Operation::Sync, stage, None);
    assert_eq!(write.write_outcome, Some(WriteOutcome::NotCommitted));
    assert_eq!(write.retry_advice, RetryAdvice::DoNotRetry);
}

#[test]
fn room_for_a_batch_takes_one_reservation() {
    let mut memory = Memory::rehearsal(Some(1));
    assert!(IndexAtomicBatch::try_with_capacity(&mut memory, 4).unwrap().is_empty());
    assert!(!memory.is_refused());
    let refused = IndexAtomicBatch::try_with_capacity(&mut memory, 4).err().unwrap();
    assert_eq!(refused.kind, StorageErrorKind::ResourceExhausted);
    assert!(memory.is_refused());
    // Only one reservation is refused, and nothing needs no memory at all.
    assert!(IndexAtomicBatch::try_with_capacity(&mut memory, 0).is_ok());
    assert!(IndexAtomicBatch::try_with_capacity(&mut Memory::new(), usize::MAX).is_err());
}

#[test]
fn room_for_keys_takes_two_reservations() {
    for at in 0..2 {
        let mut memory = Memory::rehearsal(Some(at));
        assert!(KeyIndex::reserved(&mut memory, 3).is_none());
        assert!(memory.is_refused());
    }
    let mut memory = Memory::rehearsal(Some(2));
    let index = KeyIndex::reserved(&mut memory, 3).unwrap();
    assert_eq!(index.len(), 0);
    assert!(!memory.is_refused());
    assert!(KeyIndex::reserved(&mut memory, 3).is_none());
    assert!(KeyIndex::reserved(&mut Memory::new(), usize::MAX).is_none());
}

#[test]
fn a_write_is_checked_before_memory_is_asked_for() {
    let mut memory = Memory::rehearsal(Some(0));
    let error = preflight_put(&mut memory, b"", b"v", false).err().unwrap();
    assert_eq!(error.kind, StorageErrorKind::InvalidArgument);
    let error = preflight_put(&mut memory, b"k", &vec![0; 60_000], false).err().unwrap();
    assert_eq!(error.kind, StorageErrorKind::InvalidArgument);
    let error = preflight_delete(&mut memory, b"", false).err().unwrap();
    assert_eq!(error.kind, StorageErrorKind::InvalidArgument);
    let empty = WriteBatch::new();
    let error = preflight_batch(&mut memory, &empty, false).err().unwrap();
    assert_eq!(error.kind, StorageErrorKind::InvalidArgument);
    assert!(!memory.is_refused());
}

#[test]
fn a_checked_write_takes_five_reservations() {
    for at in 0..5 {
        let mut memory = Memory::rehearsal(Some(at));
        let error = preflight_put(&mut memory, b"k", b"v", false).err().unwrap();
        assert_eq!(error.kind, StorageErrorKind::ResourceExhausted);
        assert!(memory.is_refused());
    }
    for refuse_at in [None, Some(5)] {
        let mut memory = Memory::rehearsal(refuse_at);
        assert!(preflight_put(&mut memory, b"k", b"v", false).is_ok());
        assert!(!memory.is_refused());
    }
}

#[test]
fn transaction_keys_lie_in_the_order_of_their_commits() {
    let mut keys = Vec::new();
    for commit_seq in [1u64, 2, 255, 256, 65_536, u64::MAX] {
        keys.push(encode_tx_meta_key(commit_seq).unwrap());
        for ordinal in [0u64, 1, 255, 256, u64::MAX] {
            keys.push(encode_tx_mutation_key(commit_seq, ordinal).unwrap());
        }
    }
    let mut sorted = keys.clone();
    sorted.sort();
    assert_eq!(keys, sorted);
}

#[test]
fn a_change_that_finds_no_memory_leaves_the_batch_alone() {
    let frontier = frontier_at(2, 500);
    let state = RecoveryState {
        phase: RecoveryPhase::Undo,
        original_head: 5,
        target_seq: 3,
        target_vlog_end: DurableVLogEnd::Position(position(0, 700)),
        next_undo_seq: 4,
        trim_required: true,
    };
    let mut batch = IndexAtomicBatch::new();
    push_head(&mut Memory::new(), &mut batch, 7).unwrap();
    for at in 0..3 {
        let refusing = || Memory::rehearsal(Some(at));
        assert!(push_head(&mut refusing(), &mut batch, 8).is_err());
        assert!(push_recovery_state(&mut refusing(), &mut batch, state).is_err());
        let added =
            add_frontier_to_batch(&mut refusing(), &mut batch, frontier, Operation::Put);
        assert_eq!(added.unwrap_err().kind, StorageErrorKind::ResourceExhausted);
        assert_eq!(batch.len(), 1);
    }
    add_frontier_to_batch(&mut Memory::new(), &mut batch, frontier, Operation::Put).unwrap();
    assert_eq!(batch.len(), 2);
}

#[test]
fn files_are_listed_in_the_order_of_their_numbers() {
    let mut inventory = ManagedInventory::new();
    let mut memory = Memory::new();
    for file_id in [3, 0, 5, 1] {
        add_destroy_file(&mut inventory, &mut memory, VLogInventoryEntry { file_id, len: 64 })
            .unwrap();
    }
    let listed: Vec<u32> = inventory.vlog_files.iter().map(|file| file.file_id).collect();
    assert_eq!(listed, vec![0, 1, 3, 5]);
}
