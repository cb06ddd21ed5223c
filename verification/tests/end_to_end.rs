//! A whole database in memory: the library decides, and maps and byte vectors stand for the
//! index engine and the files.

use std::collections::BTreeMap;

use rustkv::claims::ClaimTable;
use rustkv::commit::coordinator::CommitState;
use rustkv::commit::descriptor::IndexEntry;
use rustkv::commit::metadata::{
    metadata_decode_error, DurableFrontier, DurableVLogEnd, RecoveryPhase, RecoveryState,
};
use rustkv::commit::preflight::{
    preflight_batch, preflight_delete, preflight_put, ValidatedWrite,
};
use rustkv::commit::prepare::{CommitDraft, PreparedCommit};
use rustkv::commit::steps::{is_synced_through, CommitCoordinator, CommitStep};
use rustkv::db::cleanup::{CleanupRun, CleanupStart, CleanupStep};
use rustkv::index::batch::{
    durable_frontier_name, head_seq_name, initialization_batch, recovery_state_name,
    IndexAtomicBatch, IndexCommitError, IndexCommitMode, InternalIndexError,
};
use rustkv::index::engine::{check_batch, engine_operation, CommitCheck, EngineSpace};
use rustkv::memory::Memory;
use rustkv::recovery::descriptors::UnstableDescriptors;
use rustkv::recovery::envelope::read_recovery_envelope;
use rustkv::recovery::execute::{RecoveryAction, RecoveryRun};
use rustkv::recovery::plan::{build_plan, TargetSearch};
use rustkv::recovery::topology::{ManagedInventory, RecoveryTopology, VLogInventoryEntry};
use rustkv::recovery::{recovery_context, recovery_resource};
use rustkv::recovery::undo::{build_undo_batch, expected_descriptor, load_descriptor};
use rustkv::runtime::state::RuntimeControl;
use rustkv::stats::StatsState;
use rustkv::vlog::chunks::{next_chunk, record_chunk_length};
use rustkv::vlog::envelope::PreparedEnvelope;
use rustkv::vlog::file_set::{FileCatalog, FileFacts, FileIdentity};
use rustkv::vlog::geometry::{PhysicalChunk, VLogGeometry, VLogPosition};
use rustkv::vlog::reader::ValueRead;
use rustkv::vlog::writer::AppendAction;
use rustkv::vlog::writer_open::{take_up, TakenUp};
use rustkv::vlog::writer_sync::{FrontierSync, SyncAction};
use rustkv::{InstanceState, Operation, StorageError, StorageErrorKind, WriteBatch};

const UUID: [u8; 16] = [5; 16];

type Space = BTreeMap<Vec<u8>, Vec<u8>>;

struct Store {
    user: Space,
    transaction: Space,
    system: Space,
    files: BTreeMap<u32, Vec<u8>>,
    catalog: FileCatalog,
    coordinator: CommitCoordinator,
    drawn: u8,
}

fn facts(file_id: u32, len: u64) -> FileFacts {
    FileFacts {
        is_regular: true,
        identity: FileIdentity { device: 1, inode: 100 + file_id as u64 },
        len,
    }
}

impl Store {
    fn new() -> Store {
        let mut claims = ClaimTable::new();
        let catalog = FileCatalog::new();
        let taken = take_up(
            &mut claims,
            FileIdentity { device: 1, inode: 1 },
            UUID,
            VLogGeometry::production(),
            &catalog,
            None,
        )
        .unwrap();
        let writer = match taken {
            TakenUp::Ready(writer) => writer,
            TakenUp::Checking(_) => panic!("a new log has nothing to check"),
        };
        let frontier =
            DurableFrontier { durable_seq: 0, durable_vlog_end: DurableVLogEnd::Empty };
        let state = CommitState::initial(0, frontier, &writer).unwrap();
        let mut store = Store {
            user: Space::new(),
            transaction: Space::new(),
            system: Space::new(),
            files: BTreeMap::new(),
            catalog,
            coordinator: CommitCoordinator {
                runtime: RuntimeControl::new(),
                stats: StatsState::new(),
                writer,
                state,
            },
            drawn: 0,
        };
        let batch = initialization_batch(&mut Memory::new(), 0, UUID).unwrap();
        assert_eq!(
            check_batch(&batch, IndexCommitMode::SyncAll).unwrap(),
            CommitCheck::Empty
        );
        store.apply(batch);
        store
    }

    fn apply(&mut self, batch: IndexAtomicBatch) {
        for mutation in batch.into_operations() {
            let operation = engine_operation(mutation);
            let space = match operation.space {
                EngineSpace::User => &mut self.user,
                EngineSpace::Transaction => &mut self.transaction,
                EngineSpace::System => &mut self.system,
            };
            match operation.value {
                Some(value) => {
                    space.insert(operation.key, value);
                }
                None => {
                    space.remove(&operation.key);
                }
            }
        }
    }

    fn append(&mut self, envelope: &PreparedEnvelope) -> Result<(), StorageError> {
        let writer = &mut self.coordinator.writer;
        let mut run = writer.begin_append(envelope)?;
        let mut action = writer.place(envelope, &mut run);
        loop {
            action = match action {
                AppendAction::CreateFile { file_id } => {
                    assert!(self.files.insert(file_id, Vec::new()).is_none());
                    writer.file_created(envelope, &mut run)
                }
                AppendAction::Write { chunk, from, offset } => {
                    let piece = &envelope.chunks[chunk];
                    let file = self.files.get_mut(&piece.position.file_id).unwrap();
                    assert_eq!(file.len() as u64, offset);
                    file.extend_from_slice(&piece.bytes[from as usize..]);
                    writer.bytes_written(envelope, &mut run, piece.bytes.len() as u64 - from)
                }
                AppendAction::RemoveIfEmpty { .. } => panic!("nothing failed"),
                AppendAction::Inspect { file_id } => {
                    let len = self.files[&file_id].len() as u64;
                    writer.file_inspected(
                        &mut self.catalog,
                        envelope,
                        &mut run,
                        facts(file_id, len),
                    )
                }
                AppendAction::Done => return Ok(()),
                AppendAction::Fail(error) => return Err(error),
            };
        }
    }

    fn sync(&mut self, seq: u64, end: Option<VLogPosition>) -> Result<FrontierSync, StorageError> {
        let writer = &mut self.coordinator.writer;
        let mut run = writer.begin_sync(seq, end)?;
        let mut action = writer.next_sync(&run);
        loop {
            action = match action {
                SyncAction::SyncActive { .. } | SyncAction::SyncOpened { .. } => {
                    writer.file_synced(&mut run)
                }
                SyncAction::OpenFile { file_id } => {
                    let len = self.files[&file_id].len() as u64;
                    writer.file_opened(&self.catalog, &run, facts(file_id, len))
                }
                SyncAction::SyncDirectory => writer.directory_synced(&mut run),
                SyncAction::Done(synced) => return Ok(synced),
                SyncAction::Fail(error) => return Err(error),
            };
        }
    }

    fn prepare(&mut self, write: &ValidatedWrite<'_>) -> PreparedCommit {
        let mut memory = Memory::new();
        let head = self.coordinator.state.head_seq;
        let mut draft = CommitDraft::begin(&mut memory, write, UUID, head).unwrap();
        while let Some(key) = draft.next_key() {
            draft.key_read(Ok(self.user.get(key).cloned())).unwrap();
        }
        self.drawn += 1;
        draft
            .finish(
                &mut memory,
                self.coordinator.writer.position(),
                VLogGeometry::production(),
                Ok([self.drawn; 16]),
            )
            .unwrap()
    }

    /// Commits a write; the index answers with `outcome`.
    fn commit(
        &mut self,
        write: &ValidatedWrite<'_>,
        outcome: Result<(), IndexCommitError>,
    ) -> Result<(), StorageError> {
        let mut prepared = self.prepare(write);
        let operation = write.public_operation();
        let (run, mut step) =
            self.coordinator.prepared(&mut Memory::new(), &mut prepared, operation);
        let mut run = run.unwrap();
        let mut synced = None;
        loop {
            step = match step {
                CommitStep::Append => {
                    let appended = self.append(&prepared.envelope);
                    self.coordinator.append_ended(&mut run, appended)
                }
                CommitStep::Sync => {
                    let outcome = self.sync(run.commit_seq, Some(run.vlog_end));
                    let ended = match outcome {
                        Ok(done) => {
                            synced = Some(done);
                            Ok(())
                        }
                        Err(error) => Err(error),
                    };
                    self.coordinator.sync_ended(&mut run, ended)
                }
                CommitStep::CommitIndex(mode) => {
                    assert_eq!(
                        mode == IndexCommitMode::SyncAll,
                        write.sync(),
                        "only a synced write goes down to the disk"
                    );
                    assert!(run.is_log_ready(&synced));
                    if outcome.is_ok() {
                        let batch = std::mem::replace(
                            &mut prepared.index_batch,
                            IndexAtomicBatch::new(),
                        );
                        self.apply(batch);
                    }
                    self.coordinator.index_ended(&mut run, synced.take(), outcome)
                }
                CommitStep::Done { cancelled } => {
                    assert_eq!(cancelled, []);
                    return Ok(());
                }
                CommitStep::Failed { error, .. } => return Err(error),
            };
        }
    }

    fn put(&mut self, key: &[u8], value: &[u8], sync: bool) {
        let mut memory = Memory::new();
        let write = preflight_put(&mut memory, key, value, sync).unwrap();
        self.commit(&write, Ok(())).unwrap();
    }

    fn delete(&mut self, key: &[u8]) {
        let mut memory = Memory::new();
        let write = preflight_delete(&mut memory, key, false).unwrap();
        self.commit(&write, Ok(())).unwrap();
    }

    fn get(&self, key: &[u8]) -> Option<Vec<u8>> {
        let pointer = self.user.get(key)?;
        Some(self.read(pointer, key).unwrap())
    }

    fn read(&self, pointer: &[u8], key: &[u8]) -> Result<Vec<u8>, StorageError> {
        let mut memory = Memory::new();
        let read = ValueRead::start(pointer)?;
        let file = &self.files[&read.file_id()];
        let mut buffer = read.buffer(&mut memory, file.len() as u64)?;
        let from = read.offset() as usize;
        let to = from + buffer.len();
        buffer.copy_from_slice(&file[from..to]);
        read.finish(&mut memory, &buffer, VLogGeometry::production(), key)
    }

    /// The chunks of the log between two positions.
    fn chunks(&self, begin: VLogPosition, end: VLogPosition) -> Vec<PhysicalChunk> {
        let geometry = VLogGeometry::production();
        let mut chunks = Vec::new();
        let mut at = begin;
        while let Some(start) = next_chunk(at, end, geometry).unwrap() {
            let file = &self.files[&start.position.file_id];
            let from = start.position.offset as usize;
            let mut len = start.known_len;
            if start.is_record {
                let front = &file[from..from + start.known_len];
                len = record_chunk_length(front, start.position, geometry).unwrap();
            }
            chunks.push(PhysicalChunk {
                position: start.position,
                bytes: file[from..from + len].to_vec(),
            });
            at = VLogPosition {
                file_id: start.position.file_id,
                offset: start.position.offset + len as u64,
            };
        }
        chunks
    }
}

#[test]
fn a_value_that_was_put_is_read_back() {
    let mut store = Store::new();
    store.put(b"apple", b"red", false);
    store.put(b"pear", b"", true);
    assert_eq!(store.get(b"apple"), Some(b"red".to_vec()));
    assert_eq!(store.get(b"pear"), Some(Vec::new()));
    assert_eq!(store.get(b"plum"), None);
}

#[test]
fn later_operations_win_and_deletes_remove() {
    let mut store = Store::new();
    store.put(b"k", b"1", false);
    store.put(b"k", b"2", false);
    assert_eq!(store.get(b"k"), Some(b"2".to_vec()));
    store.delete(b"k");
    assert_eq!(store.get(b"k"), None);

    let mut batch = WriteBatch::new();
    batch.put(b"a", b"1").unwrap();
    batch.delete(b"a").unwrap();
    batch.put(b"b", b"1").unwrap();
    batch.put(b"b", b"2").unwrap();
    let mut memory = Memory::new();
    let write = preflight_batch(&mut memory, &batch, false).unwrap();
    assert_eq!(write.logical_op_count(), 4);
    assert_eq!(write.distinct_key_count(), 2);
    store.commit(&write, Ok(())).unwrap();
    assert_eq!(store.get(b"a"), None);
    assert_eq!(store.get(b"b"), Some(b"2".to_vec()));
    assert_eq!(store.coordinator.state.head_seq, 4);
}

#[test]
fn an_earlier_view_stays_readable() {
    let mut store = Store::new();
    store.put(b"a", b"old", false);
    store.put(b"b", b"kept", false);
    let view = store.user.clone();
    store.put(b"a", b"new", true);
    store.delete(b"b");
    assert_eq!(store.get(b"a"), Some(b"new".to_vec()));
    assert_eq!(store.get(b"b"), None);
    assert_eq!(store.read(&view[&b"a".to_vec()], b"a").unwrap(), b"old");
    assert_eq!(store.read(&view[&b"b".to_vec()], b"b").unwrap(), b"kept");
}

#[test]
fn a_batch_does_what_its_operations_do_apart() {
    let mut together = Store::new();
    let mut apart = Store::new();
    for store in [&mut together, &mut apart] {
        store.put(b"x", b"0", false);
    }
    let mut batch = WriteBatch::new();
    batch.put(b"y", b"1").unwrap();
    batch.delete(b"x").unwrap();
    batch.put(b"x", b"2").unwrap();
    batch.delete(b"y").unwrap();
    let mut memory = Memory::new();
    let write = preflight_batch(&mut memory, &batch, true).unwrap();
    together.commit(&write, Ok(())).unwrap();
    apart.put(b"y", b"1", false);
    apart.delete(b"x");
    apart.put(b"x", b"2", false);
    apart.delete(b"y");
    for key in [b"x", b"y"] {
        assert_eq!(together.get(key), apart.get(key));
    }
    assert_eq!(together.get(b"x"), Some(b"2".to_vec()));
    assert_eq!(together.coordinator.state.head_seq, 2);
    assert_eq!(apart.coordinator.state.head_seq, 5);
}

#[test]
fn a_frontier_that_the_writer_does_not_know_sends_waiting_writes_away() {
    let mut other = Store::new();
    other.put(b"a", b"1", false);
    let end = Some(other.coordinator.writer.position());
    let foreign = other.sync(1, end).unwrap();
    let mut store = Store::new();
    store.put(b"a", b"1", true);
    let runtime = &mut store.coordinator.runtime;
    assert!(runtime.enqueue_write(Operation::WriteBatch, 1).unwrap());
    assert!(!runtime.enqueue_write(Operation::Put, 2).unwrap());
    let frontier = store.coordinator.state.durable_frontier;
    let (step, left) = store.coordinator.barrier_synced(frontier, foreign);
    assert!(left.is_none());
    match step {
        CommitStep::Done { cancelled } => assert_eq!(cancelled, [2]),
        _ => panic!("the frontier was reached before"),
    }
    let state = store.coordinator.runtime.state().instance_state;
    assert_eq!(state, InstanceState::Poisoned);
}

#[test]
fn values_go_over_pages() {
    let mut store = Store::new();
    for i in 0..8u8 {
        store.put(&[b'k', i], &vec![i; 30_000], i % 3 == 0);
    }
    for i in 0..8u8 {
        assert_eq!(store.get(&[b'k', i]), Some(vec![i; 30_000]));
    }
    assert!(store.files[&0].len() > 3 * 65_536);
}

#[test]
fn a_synced_commit_moves_the_frontier() {
    let mut store = Store::new();
    store.put(b"a", b"1", false);
    assert_eq!(store.coordinator.state.durable_frontier.durable_seq, 0);
    store.put(b"b", b"2", true);
    assert_eq!(store.coordinator.state.durable_frontier.durable_seq, 2);
    let stats = store.coordinator.runtime.stats(&store.coordinator.stats);
    assert_eq!((stats.head_seq, stats.durable_seq, stats.durability_lag), (2, 2, 0));
    assert_eq!(stats.vlog_file_count, 1);
    assert_eq!(stats.vlog_logical_bytes, store.files[&0].len() as u64);
    let stored = &store.system[&durable_frontier_name().to_vec()];
    assert_eq!(DurableFrontier::decode(stored).unwrap().durable_seq, 2);
    assert_eq!(store.system[&head_seq_name().to_vec()], 2u64.to_le_bytes().to_vec());
}

#[test]
fn a_changed_byte_of_a_value_is_found() {
    let mut store = Store::new();
    store.put(b"key", b"value", false);
    let last = store.files[&0].windows(5).position(|w| w == b"value").unwrap();
    store.files.get_mut(&0).unwrap()[last] ^= 1;
    let pointer = store.user[&b"key".to_vec()].clone();
    let error = store.read(&pointer, b"key").unwrap_err();
    assert_eq!(error.kind, StorageErrorKind::Corruption);
    assert_eq!(error.vlog_file_id, Some(0));
}

#[test]
fn a_value_is_not_read_under_another_key() {
    let mut store = Store::new();
    store.put(b"key", b"value", false);
    let pointer = store.user[&b"key".to_vec()].clone();
    assert_eq!(store.read(&pointer, b"kex").unwrap_err().kind, StorageErrorKind::Corruption);
}

#[test]
fn an_index_commit_with_unknown_outcome_poisons_the_instance() {
    let mut store = Store::new();
    let mut memory = Memory::new();
    let write = preflight_put(&mut memory, b"a", b"1", false).unwrap();
    let unknown = IndexCommitError::unknown(InternalIndexError::new(StorageErrorKind::Io, Some(5)));
    let error = store.commit(&write, Err(unknown)).unwrap_err();
    assert_eq!(error.instance_state, Some(InstanceState::Poisoned));
    assert_eq!(error.write_outcome, Some(rustkv::WriteOutcome::CommitUnknown));
    assert_eq!(error.commit_seq, Some(1));
    let refused = store.coordinator.runtime.check_write_admission(Operation::Put).unwrap_err();
    assert_eq!(refused.kind, StorageErrorKind::StoragePoisoned);
}

fn plan_of(store: &Store) -> (Vec<rustkv::commit::descriptor::TransactionDescriptor>, DurableFrontier, u64) {
    let mut memory = Memory::new();
    let frontier =
        DurableFrontier::decode(&store.system[&durable_frontier_name().to_vec()]).unwrap();
    let mut head_bytes = [0u8; 8];
    head_bytes.copy_from_slice(&store.system[&head_seq_name().to_vec()]);
    let head = u64::from_le_bytes(head_bytes);
    let mut found =
        UnstableDescriptors::begin(&mut memory, frontier.durable_seq, head).unwrap();
    for (key, value) in &store.transaction {
        let (seq, _) = rustkv::recovery::descriptors::decode_descriptor_key(key).unwrap();
        if seq > frontier.durable_seq {
            found
                .add(&mut memory, IndexEntry { key: key.clone(), value: value.clone() })
                .unwrap();
        }
    }
    (found.finish(&mut memory, frontier.durable_vlog_end).unwrap(), frontier, head)
}

#[test]
fn recovery_accepts_what_is_wholly_in_the_log() {
    let mut store = Store::new();
    store.put(b"a", b"1", true);
    store.put(b"b", b"2", false);
    let mut batch = WriteBatch::new();
    batch.put(b"a", b"3").unwrap();
    batch.delete(b"b").unwrap();
    batch.put(b"c", &vec![9u8; 50_000]).unwrap();
    batch.put(b"d", &vec![8u8; 50_000]).unwrap();
    let mut memory = Memory::new();
    let write = preflight_batch(&mut memory, &batch, false).unwrap();
    store.commit(&write, Ok(())).unwrap();

    let (descriptors, frontier, head) = plan_of(&store);
    assert_eq!((descriptors.len(), frontier.durable_seq, head), (2, 1, 3));
    let mut search = TargetSearch::begin(frontier, head, None, &descriptors).unwrap();
    while let Some(i) = search.next() {
        let meta = &descriptors[i].meta;
        let chunks = store.chunks(meta.vlog_begin, meta.vlog_end);
        let read = read_recovery_envelope(
            &mut Memory::new(),
            &chunks,
            VLogGeometry::production(),
            UUID,
            meta.vlog_begin,
            meta.vlog_end,
            Some(meta.envelope_crc32c),
        );
        search.envelope_read(&descriptors, read).unwrap();
    }
    let mut inventory = ManagedInventory::new();
    for (file_id, bytes) in &store.files {
        inventory
            .add(
                &mut Memory::new(),
                VLogInventoryEntry { file_id: *file_id, len: bytes.len() as u64 },
            )
            .unwrap();
    }
    let topology = RecoveryTopology::analyze(
        &inventory,
        frontier.durable_vlog_end,
        VLogGeometry::production(),
    )
    .unwrap();
    let plan = build_plan(
        Vec::new(),
        frontier,
        head,
        search,
        descriptors,
        None,
        &inventory,
        topology,
    )
    .unwrap();
    assert_eq!(plan.accepted_seq, 3);
    assert!(RecoveryRun::begin(&plan).can_begin());
    assert!(!plan.needs_undo && plan.needs_promote && !plan.needs_trim);
}

#[test]
fn recovery_undoes_what_is_torn() {
    let mut store = Store::new();
    store.put(b"a", b"1", true);
    store.put(b"a", b"2", false);
    store.put(b"b", b"3", false);
    let kept = store.user[&b"a".to_vec()].clone();
    let durable_length = match store.coordinator.state.durable_frontier.durable_vlog_end {
        DurableVLogEnd::Position(end) => end.offset,
        DurableVLogEnd::Empty => 0,
    };

    let (descriptors, frontier, head) = plan_of(&store);
    // The last envelope lost its end.
    let torn = descriptors[1].meta.vlog_end.offset as usize - 1;
    store.files.get_mut(&0).unwrap()[torn] ^= 0xff;
    let mut search = TargetSearch::begin(frontier, head, None, &descriptors).unwrap();
    while let Some(i) = search.next() {
        let meta = &descriptors[i].meta;
        let chunks = store.chunks(meta.vlog_begin, meta.vlog_end);
        let read = read_recovery_envelope(
            &mut Memory::new(),
            &chunks,
            VLogGeometry::production(),
            UUID,
            meta.vlog_begin,
            meta.vlog_end,
            Some(meta.envelope_crc32c),
        );
        search.envelope_read(&descriptors, read).unwrap();
    }
    let mut inventory = ManagedInventory::new();
    let len = store.files[&0].len() as u64;
    assert!(len > durable_length);
    inventory.add(&mut Memory::new(), VLogInventoryEntry { file_id: 0, len }).unwrap();
    let topology = RecoveryTopology::analyze(
        &inventory,
        frontier.durable_vlog_end,
        VLogGeometry::production(),
    )
    .unwrap();
    let plan = build_plan(
        Vec::new(),
        frontier,
        head,
        search,
        descriptors,
        None,
        &inventory,
        topology,
    )
    .unwrap();
    assert_eq!(plan.accepted_seq, 2);
    assert!(plan.needs_undo && plan.needs_promote && plan.needs_trim);

    let mut run = RecoveryRun::begin(&plan);
    let mut undone = Vec::new();
    let mut kinds = Vec::new();
    loop {
        match run.next() {
            RecoveryAction::WriteState(_) => kinds.push("state"),
            RecoveryAction::Undo { commit_seq, next_state } => {
                kinds.push("undo");
                undone.push(commit_seq);
                let mut memory = Memory::new();
                let expected = expected_descriptor(&plan, commit_seq).unwrap();
                let mut meta = None;
                let mut entries = Vec::new();
                for (key, value) in &store.transaction {
                    let entry = IndexEntry { key: key.clone(), value: value.clone() };
                    let (seq, is_meta) =
                        rustkv::recovery::descriptors::decode_descriptor_key(key).unwrap();
                    if seq == commit_seq && is_meta {
                        meta = Some(entry);
                    } else if seq == commit_seq {
                        entries.push(entry);
                    }
                }
                let loaded = load_descriptor(&mut memory, expected, meta, entries).unwrap();
                let batch = build_undo_batch(&mut memory, &loaded, next_state).unwrap();
                store.apply(batch);
            }
            RecoveryAction::SyncAccepted { .. } => kinds.push("sync"),
            RecoveryAction::CheckBoundary => kinds.push("check"),
            RecoveryAction::MoveFrontier { frontier, .. } => {
                kinds.push("move");
                assert_eq!(frontier.durable_seq, 2);
            }
            RecoveryAction::Trim { .. } => kinds.push("trim"),
            RecoveryAction::DeleteState => kinds.push("forget"),
            RecoveryAction::Verify { .. } => kinds.push("verify"),
            RecoveryAction::Finished => break,
        }
        run.done();
    }
    assert_eq!(undone, vec![3]);
    assert_eq!(store.user.get(&b"b".to_vec()), None);
    assert_eq!(store.user[&b"a".to_vec()], kept);
    assert_eq!(store.get(b"a"), Some(b"2".to_vec()));
    let position = |kind: &str| kinds.iter().position(|k| *k == kind).unwrap();
    assert!(position("undo") < position("move"));
    assert!(position("move") < position("trim"));
    assert!(position("trim") < position("forget"));
}

#[test]
fn cleanup_deletes_durable_transactions_with_their_heads_last() {
    let mut store = Store::new();
    store.put(b"a", b"1", false);
    store.put(b"b", b"2", true);
    store.put(b"c", b"3", false);
    assert_eq!(store.transaction.len(), 6);
    let mut memory = Memory::new();
    let start = CleanupRun::begin(
        Ok(store.system.get(&recovery_state_name().to_vec()).cloned()),
        Ok(store.system.get(&durable_frontier_name().to_vec()).cloned()),
    )
    .unwrap();
    let mut run = match start {
        CleanupStart::Run(run) => run,
        CleanupStart::Blocked(_) => panic!("no recovery is unfinished"),
    };
    assert_eq!(run.durable_seq(), 2);
    let range =
        rustkv::db::cleanup::stable_descriptor_range(&mut memory, run.durable_seq()).unwrap();
    let end = range.end_exclusive.unwrap();
    let keys: Vec<Vec<u8>> =
        store.transaction.keys().filter(|key| **key < end).cloned().collect();
    assert_eq!(keys.len(), 4);
    let mut next = keys.into_iter();
    let mut step = CleanupStep::NextKey;
    let mut deleted = Vec::new();
    loop {
        let stepped = match step {
            CleanupStep::NextKey => match next.next() {
                Some(key) => run.key_read(&mut memory, Ok(key)),
                None => run.keys_ended(&mut memory),
            },
            CleanupStep::Commit(batch, mode) => {
                assert_eq!(mode, IndexCommitMode::Buffer);
                assert!(check_batch(&batch, IndexCommitMode::Buffer).is_ok());
                deleted.push(batch.len());
                store.apply(batch);
                run.batch_ended(&mut memory, Ok(()))
            }
            CleanupStep::Done => break,
            CleanupStep::Failed(error) => panic!("{:?}", error),
        };
        run = stepped.0;
        step = stepped.1;
    }
    // One mutation and one head of each of two transactions.
    assert_eq!(deleted, vec![1, 1, 1, 1]);
    let progress = run.progress();
    assert_eq!((progress.deleted_mutations, progress.deleted_meta), (2, 2));
    assert_eq!(progress.committed_batches, 4);
    assert_eq!(store.transaction.len(), 2);
    assert_eq!(store.get(b"a"), Some(b"1".to_vec()));
}

#[test]
fn a_barrier_takes_memory_only_where_something_is_not_durable() {
    let mut store = Store::new();
    store.put(b"a", b"1", true);
    let mut memory = Memory::rehearsal(Some(0));
    assert!(matches!(store.coordinator.begin_barrier(&mut memory), Ok(None)));
    assert!(!memory.is_refused());

    store.put(b"b", b"2", false);
    for at in 0..4 {
        let mut memory = Memory::rehearsal(Some(at));
        match store.coordinator.begin_barrier(&mut memory) {
            Err(CommitStep::Failed { error, .. }) => {
                assert_eq!(error.kind, StorageErrorKind::ResourceExhausted);
            }
            _ => panic!("memory was refused"),
        }
    }
    let mut memory = Memory::rehearsal(Some(4));
    let begun = store.coordinator.begin_barrier(&mut memory);
    let (frontier, batch) = match begun {
        Ok(Some(barrier)) => barrier,
        _ => panic!("the last commit is not durable"),
    };
    assert_eq!((frontier.durable_seq, batch.len()), (2, 1));
    let end = Some(store.coordinator.writer.position());
    let synced = store.sync(2, end).unwrap();
    let (step, synced) = store.coordinator.barrier_synced(frontier, synced);
    assert!(matches!(step, CommitStep::CommitIndex(IndexCommitMode::SyncAll)));
    assert!(is_synced_through(&synced, frontier));
    let earlier = store.coordinator.state.durable_frontier;
    assert!(!is_synced_through(&synced, earlier));
    assert!(!is_synced_through(&None, frontier));
    store.apply(batch);
    let step = store.coordinator.barrier_ended(frontier, synced, Ok(()));
    assert!(matches!(step, CommitStep::Done { .. }));
    assert_eq!(store.coordinator.state.durable_frontier, frontier);
}

#[test]
fn only_a_synced_commit_takes_memory_when_it_begins() {
    let mut store = Store::new();
    for sync in [false, true] {
        let mut memory = Memory::new();
        let write = preflight_put(&mut memory, b"k", b"v", sync).unwrap();
        let mut prepared = store.prepare(&write);
        let mut memory = Memory::rehearsal(Some(0));
        let (run, step) =
            store.coordinator.prepared(&mut memory, &mut prepared, Operation::Put);
        assert_eq!(memory.is_refused(), sync);
        assert_eq!(run.is_none(), sync);
        // Whether it begins or not, the commit stays what it was.
        assert_eq!(prepared.commit_seq, 1);
        assert_eq!(prepared.index_batch.len(), 4);
        assert_eq!((prepared.sync, prepared.envelope.commit_seq), (sync, 1));
        assert_eq!(matches!(step, CommitStep::Append), !sync);
        if let Some(run) = run {
            assert!(run.is_log_ready(&None));
        }
    }
}

#[test]
fn a_transaction_with_another_checksum_is_not_undone() {
    let mut store = Store::new();
    store.put(b"a", b"1", false);
    let (mut descriptors, _, _) = plan_of(&store);
    let mut entries: Vec<IndexEntry> = store
        .transaction
        .iter()
        .map(|(key, value)| IndexEntry { key: key.clone(), value: value.clone() })
        .collect();
    let meta = entries.remove(0);
    let again = IndexEntry { key: meta.key.clone(), value: meta.value.clone() };
    let left: Vec<IndexEntry> = entries
        .iter()
        .map(|entry| IndexEntry { key: entry.key.clone(), value: entry.value.clone() })
        .collect();
    let mut memory = Memory::new();
    assert!(load_descriptor(&mut memory, &descriptors[0], Some(again), left).is_ok());
    descriptors[0].meta.descriptor_crc32c ^= 1;
    let error = load_descriptor(&mut memory, &descriptors[0], Some(meta), entries).unwrap_err();
    assert_eq!(error.kind, StorageErrorKind::Corruption);
}

#[test]
fn a_cleanup_with_nothing_to_delete_ends_without_memory() {
    let store = Store::new();
    let start = CleanupRun::begin(
        Ok(None),
        Ok(store.system.get(&durable_frontier_name().to_vec()).cloned()),
    )
    .unwrap();
    let run = match start {
        CleanupStart::Run(run) => run,
        CleanupStart::Blocked(_) => panic!("no recovery is unfinished"),
    };
    let mut memory = Memory::rehearsal(Some(0));
    let (run, step) = run.keys_ended(&mut memory);
    assert!(matches!(step, CleanupStep::Done));
    assert!(!memory.is_refused());
    assert_eq!(run.progress().committed_batches, 0);
}

#[test]
fn commits_are_undone_from_the_last_one_on() {
    let mut store = Store::new();
    store.put(b"a", b"1", true);
    store.put(b"b", b"2", true);
    let kept = store.user.clone();
    store.put(b"a", b"3", false);
    store.delete(b"b");
    let mut batch = WriteBatch::new();
    batch.put(b"b", b"4").unwrap();
    batch.delete(b"a").unwrap();
    batch.put(b"c", b"5").unwrap();
    let mut memory = Memory::new();
    let write = preflight_batch(&mut memory, &batch, false).unwrap();
    store.commit(&write, Ok(())).unwrap();
    assert_eq!((store.get(b"a"), store.get(b"b")), (None, Some(b"4".to_vec())));

    let (descriptors, frontier, head) = plan_of(&store);
    assert_eq!((descriptors.len(), head), (3, 5));
    for commit_seq in [5u64, 4, 3] {
        let mut meta = None;
        let mut entries = Vec::new();
        for (key, value) in &store.transaction {
            let entry = IndexEntry { key: key.clone(), value: value.clone() };
            let (seq, is_meta) =
                rustkv::recovery::descriptors::decode_descriptor_key(key).unwrap();
            if seq == commit_seq && is_meta {
                meta = Some(entry);
            } else if seq == commit_seq {
                entries.push(entry);
            }
        }
        let expected = &descriptors[(commit_seq - 3) as usize];
        let loaded = load_descriptor(&mut memory, expected, meta, entries).unwrap();
        let next_state = RecoveryState {
            phase: RecoveryPhase::Undo,
            original_head: 5,
            target_seq: 2,
            target_vlog_end: frontier.durable_vlog_end,
            next_undo_seq: commit_seq - 1,
            trim_required: true,
        };
        let batch = build_undo_batch(&mut memory, &loaded, next_state).unwrap();
        store.apply(batch);
    }
    assert_eq!(store.user, kept);
    assert_eq!(store.system[&head_seq_name().to_vec()], 2u64.to_le_bytes().to_vec());
    assert_eq!(store.transaction.len(), 4);
    assert_eq!(store.get(b"a"), Some(b"1".to_vec()));
    assert_eq!(store.get(b"b"), Some(b"2".to_vec()));
    assert_eq!(store.get(b"c"), None);
}

#[test]
fn refused_memory_is_told_by_the_reservation_that_it_hits() {
    let mut store = Store::new();
    store.put(b"a", b"1", false);
    for (at, operation) in [(0, true), (1, false), (2, false)] {
        let mut memory = Memory::new();
        let mut found = UnstableDescriptors::begin(&mut memory, 0, 1).unwrap();
        for (key, value) in &store.transaction {
            let entry = IndexEntry { key: key.clone(), value: value.clone() };
            found.add(&mut memory, entry).unwrap();
        }
        let mut memory = Memory::rehearsal(Some(at));
        let error = found.finish(&mut memory, DurableVLogEnd::Empty).unwrap_err();
        assert_eq!(error.kind, StorageErrorKind::ResourceExhausted);
        let wanted = if operation { recovery_resource() } else { error_of_decoding() };
        assert_eq!(format!("{:?}", error), format!("{:?}", wanted));
    }
}

fn error_of_decoding() -> StorageError {
    let kind = StorageErrorKind::ResourceExhausted;
    recovery_context(metadata_decode_error(kind))
}
