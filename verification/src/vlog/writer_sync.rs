//! Synchronizing the value log: which files and which directory have to reach the disk before
//! the durable frontier may move, and when they count as clean.

use vstd::prelude::*;

use crate::error::{
    ErrorView, Operation, ProtocolStage, Result, RetryAdvice, StorageError, StorageErrorKind,
    WriteOutcome,
};
use crate::io_failure::IoFailure;
use crate::vlog::file_map::{increasing, FileMap};
use crate::vlog::file_set::{read_corruption_view, read_io, read_io_view, FileCatalog, FileFacts};
use crate::vlog::geometry::{invalid_vlog_view, VLogPosition};
use crate::vlog::layout::{can_go_on, LayoutPlanner};
use crate::vlog::writer::{AppendState, ValueLogWriter, WriterView};
use crate::vlog::writer_error::{
    seen_by_sync, sync_context, sync_directory_io, sync_directory_view, sync_file_io,
    sync_file_view, sync_state_error, sync_state_view, sync_stopped, sync_stopped_view,
};

verus! {

/// Why a synchronization cannot begin; `None` where it can.
pub open spec fn sync_refusal(
    writer: WriterView,
    target_seq: u64,
    target_end: Option<VLogPosition>,
) -> Option<ErrorView> {
    let misplaced = Some(sync_state_view(target_seq, target_end));
    if writer.append_failed {
        Some(sync_stopped_view(target_seq, target_end))
    } else if writer.pending_sync_id is Some {
        misplaced
    } else if target_seq == 0 && target_end is None && (writer.state != AppendState::Empty
        || writer.dirty_files != Set::<u32>::empty() || writer.pending_directory_entries
        != Map::<u32, u64>::empty()) {
        misplaced
    } else if (target_seq == 0) != (target_end is None) {
        misplaced
    } else if target_end is Some && !can_go_on(writer.geometry, target_end->0) {
        Some(
            seen_by_sync(
                invalid_vlog_view(StorageErrorKind::InvalidArgument),
                target_seq,
                target_end,
                (target_end->0).file_id,
            ),
        )
    } else if target_end is Some && (writer.state == AppendState::Empty || target_end->0
        != writer.position()) {
        misplaced
    } else if writer.last_appended is Some && (target_seq != (writer.last_appended->0).commit_seq
        || target_end != Some((writer.last_appended->0).end)) {
        misplaced
    } else if created_later(writer, target_seq) {
        misplaced
    } else {
        None
    }
}

/// Some file was created by a commit behind the target.
pub open spec fn created_later(writer: WriterView, target_seq: u64) -> bool {
    exists|file_id: u32| #[trigger]
        writer.pending_directory_entries.dom().contains(file_id)
            && writer.pending_directory_entries[file_id] > target_seq
}

/// The files that have to be synchronized for a target.
pub open spec fn files_through(writer: WriterView, target_end: Option<VLogPosition>) -> Set<u32> {
    writer.dirty_files.filter(
        |file_id: u32| target_end is Some && file_id <= (target_end->0).file_id,
    )
}

/// The files whose directory entries have to be synchronized for a target.
pub open spec fn entries_through(
    writer: WriterView,
    target_seq: u64,
    target_end: Option<VLogPosition>,
) -> Set<u32> {
    writer.pending_directory_entries.dom().filter(
        |file_id: u32|
            writer.pending_directory_entries[file_id] <= target_seq && target_end is Some
                && file_id <= (target_end->0).file_id,
    )
}

/// A list holds the members of a set, in increasing order.
pub open spec fn lists(file_ids: Seq<u32>, members: Set<u32>) -> bool {
    &&& increasing(file_ids)
    &&& forall|file_id: u32| #[trigger] file_ids.contains(file_id) == members.contains(file_id)
}

/// A synchronization on its way: what it has to do, and how many files are done.
pub struct SyncRun {
    pub target_seq: u64,
    pub target_end: Option<VLogPosition>,
    pub files: Vec<u32>,
    pub directory_entries: Vec<u32>,
    pub done: usize,
    pub directory_done: bool,
}

/// Everything up to a target is on disk. The writer waits for it to be settled.
pub struct FrontierSync {
    id: u64,
    target_seq: u64,
    target_end: Option<VLogPosition>,
    files: Vec<u32>,
    directory_entries: Vec<u32>,
}

/// What was synchronized, as a mathematical value.
pub struct SyncView {
    pub id: u64,
    pub target_seq: u64,
    pub target_end: Option<VLogPosition>,
    pub files: Seq<u32>,
    pub directory_entries: Seq<u32>,
}

impl View for FrontierSync {
    type V = SyncView;

    closed spec fn view(&self) -> SyncView {
        SyncView {
            id: self.id,
            target_seq: self.target_seq,
            target_end: self.target_end,
            files: self.files@,
            directory_entries: self.directory_entries@,
        }
    }
}

/// What the caller has to do next.
pub enum SyncAction {
    /// Synchronize the file that is open for appending.
    SyncActive { file_id: u32 },
    /// Open a file and inspect it.
    OpenFile { file_id: u32 },
    /// Synchronize the file that was opened for this.
    SyncOpened { file_id: u32 },
    SyncDirectory,
    Done(FrontierSync),
    Fail(StorageError),
}

/// A synchronization ends with an error, and the writer stops.
pub open spec fn sync_failed(
    before: WriterView,
    after: WriterView,
    action: SyncAction,
    error: ErrorView,
) -> bool {
    &&& after == (WriterView { append_failed: true, ..before })
    &&& action matches SyncAction::Fail(given) && given@ == error
}

/// What is due next: a file, the directory, or the end.
pub open spec fn sync_due(
    before: WriterView,
    after: WriterView,
    run: SyncRun,
    action: SyncAction,
) -> bool {
    if run.done < run.files@.len() {
        let file_id = run.files@[run.done as int];
        &&& after == before
        &&& action == (if before.state matches AppendState::Open { file_id: open, .. } && open
            == file_id {
            SyncAction::SyncActive { file_id }
        } else {
            SyncAction::OpenFile { file_id }
        })
    } else if run.directory_entries@.len() > 0 && !run.directory_done {
        &&& after == before
        &&& action is SyncDirectory
    } else if before.next_sync_id == u64::MAX {
        sync_failed(before, after, action, sync_state_view(run.target_seq, run.target_end))
    } else {
        &&& after == (WriterView {
            next_sync_id: (before.next_sync_id + 1) as u64,
            pending_sync_id: Some(before.next_sync_id),
            ..before
        })
        &&& action matches SyncAction::Done(synced) && synced@ == (SyncView {
            id: before.next_sync_id,
            target_seq: run.target_seq,
            target_end: run.target_end,
            files: run.files@,
            directory_entries: run.directory_entries@,
        })
    }
}

/// The writer after the frontier moved: what was synchronized is clean.
pub open spec fn settled(writer: WriterView, synced: SyncView) -> WriterView {
    WriterView {
        dirty_files: writer.dirty_files.difference(synced.files.to_set()),
        pending_directory_entries: writer.pending_directory_entries.remove_keys(
            synced.directory_entries.to_set(),
        ),
        pending_sync_id: None,
        ..writer
    }
}

/// The writer after the frontier failed to move.
pub open spec fn unsettled(writer: WriterView) -> WriterView {
    WriterView { pending_sync_id: None, append_failed: true, ..writer }
}

impl ValueLogWriter {
    /// Decides whether the log can be synchronized through a commit, and what that takes.
    pub fn begin_sync(&self, target_seq: u64, target_end: Option<VLogPosition>) -> (result: Result<
        SyncRun,
    >)
        ensures
            match sync_refusal(self@, target_seq, target_end) {
                Some(refusal) => result matches Err(error) && error@ == refusal,
                None => result matches Ok(run) && {
                    &&& run.target_seq == target_seq && run.target_end == target_end
                    &&& run.done == 0 && !run.directory_done
                    &&& lists(run.files@, files_through(self@, target_end))
                    &&& lists(
                        run.directory_entries@,
                        entries_through(self@, target_seq, target_end),
                    )
                    &&& run.files@.to_set() == self@.dirty_files
                    &&& run.directory_entries@.to_set() == self@.pending_directory_entries.dom()
                },
            },
    {
        if self.append_failed {
            return Err(sync_stopped(target_seq, target_end));
        }
        if self.pending_sync_id.is_some() {
            return Err(sync_state_error(target_seq, target_end));
        }
        let clean = self.dirty_files.is_empty();
        proof {
            assert(clean == (self@.dirty_files == Set::<u32>::empty())) by {
                if self@.dirty_files == Set::<u32>::empty() {
                    assert(self.dirty_files@ =~= Map::<u32, ()>::empty());
                } else if clean {
                    assert(self@.dirty_files =~= Set::<u32>::empty());
                }
            }
        }
        match target_end {
            None => {
                if target_seq != 0 {
                    return Err(sync_state_error(target_seq, target_end));
                }
                if self.state != AppendState::Empty || !clean
                    || !self.pending_directory_entries.is_empty() {
                    return Err(sync_state_error(target_seq, target_end));
                }
            },
            Some(end) => {
                if target_seq == 0 {
                    return Err(sync_state_error(target_seq, target_end));
                }
                match LayoutPlanner::from_position(self.log.geometry(), end) {
                    Ok(_) => {},
                    Err(error) => {
                        return Err(sync_context(error, target_seq, target_end, end.file_id));
                    },
                }
                if self.state == AppendState::Empty || end != self.position() {
                    return Err(sync_state_error(target_seq, target_end));
                }
            },
        }
        match self.last_appended {
            Some(appended) => {
                if target_seq != appended.commit_seq || target_end != Some(appended.end) {
                    return Err(sync_state_error(target_seq, target_end));
                }
            },
            None => {},
        }
        if self.has_later_entry(target_seq) {
            return Err(sync_state_error(target_seq, target_end));
        }
        let files = self.files_to_sync(target_end);
        let directory_entries = self.entries_to_sync(target_seq, target_end);
        proof {
            use_type_invariant(self);
            law_sync_covers_everything(
                self@,
                target_seq,
                target_end,
                files@,
                directory_entries@,
            );
        }
        Ok(
            SyncRun {
                target_seq,
                target_end,
                files,
                directory_entries,
                done: 0,
                directory_done: false,
            },
        )
    }

    fn has_later_entry(&self, target_seq: u64) -> (later: bool)
        ensures
            later == created_later(self@, target_seq),
    {
        let known = self.pending_directory_entries.file_ids();
        let mut i: usize = 0;
        while i < known.len()
            invariant
                i <= known@.len(),
                forall|file_id: u32|
                    known@.contains(file_id)
                        == self.pending_directory_entries@.dom().contains(file_id),
                forall|k: int|
                    0 <= k < i ==> self.pending_directory_entries@[#[trigger] known@[k]]
                        <= target_seq,
            decreases known@.len() - i,
        {
            proof {
                assert(known@.contains(known@[i as int]));
            }
            match self.pending_directory_entries.get(known[i]) {
                Some(created_by) => {
                    if created_by > target_seq {
                        proof {
                            assert(self@.pending_directory_entries.dom().contains(
                                known@[i as int],
                            ));
                        }
                        return true;
                    }
                },
                None => {},
            }
            i = i + 1;
        }
        proof {
            if created_later(self@, target_seq) {
                let file_id = choose|file_id: u32| #[trigger]
                    self@.pending_directory_entries.dom().contains(file_id)
                        && self@.pending_directory_entries[file_id] > target_seq;
                assert(known@.contains(file_id));
            }
        }
        false
    }

    fn files_to_sync(&self, target_end: Option<VLogPosition>) -> (files: Vec<u32>)
        ensures
            lists(files@, files_through(self@, target_end)),
    {
        let known = self.dirty_files.file_ids();
        let mut files: Vec<u32> = Vec::new();
        let mut i: usize = 0;
        while i < known.len()
            invariant
                i <= known@.len(),
                increasing(known@),
                forall|file_id: u32|
                    known@.contains(file_id) == self.dirty_files@.dom().contains(file_id),
                increasing(files@),
                forall|k: int, j: int|
                    0 <= k < files@.len() && i <= j < known@.len() ==> (#[trigger] files@[k]) < (
                    #[trigger] known@[j]),
                forall|file_id: u32| #[trigger]
                    files@.contains(file_id) == (known@.take(i as int).contains(file_id)
                        && target_end is Some && file_id <= (target_end->0).file_id),
            decreases known@.len() - i,
        {
            let file_id: u32 = known[i];
            let wanted = match target_end {
                Some(end) => file_id <= end.file_id,
                None => false,
            };
            let ghost before = files@;
            if wanted {
                files.push(file_id);
            }
            proof {
                lemma_take_contains(known@, i as int);
                if wanted {
                    lemma_push_contains(before, file_id);
                }
            }
            i = i + 1;
        }
        proof {
            assert(known@.take(known@.len() as int) =~= known@);
        }
        files
    }

    fn entries_to_sync(&self, target_seq: u64, target_end: Option<VLogPosition>) -> (entries: Vec<u32>)
        ensures
            lists(entries@, entries_through(self@, target_seq, target_end)),
    {
        let known = self.pending_directory_entries.file_ids();
        let ghost pending = self.pending_directory_entries@;
        let mut entries: Vec<u32> = Vec::new();
        let mut i: usize = 0;
        while i < known.len()
            invariant
                i <= known@.len(),
                increasing(known@),
                pending == self.pending_directory_entries@,
                forall|file_id: u32| known@.contains(file_id) == pending.dom().contains(file_id),
                increasing(entries@),
                forall|k: int, j: int|
                    0 <= k < entries@.len() && i <= j < known@.len() ==> (#[trigger] entries@[k])
                        < (#[trigger] known@[j]),
                forall|file_id: u32| #[trigger]
                    entries@.contains(file_id) == (known@.take(i as int).contains(file_id)
                        && pending[file_id] <= target_seq && target_end is Some && file_id
                        <= (target_end->0).file_id),
            decreases known@.len() - i,
        {
            let file_id: u32 = known[i];
            proof {
                assert(known@.contains(known@[i as int]));
            }
            let wanted = match (target_end, self.pending_directory_entries.get(file_id)) {
                (Some(end), Some(created_by)) => created_by <= target_seq && file_id
                    <= end.file_id,
                _ => false,
            };
            let ghost before = entries@;
            if wanted {
                entries.push(file_id);
            }
            proof {
                lemma_take_contains(known@, i as int);
                if wanted {
                    lemma_push_contains(before, file_id);
                }
            }
            i = i + 1;
        }
        proof {
            assert(known@.take(known@.len() as int) =~= known@);
        }
        entries
    }

    /// Goes on with a synchronization.
    pub fn next_sync(&mut self, run: &SyncRun) -> (action: SyncAction)
        ensures
            sync_due(old(self)@, final(self)@, *run, action),
    {
        if run.done < run.files.len() {
            let file_id: u32 = run.files[run.done];
            return match self.state {
                AppendState::Open { file_id: open, .. } if open
                    == file_id => SyncAction::SyncActive { file_id },
                _ => SyncAction::OpenFile { file_id },
            };
        }
        if run.directory_entries.len() > 0 && !run.directory_done {
            return SyncAction::SyncDirectory;
        }
        proof {
            use_type_invariant(&*self);
        }
        let id: u64 = self.next_sync_id;
        match id.checked_add(1) {
            Some(next_sync_id) => {
                self.next_sync_id = next_sync_id;
                self.pending_sync_id = Some(id);
                SyncAction::Done(
                    FrontierSync {
                        id,
                        target_seq: run.target_seq,
                        target_end: run.target_end,
                        files: copy_ids(&run.files),
                        directory_entries: copy_ids(&run.directory_entries),
                    },
                )
            },
            None => {
                self.append_failed = true;
                SyncAction::Fail(sync_state_error(run.target_seq, run.target_end))
            },
        }
    }

    /// A file reached the disk.
    pub fn file_synced(&mut self, run: &mut SyncRun) -> (action: SyncAction)
        requires
            old(run).done < old(run).files@.len(),
        ensures
            *final(run) == (SyncRun { done: (old(run).done + 1) as usize, ..*old(run) }),
            sync_due(old(self)@, final(self)@, *final(run), action),
    {
        let count: usize = run.files.len();
        proof {
            assert(run.done < count);
        }
        run.done = run.done + 1;
        self.next_sync(run)
    }

    /// The file that is open for appending did not reach the disk.
    pub fn active_not_synced(&mut self, run: &SyncRun, failure: IoFailure) -> (action: SyncAction)
        requires
            run.done < run.files@.len(),
        ensures
            sync_failed(
                old(self)@,
                final(self)@,
                action,
                sync_file_view(
                    run.target_seq,
                    run.files@[run.done as int],
                    Some(old(self)@.position().offset),
                    failure,
                ),
            ),
    {
        proof {
            use_type_invariant(&*self);
        }
        self.append_failed = true;
        SyncAction::Fail(
            sync_file_io(
                run.target_seq,
                run.files[run.done],
                Some(self.position().offset),
                failure,
            ),
        )
    }

    /// A file could not be opened, or did not reach the disk.
    pub fn file_not_synced(&mut self, run: &SyncRun, failure: IoFailure) -> (action: SyncAction)
        requires
            run.done < run.files@.len(),
        ensures
            sync_failed(
                old(self)@,
                final(self)@,
                action,
                sync_file_view(run.target_seq, run.files@[run.done as int], None, failure),
            ),
    {
        proof {
            use_type_invariant(&*self);
        }
        self.append_failed = true;
        SyncAction::Fail(sync_file_io(run.target_seq, run.files[run.done], None, failure))
    }

    /// A file was opened and inspected: it has to be the known one.
    pub fn file_opened(&mut self, catalog: &FileCatalog, run: &SyncRun, facts: FileFacts) -> (action:
        SyncAction)
        requires
            run.done < run.files@.len(),
        ensures
            ({
                let file_id = run.files@[run.done as int];
                if FileCatalog::is_known(catalog@, file_id, facts) {
                    final(self)@ == old(self)@ && action == (SyncAction::SyncOpened { file_id })
                } else {
                    sync_failed(
                        old(self)@,
                        final(self)@,
                        action,
                        seen_by_sync(
                            read_corruption_view(file_id, None),
                            run.target_seq,
                            Some(old(self)@.position()),
                            file_id,
                        ),
                    )
                }
            }),
    {
        proof {
            use_type_invariant(&*self);
        }
        let file_id: u32 = run.files[run.done];
        match catalog.verify(file_id, facts) {
            Ok(_) => SyncAction::SyncOpened { file_id },
            Err(error) => {
                self.append_failed = true;
                SyncAction::Fail(
                    sync_context(error, run.target_seq, Some(self.position()), file_id),
                )
            },
        }
    }

    /// A file was opened and could not be inspected.
    pub fn file_opened_unseen(&mut self, catalog: &FileCatalog, run: &SyncRun, failure: IoFailure) -> (action:
        SyncAction)
        requires
            run.done < run.files@.len(),
        ensures
            ({
                let file_id = run.files@[run.done as int];
                sync_failed(
                    old(self)@,
                    final(self)@,
                    action,
                    seen_by_sync(
                        if catalog@.dom().contains(file_id) {
                            read_io_view(file_id, None, failure)
                        } else {
                            read_corruption_view(file_id, None)
                        },
                        run.target_seq,
                        Some(old(self)@.position()),
                        file_id,
                    ),
                )
            }),
    {
        proof {
            use_type_invariant(&*self);
        }
        let file_id: u32 = run.files[run.done];
        let error = match catalog.identity(file_id) {
            Ok(_) => read_io(file_id, None, failure),
            Err(error) => error,
        };
        self.append_failed = true;
        SyncAction::Fail(sync_context(error, run.target_seq, Some(self.position()), file_id))
    }

    /// The directory reached the disk.
    pub fn directory_synced(&mut self, run: &mut SyncRun) -> (action: SyncAction)
        ensures
            *final(run) == (SyncRun { directory_done: true, ..*old(run) }),
            sync_due(old(self)@, final(self)@, *final(run), action),
    {
        run.directory_done = true;
        self.next_sync(run)
    }

    /// The directory did not reach the disk.
    pub fn directory_not_synced(&mut self, run: &SyncRun, failure: IoFailure) -> (action: SyncAction)
        ensures
            sync_failed(
                old(self)@,
                final(self)@,
                action,
                sync_directory_view(run.target_seq, run.target_end, failure),
            ),
    {
        proof {
            use_type_invariant(&*self);
        }
        self.append_failed = true;
        SyncAction::Fail(sync_directory_io(run.target_seq, run.target_end, failure))
    }

    fn consume_sync(&self, synced: &FrontierSync) -> (result: Result<()>)
        ensures
            match result {
                Ok(_) => self@.pending_sync_id == Some(synced@.id),
                Err(error) => self@.pending_sync_id != Some(synced@.id) && error@
                    == sync_state_view(synced@.target_seq, synced@.target_end),
            },
    {
        if self.pending_sync_id != Some(synced.id) {
            Err(sync_state_error(synced.target_seq, synced.target_end))
        } else {
            Ok(())
        }
    }

    /// The durable frontier moved: what was synchronized is clean.
    pub fn frontier_succeeded(&mut self, synced: FrontierSync) -> (result: Result<()>)
        ensures
            if old(self)@.pending_sync_id == Some(synced@.id) {
                &&& result is Ok
                &&& final(self)@ == settled(old(self)@, synced@)
            } else {
                &&& result matches Err(error) && error@ == sync_state_view(
                    synced@.target_seq,
                    synced@.target_end,
                )
                &&& final(self)@ == old(self)@
            },
    {
        self.consume_sync(&synced)?;
        proof {
            use_type_invariant(&*self);
        }
        let ghost before = self@;
        let mut files = FileMap::new();
        std::mem::swap(&mut files, &mut self.dirty_files);
        let mut i: usize = 0;
        while i < synced.files.len()
            invariant
                i <= synced.files@.len(),
                files@.dom() =~= before.dirty_files.difference(
                    synced.files@.take(i as int).to_set(),
                ),
            decreases synced.files@.len() - i,
        {
            proof {
                lemma_take_to_set(synced.files@, i as int);
            }
            files.remove(synced.files[i]);
            i = i + 1;
        }
        proof {
            assert(synced.files@.take(i as int) =~= synced.files@);
        }
        let mut entries = FileMap::new();
        std::mem::swap(&mut entries, &mut self.pending_directory_entries);
        let mut j: usize = 0;
        while j < synced.directory_entries.len()
            invariant
                j <= synced.directory_entries@.len(),
                entries@ =~= before.pending_directory_entries.remove_keys(
                    synced.directory_entries@.take(j as int).to_set(),
                ),
            decreases synced.directory_entries@.len() - j,
        {
            proof {
                lemma_take_to_set(synced.directory_entries@, j as int);
            }
            entries.remove(synced.directory_entries[j]);
            j = j + 1;
        }
        proof {
            assert(synced.directory_entries@.take(j as int) =~= synced.directory_entries@);
        }
        self.dirty_files = files;
        self.pending_directory_entries = entries;
        self.pending_sync_id = None;
        Ok(())
    }

    /// The durable frontier did not move: the writer stops.
    pub fn frontier_failed(&mut self, synced: FrontierSync) -> (result: Result<()>)
        ensures
            if old(self)@.pending_sync_id == Some(synced@.id) {
                &&& result is Ok
                &&& final(self)@ == unsettled(old(self)@)
            } else {
                &&& result matches Err(error) && error@ == sync_state_view(
                    synced@.target_seq,
                    synced@.target_end,
                )
                &&& final(self)@ == old(self)@
            },
    {
        self.consume_sync(&synced)?;
        proof {
            use_type_invariant(&*self);
        }
        self.pending_sync_id = None;
        self.append_failed = true;
        Ok(())
    }
}

impl FrontierSync {
    pub fn target_seq(&self) -> (target_seq: u64)
        ensures
            target_seq == self@.target_seq,
    {
        self.target_seq
    }

    pub fn target_end(&self) -> (target_end: Option<VLogPosition>)
        ensures
            target_end == self@.target_end,
    {
        self.target_end
    }
}

fn copy_ids(file_ids: &Vec<u32>) -> (copy: Vec<u32>)
    ensures
        copy@ == file_ids@,
{
    let mut copy: Vec<u32> = Vec::new();
    let mut i: usize = 0;
    while i < file_ids.len()
        invariant
            i <= file_ids@.len(),
            copy@ == file_ids@.take(i as int),
        decreases file_ids@.len() - i,
    {
        copy.push(file_ids[i]);
        i = i + 1;
        proof {
            assert(copy@ =~= file_ids@.take(i as int));
        }
    }
    proof {
        assert(copy@ =~= file_ids@);
    }
    copy
}

proof fn lemma_take_contains(s: Seq<u32>, i: int)
    requires
        0 <= i < s.len(),
    ensures
        forall|x: u32| #[trigger]
            s.take(i + 1).contains(x) == (s.take(i).contains(x) || x == s[i]),
{
    assert(s.take(i + 1) =~= s.take(i).push(s[i]));
    lemma_push_contains(s.take(i), s[i]);
}

proof fn lemma_push_contains(s: Seq<u32>, y: u32)
    ensures
        forall|x: u32| #[trigger] s.push(y).contains(x) == (s.contains(x) || x == y),
{
    assert forall|x: u32| #[trigger] s.push(y).contains(x) == (s.contains(x) || x == y) by {
        if s.contains(x) {
            let k = choose|k: int| 0 <= k < s.len() && s[k] == x;
            assert(s.push(y)[k] == x);
        }
        if x == y {
            assert(s.push(y)[s.len() as int] == x);
        }
        if s.push(y).contains(x) {
            let k = choose|k: int| 0 <= k < s.push(y).len() && s.push(y)[k] == x;
            assert(k < s.len() ==> s[k] == x);
        }
    }
}

proof fn lemma_take_to_set(s: Seq<u32>, i: int)
    requires
        0 <= i < s.len(),
    ensures
        s.take(i + 1).to_set() =~= s.take(i).to_set().insert(s[i]),
{
    lemma_take_contains(s, i);
}

/// A synchronization leaves nothing behind: what it lists are all files of the log that hold
/// bytes which are not on disk, and all files whose directory entries are not.
pub proof fn law_sync_covers_everything(
    writer: WriterView,
    target_seq: u64,
    target_end: Option<VLogPosition>,
    files: Seq<u32>,
    entries: Seq<u32>,
)
    requires
        sync_refusal(writer, target_seq, target_end) is None,
        writer.ordered(),
        lists(files, files_through(writer, target_end)),
        lists(entries, entries_through(writer, target_seq, target_end)),
    ensures
        files.to_set() == writer.dirty_files,
        entries.to_set() == writer.pending_directory_entries.dom(),
        forall|synced: SyncView|
            synced.files == files && synced.directory_entries == entries ==> {
                let clean = #[trigger] settled(writer, synced);
                &&& clean.dirty_files == Set::<u32>::empty()
                &&& clean.pending_directory_entries == Map::<u32, u64>::empty()
            },
{
    assert forall|file_id: u32| writer.dirty_files.contains(file_id) implies files.contains(
        file_id,
    ) by {
        if target_end is None {
            assert(writer.dirty_files == Set::<u32>::empty());
        }
        assert(files_through(writer, target_end).contains(file_id));
    }
    assert forall|file_id: u32|
        writer.pending_directory_entries.dom().contains(file_id) implies entries.contains(
        file_id,
    ) by {
        if target_end is None {
            assert(writer.pending_directory_entries == Map::<u32, u64>::empty());
        }
        assert(entries_through(writer, target_seq, target_end).contains(file_id));
    }
    assert(files.to_set() =~= writer.dirty_files);
    assert(entries.to_set() =~= writer.pending_directory_entries.dom());
    assert forall|synced: SyncView|
        synced.files == files && synced.directory_entries == entries implies {
        let clean = #[trigger] settled(writer, synced);
        &&& clean.dirty_files == Set::<u32>::empty()
        &&& clean.pending_directory_entries == Map::<u32, u64>::empty()
    } by {
        let clean = settled(writer, synced);
        assert(clean.dirty_files =~= Set::<u32>::empty());
        assert(clean.pending_directory_entries =~= Map::<u32, u64>::empty());
    }
}

/// A synchronization takes its files in their order, then the directory where a file was made,
/// and is done only behind all of them. It then has a number of its own, under which the writer
/// waits for it; until then the writer does not change. Only where no number is left does it
/// fail by itself.
pub proof fn law_sync_is_done_behind_everything(
    before: WriterView,
    after: WriterView,
    run: SyncRun,
    action: SyncAction,
)
    requires
        sync_due(before, after, run, action),
    ensures
        ({
            let files_left = run.done < run.files@.len();
            let directory_left = run.directory_entries@.len() > 0 && !run.directory_done;
            &&& files_left <==> action is SyncActive || action is OpenFile
            &&& action matches SyncAction::SyncActive { file_id } ==> file_id
                == run.files@[run.done as int] && active_in(before.state, file_id)
            &&& action matches SyncAction::OpenFile { file_id } ==> file_id
                == run.files@[run.done as int] && !active_in(before.state, file_id)
            &&& action is SyncDirectory <==> !files_left && directory_left
            &&& action matches SyncAction::Done(synced) ==> {
                &&& !files_left && !directory_left
                &&& synced@.target_seq == run.target_seq
                &&& synced@.target_end == run.target_end
                &&& synced@.files == run.files@
                &&& synced@.directory_entries == run.directory_entries@
                &&& after.pending_sync_id == Some(synced@.id)
                &&& before.next_sync_id <= synced@.id < after.next_sync_id
                &&& after.append_failed == before.append_failed
                &&& after.dirty_files == before.dirty_files
                &&& after.pending_directory_entries == before.pending_directory_entries
                &&& after.state == before.state
            }
            &&& action is Fail <==> !files_left && !directory_left && before.next_sync_id
                == u64::MAX
            &&& action is Fail ==> after.append_failed
            &&& files_left || directory_left ==> after == before
            &&& !(action is SyncOpened)
        }),
{
}

/// A file is the one that is open for appending.
pub open spec fn active_in(state: AppendState, file_id: u32) -> bool {
    state matches AppendState::Open { file_id: open, .. } && open == file_id
}

/// A synchronization that failed leaves the writer stopped, with everything that it had to bring
/// to the disk, and its user is told that the commit is not there.
pub proof fn law_failed_sync_stops_the_writer(
    before: WriterView,
    after: WriterView,
    action: SyncAction,
    error: ErrorView,
    target_seq: u64,
    target_end: Option<VLogPosition>,
    file_id: u32,
    offset: Option<u64>,
    failure: IoFailure,
)
    requires
        sync_failed(before, after, action, error),
    ensures
        after.append_failed,
        after.dirty_files == before.dirty_files,
        after.pending_directory_entries == before.pending_directory_entries,
        after.state == before.state,
        ({
            let of_file = sync_file_view(target_seq, file_id, offset, failure);
            let of_directory = sync_directory_view(target_seq, target_end, failure);
            &&& of_file.kind == StorageErrorKind::Io && of_directory.kind == StorageErrorKind::Io
            &&& of_file.os_code == failure.os_code && of_directory.os_code == failure.os_code
            &&& of_file.commit_seq == Some(target_seq) && of_directory.commit_seq == Some(
                target_seq,
            )
            &&& of_file.vlog_file_id == Some(file_id) && of_file.vlog_offset == offset
            &&& of_file.protocol_stage == ProtocolStage::VLogSync && of_directory.protocol_stage
                == ProtocolStage::VLogSync
            &&& of_file.write_outcome == Some(WriteOutcome::NotCommitted)
                && of_directory.write_outcome == Some(WriteOutcome::NotCommitted)
            &&& of_file.retry_advice == RetryAdvice::FixEnvironmentAndReopen
                && of_directory.retry_advice == RetryAdvice::FixEnvironmentAndReopen
        }),
{
}

/// A stopped writer brings nothing to the disk any more; one that waits for an earlier
/// synchronization does not begin another; and only what was appended last can be a target.
pub proof fn law_sync_is_refused_for_a_reason(
    writer: WriterView,
    target_seq: u64,
    target_end: Option<VLogPosition>,
)
    ensures
        writer.append_failed ==> (sync_refusal(writer, target_seq, target_end) matches Some(error)
            && error.kind == StorageErrorKind::StorageWriteStopped && error.commit_seq == Some(
            target_seq,
        )),
        writer.pending_sync_id is Some ==> sync_refusal(writer, target_seq, target_end) is Some,
        target_end matches Some(end) && end != writer.position() ==> sync_refusal(
            writer,
            target_seq,
            target_end,
        ) is Some,
        writer.last_appended matches Some(last) && (last.commit_seq != target_seq || target_end
            != Some(last.end)) ==> sync_refusal(writer, target_seq, target_end) is Some,
        sync_refusal(writer, target_seq, target_end) matches Some(error) ==> error.operation
            == Operation::Sync && error.write_outcome == Some(WriteOutcome::NotCommitted),
        writer == (WriterView {
            state: AppendState::Empty,
            dirty_files: Set::<u32>::empty(),
            pending_directory_entries: Map::<u32, u64>::empty(),
            pending_sync_id: None,
            append_failed: false,
            last_appended: None,
            ..writer
        }) ==> sync_refusal(writer, 0, None) is None,
{
}

} // verus!
