//! Taking up the value log for writing: who may write, and whether the files on disk are the
//! log that was accepted.

use vstd::prelude::*;

use crate::claims::ClaimTable;
use crate::error::{
    ErrorView, Operation, ProtocolStage, Result, StorageError, StorageErrorKind,
};
use crate::io_failure::IoFailure;
use crate::vlog::file_map::FileMap;
use crate::vlog::file_set::{read_corruption_view, FileCatalog, FileFacts, FileIdentity};
use crate::vlog::geometry::{decode_view, invalid_vlog_view, VLogGeometry, VLogPosition};
use crate::vlog::header::{
    file_header_of_other_version, is_identifier, lemma_file_header_layout,
    lemma_page_header_layout, new_file_header, same_uuid, PageHeader, VLogFileHeader,
    FILE_HEADER_ENCODED_LEN, PAGE_HEADER_ENCODED_LEN,
};
use crate::vlog::layout::{can_go_on, LayoutPlanner};
use crate::vlog::writer::{AppendState, LogIdentity, ValueLogWriter, WriterView};
use crate::vlog::writer_error::{
    accepted_header_corruption, append_layout, append_layout_view, claim_busy_view, open_context,
    seen_by_open, writer_claim_busy, writer_open_io, writer_open_view,
};

verus! {

/// A writer that has written nothing yet, at the end of a log.
pub open spec fn writer_at(database_uuid: Seq<u8>, geometry: VLogGeometry, state: AppendState) -> WriterView {
    WriterView {
        database_uuid,
        geometry,
        state,
        dirty_files: Set::<u32>::empty(),
        pending_directory_entries: Map::<u32, u64>::empty(),
        pending_sync_id: None,
        next_sync_id: 1,
        append_failed: false,
        last_appended: None,
    }
}

/// Why a log cannot be taken up, before any file is opened; `None` where it can.
pub open spec fn take_up_refusal(
    claims: Set<FileIdentity>,
    directory: FileIdentity,
    database_uuid: Seq<u8>,
    geometry: VLogGeometry,
    catalog: Map<u32, FileIdentity>,
    accepted_end: Option<VLogPosition>,
) -> Option<ErrorView> {
    let origin = VLogPosition { file_id: 0, offset: 0 };
    if !is_identifier(database_uuid) {
        Some(seen_by_open(append_layout_view(origin), accepted_end))
    } else if !geometry.valid() {
        Some(
            seen_by_open(invalid_vlog_view(StorageErrorKind::InvalidArgument), accepted_end),
        )
    } else if claims.contains(directory) {
        Some(seen_by_open(claim_busy_view(), accepted_end))
    } else {
        match accepted_end {
            None => if catalog == Map::<u32, FileIdentity>::empty() {
                None
            } else {
                Some(seen_by_open(append_layout_view(origin), None))
            },
            Some(end) => if can_go_on(geometry, end) && end.offset != 0 {
                None
            } else {
                Some(seen_by_open(append_layout_view(end), accepted_end))
            },
        }
    }
}

/// A log that is being taken up: an empty one is ready, another is still to be looked at.
pub enum TakenUp {
    Ready(ValueLogWriter),
    Checking(AcceptedLog),
}

/// The files of a log, while they are compared with the end that was accepted. The files
/// before `next` are accepted.
pub struct AcceptedLog {
    log: LogIdentity,
    end: VLogPosition,
    tail_seen: bool,
    next: u32,
}

/// How far the comparison has come.
pub struct AcceptedView {
    pub database_uuid: Seq<u8>,
    pub geometry: VLogGeometry,
    pub end: VLogPosition,
    pub tail_seen: bool,
    pub next: u32,
}

impl View for AcceptedLog {
    type V = AcceptedView;

    closed spec fn view(&self) -> AcceptedView {
        AcceptedView {
            database_uuid: self.log.spec_database_uuid(),
            geometry: self.log.spec_geometry(),
            end: self.end,
            tail_seen: self.tail_seen,
            next: self.next,
        }
    }
}

impl AcceptedView {
    /// The length that a file of the log has: every file but the last one is full.
    pub open spec fn expected_len(self, file_id: u32) -> u64 {
        if file_id < self.end.file_id {
            self.geometry.max_file_size
        } else {
            self.end.offset
        }
    }
}

fn fresh_writer(log: LogIdentity, state: AppendState) -> (writer: ValueLogWriter)
    ensures
        writer@ == writer_at(log.spec_database_uuid(), log.spec_geometry(), state),
{
    let writer = ValueLogWriter {
        log,
        state,
        dirty_files: FileMap::new(),
        pending_directory_entries: FileMap::new(),
        pending_sync_id: None,
        next_sync_id: 1,
        append_failed: false,
        last_appended: None,
    };
    proof {
        assert(writer@.dirty_files =~= Set::<u32>::empty());
    }
    writer
}

/// Takes up a log that ends at an accepted position, or an empty one. The directory stays
/// claimed where this succeeds.
pub fn take_up(
    claims: &mut ClaimTable,
    directory: FileIdentity,
    database_uuid: [u8; 16],
    geometry: VLogGeometry,
    catalog: &FileCatalog,
    accepted_end: Option<VLogPosition>,
) -> (result: Result<TakenUp>)
    ensures
        match take_up_refusal(
            old(claims)@,
            directory,
            database_uuid@,
            geometry,
            catalog@,
            accepted_end,
        ) {
            Some(refusal) => {
                &&& final(claims)@ == old(claims)@
                &&& result matches Err(error) && error@ == refusal
            },
            None => {
                &&& final(claims)@ == old(claims)@.insert(directory)
                &&& match accepted_end {
                    None => result matches Ok(TakenUp::Ready(writer)) && writer@ == writer_at(
                        database_uuid@,
                        geometry,
                        AppendState::Empty,
                    ),
                    Some(end) => result matches Ok(TakenUp::Checking(accepted)) && accepted@ == (
                    AcceptedView {
                        database_uuid: database_uuid@,
                        geometry,
                        end,
                        tail_seen: false,
                        next: 0,
                    }),
                }
            },
        },
{
    let log = match LogIdentity::new(database_uuid, geometry) {
        Ok(log) => log,
        Err(error) => return Err(open_context(error, accepted_end)),
    };
    let ghost before = claims@;
    if !claims.claim(directory) {
        return Err(open_context(writer_claim_busy(), accepted_end));
    }
    proof {
        assert(before.insert(directory).remove(directory) =~= before);
    }
    match accepted_end {
        None => {
            let known = catalog.file_ids();
            proof {
                if catalog@ == Map::<u32, FileIdentity>::empty() {
                    if known@.len() > 0 {
                        assert(known@.contains(known@[0]));
                    }
                } else if known@.len() == 0 {
                    assert forall|file_id: u32| !catalog@.dom().contains(file_id) by {
                        assert(!known@.contains(file_id));
                    }
                    assert(catalog@ =~= Map::<u32, FileIdentity>::empty());
                }
            }
            if known.len() != 0 {
                claims.release(directory);
                return Err(
                    open_context(append_layout(VLogPosition { file_id: 0, offset: 0 }), None),
                );
            }
            Ok(TakenUp::Ready(fresh_writer(log, AppendState::Empty)))
        },
        Some(end) => {
            let planned = LayoutPlanner::from_position(geometry, end);
            if planned.is_err() || end.offset == 0 {
                claims.release(directory);
                return Err(open_context(append_layout(end), accepted_end));
            }
            Ok(TakenUp::Checking(AcceptedLog { log, end, tail_seen: false, next: 0 }))
        },
    }
}

impl AcceptedLog {
    #[verifier::type_invariant]
    spec fn well_formed(&self) -> bool {
        &&& can_go_on(self.log.spec_geometry(), self.end)
        &&& self.log.spec_geometry().valid()
        &&& self.next <= self.end.file_id + 1
    }

    /// The last file could not be opened or inspected.
    pub fn tail_unseen(&self, failure: IoFailure) -> (error: StorageError)
        ensures
            error@ == writer_open_view(self@.end, failure),
    {
        writer_open_io(self.end, failure)
    }

    /// The last file was opened: it has to be the known one, and to end where the log ends;
    /// and the known files have to be all files up to it.
    pub fn tail_opened(&mut self, catalog: &FileCatalog, facts: FileFacts) -> (result: Result<()>)
        ensures
            ({
                let end = old(self)@.end;
                let known = FileCatalog::is_known(catalog@, end.file_id, facts);
                let complete = forall|file_id: u32| #[trigger]
                    catalog@.dom().contains(file_id) == (file_id <= end.file_id);
                match result {
                    Ok(_) => {
                        &&& known && facts.len == end.offset && complete
                        &&& final(self)@ == (AcceptedView { tail_seen: true, ..old(self)@ })
                    },
                    Err(error) => {
                        &&& final(self)@ == old(self)@
                        &&& error@ == seen_by_open(
                            if !known {
                                read_corruption_view(end.file_id, None)
                            } else {
                                append_layout_view(end)
                            },
                            Some(end),
                        )
                        &&& !(known && facts.len == end.offset && complete)
                    },
                }
            }),
    {
        let end = self.end;
        match catalog.verify(end.file_id, facts) {
            Ok(_) => {},
            Err(error) => return Err(open_context(error, Some(end))),
        }
        if facts.len != end.offset || !is_complete(catalog, end.file_id) {
            return Err(open_context(append_layout(end), Some(end)));
        }
        proof {
            use_type_invariant(&*self);
        }
        self.tail_seen = true;
        Ok(())
    }

    /// The file that has to be looked at next, or `None` where all are accepted.
    pub fn next_file(&self) -> (file_id: Option<u32>)
        ensures
            file_id == (if self@.next <= self@.end.file_id {
                Some(self@.next)
            } else {
                None
            }),
    {
        if self.next <= self.end.file_id {
            Some(self.next)
        } else {
            None
        }
    }

    /// The next file could not be opened.
    pub fn file_unopened(&self, failure: IoFailure) -> (error: StorageError)
        ensures
            error@ == writer_open_view(VLogPosition { file_id: self@.next, offset: 0 }, failure),
    {
        writer_open_io(VLogPosition { file_id: self.next, offset: 0 }, failure)
    }

    fn expected_len(&self, file_id: u32) -> (len: u64)
        ensures
            len == self@.expected_len(file_id),
    {
        if file_id < self.end.file_id {
            self.log.geometry().max_file_size
        } else {
            self.end.offset
        }
    }

    /// The length of the next file could not be had.
    pub fn file_unmeasured(&self, failure: IoFailure) -> (error: StorageError)
        ensures
            error@ == writer_open_view(
                VLogPosition { file_id: self@.next, offset: self@.expected_len(self@.next) },
                failure,
            ),
    {
        writer_open_io(
            VLogPosition { file_id: self.next, offset: self.expected_len(self.next) },
            failure,
        )
    }

    /// Compares the next file with what the log expects of it.
    pub fn file_opened(&self, catalog: &FileCatalog, facts: FileFacts) -> (result: Result<()>)
        ensures
            ({
                let known = FileCatalog::is_known(catalog@, self@.next, facts);
                let full = facts.len == self@.expected_len(self@.next);
                match result {
                    Ok(_) => known && full,
                    Err(error) => if !known {
                        error@ == seen_by_open(read_corruption_view(self@.next, None), None)
                    } else {
                        let found = VLogPosition { file_id: self@.next, offset: facts.len };
                        !full && error@ == seen_by_open(append_layout_view(found), Some(found))
                    },
                }
            }),
    {
        match catalog.verify(self.next, facts) {
            Ok(_) => {},
            Err(error) => return Err(open_context(error, None)),
        }
        if facts.len != self.expected_len(self.next) {
            let found = VLogPosition { file_id: self.next, offset: facts.len };
            return Err(open_context(append_layout(found), Some(found)));
        }
        Ok(())
    }

    /// Accepts the next file by the headers at its start.
    pub fn headers_read(&mut self, encoded: &[u8]) -> (result: Result<()>)
        requires
            old(self)@.next <= old(self)@.end.file_id,
            encoded@.len() == PAGE_HEADER_ENCODED_LEN + FILE_HEADER_ENCODED_LEN,
        ensures
            ({
                let file_id = old(self)@.next;
                let at_page = VLogPosition { file_id, offset: 0 };
                let at_file = VLogPosition { file_id, offset: PAGE_HEADER_ENCODED_LEN as u64 };
                let page = encoded@.take(PAGE_HEADER_ENCODED_LEN as int);
                let file = encoded@.skip(PAGE_HEADER_ENCODED_LEN as int);
                let own_page = page == (PageHeader { file_id, page_no: 0 }).encoded();
                let own_file = file == new_file_header(old(self)@.database_uuid, file_id);
                match result {
                    Ok(_) => own_page && own_file && final(self)@ == (AcceptedView {
                        next: (file_id + 1) as u32,
                        ..old(self)@
                    }),
                    Err(error) => {
                        &&& final(self)@ == old(self)@
                        &&& !(own_page && own_file)
                        &&& if !own_page {
                            error@ == seen_by_open(
                                decode_view(StorageErrorKind::Corruption),
                                Some(at_page),
                            )
                        } else if file_header_of_other_version(file) {
                            error@ == seen_by_open(
                                decode_view(StorageErrorKind::IncompatibleFormat),
                                Some(at_file),
                            )
                        } else {
                            error@ == seen_by_open(
                                decode_view(StorageErrorKind::Corruption),
                                Some(at_file),
                            )
                        }
                    },
                }
            }),
    {
        proof {
            use_type_invariant(&*self);
        }
        let file_id: u32 = self.next;
        let database_uuid = self.log.database_uuid();
        let page_bytes = vstd::slice::slice_subrange(encoded, 0, PAGE_HEADER_ENCODED_LEN);
        let file_bytes = vstd::slice::slice_subrange(
            encoded,
            PAGE_HEADER_ENCODED_LEN,
            PAGE_HEADER_ENCODED_LEN + FILE_HEADER_ENCODED_LEN,
        );
        let wanted_page = PageHeader { file_id, page_no: 0 };
        let wanted_file = VLogFileHeader::new(database_uuid, file_id);
        proof {
            assert(page_bytes@ =~= encoded@.take(PAGE_HEADER_ENCODED_LEN as int));
            assert(file_bytes@ =~= encoded@.skip(PAGE_HEADER_ENCODED_LEN as int));
            lemma_page_header_layout(wanted_page);
            lemma_file_header_layout(wanted_file);
            assert(wanted_page.valid());
            assert(wanted_file.valid());
            assert(wanted_file.encoded() == new_file_header(database_uuid@, file_id));
        }
        let page_header = match PageHeader::decode(page_bytes) {
            Ok(header) => header,
            Err(error) => {
                return Err(open_context(error, Some(VLogPosition { file_id, offset: 0 })));
            },
        };
        proof {
            lemma_page_header_layout(page_header);
        }
        if page_header.file_id != file_id || page_header.page_no != 0 {
            return Err(accepted_header_corruption(file_id, 0));
        }
        let at_file = VLogPosition { file_id, offset: PAGE_HEADER_ENCODED_LEN as u64 };
        let file_header = match VLogFileHeader::decode(file_bytes) {
            Ok(header) => header,
            Err(error) => return Err(open_context(error, Some(at_file))),
        };
        proof {
            lemma_file_header_layout(file_header);
        }
        if !same_uuid(&file_header.database_uuid, &database_uuid) || file_header.file_id
            != file_id {
            return Err(accepted_header_corruption(file_id, PAGE_HEADER_ENCODED_LEN as u64));
        }
        self.next = file_id + 1;
        Ok(())
    }

    /// The writer of the log, once every file of it is accepted.
    pub fn finish(self) -> (writer: Option<ValueLogWriter>)
        ensures
            match writer {
                Some(writer) => {
                    &&& self@.tail_seen && self@.next > self@.end.file_id
                    &&& writer@ == writer_at(
                        self@.database_uuid,
                        self@.geometry,
                        if self@.end.offset == self@.geometry.max_file_size {
                            AppendState::AtFileLimit { last_file_id: self@.end.file_id }
                        } else {
                            AppendState::Open {
                                file_id: self@.end.file_id,
                                offset: self@.end.offset,
                            }
                        },
                    )
                    &&& writer@.position() == self@.end
                },
                None => !(self@.tail_seen && self@.next > self@.end.file_id),
            },
    {
        if !self.tail_seen || self.next <= self.end.file_id {
            return None;
        }
        let state = if self.end.offset == self.log.geometry().max_file_size {
            AppendState::AtFileLimit { last_file_id: self.end.file_id }
        } else {
            AppendState::Open { file_id: self.end.file_id, offset: self.end.offset }
        };
        Some(fresh_writer(self.log, state))
    }
}

/// Whether the known files are all files up to a last one.
fn is_complete(catalog: &FileCatalog, last: u32) -> (complete: bool)
    ensures
        complete == (forall|file_id: u32| #[trigger]
            catalog@.dom().contains(file_id) == (file_id <= last)),
{
    let known = catalog.file_ids();
    if known.len() as u64 != last as u64 + 1 {
        proof {
            if forall|file_id: u32| #[trigger]
                catalog@.dom().contains(file_id) == (file_id <= last) {
                lemma_counts_up(known@, last as int + 1);
            }
        }
        return false;
    }
    let mut i: usize = 0;
    while i < known.len()
        invariant
            i <= known@.len(),
            known@.len() == last + 1,
            crate::vlog::file_map::increasing(known@),
            forall|file_id: u32| known@.contains(file_id) == catalog@.dom().contains(file_id),
            forall|k: int| 0 <= k < i ==> known@[k] == k,
        decreases known@.len() - i,
    {
        if known[i] as usize != i {
            proof {
                if forall|file_id: u32| #[trigger]
                    catalog@.dom().contains(file_id) == (file_id <= last) {
                    lemma_counts_up(known@, last as int + 1);
                }
            }
            return false;
        }
        i = i + 1;
    }
    proof {
        assert forall|file_id: u32| #[trigger]
            catalog@.dom().contains(file_id) == (file_id <= last) by {
            if file_id <= last {
                assert(known@[file_id as int] == file_id);
                assert(known@.contains(file_id));
            } else if known@.contains(file_id) {
                let k = choose|k: int| 0 <= k < known@.len() && known@[k] == file_id;
                assert(known@[k] == k);
            }
        }
    }
    true
}

/// An increasing list of all numbers below a limit counts up from 0.
proof fn lemma_counts_up(ids: Seq<u32>, limit: int)
    requires
        crate::vlog::file_map::increasing(ids),
        0 <= limit <= u32::MAX + 1,
        forall|file_id: u32| #[trigger] ids.contains(file_id) == (file_id < limit),
    ensures
        ids.len() == limit,
        forall|k: int| 0 <= k < ids.len() ==> ids[k] == k,
{
    lemma_at_least(ids, limit, ids.len() as int);
    assert forall|k: int| 0 <= k < ids.len() implies ids[k] == k by {
        lemma_at_least(ids, limit, k);
        if ids[k] > k {
            // The number k itself has a place, and it is before k.
            assert(ids.contains(ids[k]));
            assert(ids.contains(k as u32));
            let j = choose|j: int| 0 <= j < ids.len() && ids[j] == k as u32;
            if j < k {
                lemma_at_least(ids, limit, k);
                assert(ids[j] == j);
            }
        }
    }
    if ids.len() < limit {
        assert(ids.contains(ids.len() as u32));
        let j = choose|j: int| 0 <= j < ids.len() && ids[j] == ids.len() as u32;
        assert(ids[j] == j);
    }
    if ids.len() > limit {
        assert(ids.contains(ids[limit]));
    }
}

/// The entries before a place count up from 0.
proof fn lemma_at_least(ids: Seq<u32>, limit: int, n: int)
    requires
        crate::vlog::file_map::increasing(ids),
        0 <= limit <= u32::MAX + 1,
        forall|file_id: u32| #[trigger] ids.contains(file_id) == (file_id < limit),
        0 <= n <= ids.len(),
    ensures
        forall|k: int| 0 <= k < n ==> ids[k] == k,
        n < ids.len() ==> ids[n] >= n,
    decreases n,
{
    if n > 0 {
        let k = n - 1;
        lemma_at_least(ids, limit, k);
        if ids[k] > k {
            assert(ids.contains(ids[k]));
            assert(ids.contains(k as u32));
            let j = choose|j: int| 0 <= j < ids.len() && ids[j] == k as u32;
            if j < k {
                assert(ids[j] == j);
            } else if j > k {
                assert(ids[k] < ids[j]);
            }
        }
    }
}

/// A log is taken up exactly where its directory is free and it is empty, without a file, or ends
/// behind some byte at a place from which it can go on.
pub proof fn law_log_is_taken_up(
    claims: Set<FileIdentity>,
    directory: FileIdentity,
    database_uuid: Seq<u8>,
    geometry: VLogGeometry,
    catalog: Map<u32, FileIdentity>,
    accepted_end: Option<VLogPosition>,
)
    requires
        is_identifier(database_uuid),
        geometry.valid(),
    ensures
        ({
            let refusal = take_up_refusal(
                claims,
                directory,
                database_uuid,
                geometry,
                catalog,
                accepted_end,
            );
            &&& refusal is None <==> !claims.contains(directory) && match accepted_end {
                None => forall|file_id: u32| !#[trigger] catalog.dom().contains(file_id),
                Some(end) => can_go_on(geometry, end) && end.offset > 0,
            }
            &&& refusal matches Some(error) ==> error.operation == Operation::Open
                && error.protocol_stage == ProtocolStage::Recovery && (error.kind
                == StorageErrorKind::Busy <==> claims.contains(directory))
        }),
{
    if forall|file_id: u32| !#[trigger] catalog.dom().contains(file_id) {
        assert(catalog =~= Map::<u32, FileIdentity>::empty());
    }
}

/// The writer of a log that was taken up stands at its end, has nothing to bring to the disk and
/// nothing to wait for, and appends.
pub proof fn law_new_writer_stands_at_the_end(
    database_uuid: Seq<u8>,
    geometry: VLogGeometry,
    end: VLogPosition,
)
    ensures
        ({
            let empty = writer_at(database_uuid, geometry, AppendState::Empty);
            let open = writer_at(
                database_uuid,
                geometry,
                AppendState::Open { file_id: end.file_id, offset: end.offset },
            );
            let full = writer_at(
                database_uuid,
                geometry,
                AppendState::AtFileLimit { last_file_id: end.file_id },
            );
            &&& empty.position() == (VLogPosition { file_id: 0, offset: 0 })
            &&& open.position() == end
            &&& full.position() == (VLogPosition {
                file_id: end.file_id,
                offset: geometry.max_file_size,
            })
            &&& empty.ordered() && open.ordered() && full.ordered()
            &&& !open.append_failed && open.pending_sync_id is None && open.last_appended is None
            &&& !full.append_failed && full.pending_sync_id is None && full.last_appended is None
            &&& !empty.append_failed && empty.pending_sync_id is None
                && empty.last_appended is None
            &&& open.dirty_files.is_empty() && full.dirty_files.is_empty()
                && empty.dirty_files.is_empty()
            &&& open.pending_directory_entries.dom().is_empty()
            &&& open.geometry == geometry && open.database_uuid == database_uuid
        }),
{
}

/// The files of a log that was accepted have the lengths that end the log where it was accepted:
/// all are full, but for the last one, which goes up to the end.
pub proof fn law_accepted_files_end_the_log(accepted: AcceptedView, file_id: u32)
    requires
        file_id <= accepted.end.file_id,
    ensures
        file_id == accepted.end.file_id ==> accepted.expected_len(file_id) == accepted.end.offset,
        file_id != accepted.end.file_id ==> accepted.expected_len(file_id)
            == accepted.geometry.max_file_size,
{
}

} // verus!
