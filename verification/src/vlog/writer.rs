//! Appending to the value log: where bytes go, when files begin, and what a failure leaves.
//!
//! The writer decides; its caller performs each action on the files and tells the writer what
//! came of it.

use vstd::prelude::*;

use crate::error::{ErrorView, Result, StorageError, StorageErrorKind};
use crate::io_failure::{IoCause, IoFailure, RetryCount};
use crate::vlog::envelope::{EnvelopeView, PreparedEnvelope};
use crate::vlog::file_map::FileMap;
use crate::vlog::file_set::{
    read_corruption_view, read_io, read_io_view, FileCatalog, FileFacts,
};
use crate::vlog::geometry::{
    chunk_views, invalid_vlog_view, next_position, position_before, ChunkView, PhysicalChunk, VLogGeometry, VLogPosition,
    FIRST_PAGE_RECORD_AREA_START, MAX_VLOG_FILE_ID,
};
use crate::vlog::header::{
    is_identifier, is_nonzero_uuid, lemma_file_header_layout, lemma_page_header_layout,
    new_file_header, same_uuid, PageHeader, VLogFileHeader, MAX_PAGE_NO, PAGE_HEADER_ENCODED_LEN,
};
use crate::vlog::layout::LayoutPlanner;
use crate::vlog::writer_error::{
    append_context, append_io, append_io_view, append_layout, append_layout_view, seen_by_append,
    writer_busy, writer_busy_view, writer_stopped, writer_stopped_view,
};

verus! {

/// Where the next byte of the log goes.
#[derive(Clone, Copy, Debug, PartialEq, Eq, Structural)]
pub enum AppendState {
    Empty,
    Open { file_id: u32, offset: u64 },
    AtFileLimit { last_file_id: u32 },
}

/// The last envelope that was appended.
#[derive(Clone, Copy, Debug, PartialEq, Eq, Structural)]
pub struct AppendedTail {
    pub commit_seq: u64,
    pub end: VLogPosition,
}

/// Whose log it is, and how its files are divided.
#[derive(Clone, Copy, Debug)]
pub struct LogIdentity {
    database_uuid: [u8; 16],
    geometry: VLogGeometry,
}

impl LogIdentity {
    #[verifier::type_invariant]
    spec fn well_formed(&self) -> bool {
        self.geometry.valid() && is_identifier(self.database_uuid@)
    }

    pub closed spec fn spec_database_uuid(&self) -> Seq<u8> {
        self.database_uuid@
    }

    pub closed spec fn spec_geometry(&self) -> VLogGeometry {
        self.geometry
    }

    /// Checks who writes, and how.
    pub fn new(database_uuid: [u8; 16], geometry: VLogGeometry) -> (result: Result<Self>)
        ensures
            match result {
                Ok(log) => {
                    &&& is_identifier(database_uuid@) && geometry.valid()
                    &&& log.spec_database_uuid() == database_uuid@
                    &&& log.spec_geometry() == geometry
                },
                Err(error) => {
                    ||| !is_identifier(database_uuid@) && error@ == append_layout_view(
                        VLogPosition { file_id: 0, offset: 0 },
                    )
                    ||| is_identifier(database_uuid@) && !geometry.valid() && error@
                        == invalid_vlog_view(StorageErrorKind::InvalidArgument)
                },
            },
    {
        if !is_nonzero_uuid(&database_uuid) {
            return Err(append_layout(VLogPosition { file_id: 0, offset: 0 }));
        }
        LayoutPlanner::empty(geometry)?;
        Ok(LogIdentity { database_uuid, geometry })
    }

    pub fn database_uuid(&self) -> (database_uuid: [u8; 16])
        ensures
            database_uuid@ == self.spec_database_uuid(),
            is_identifier(database_uuid@),
    {
        proof {
            use_type_invariant(self);
        }
        self.database_uuid
    }

    pub fn geometry(&self) -> (geometry: VLogGeometry)
        ensures
            geometry == self.spec_geometry(),
            geometry.valid(),
    {
        proof {
            use_type_invariant(self);
        }
        self.geometry
    }
}

/// The writer of the value log.
pub struct ValueLogWriter {
    pub(in crate::vlog) log: LogIdentity,
    pub(in crate::vlog) state: AppendState,
    pub(in crate::vlog) dirty_files: FileMap<()>,
    pub(in crate::vlog) pending_directory_entries: FileMap<u64>,
    pub(in crate::vlog) pending_sync_id: Option<u64>,
    pub(in crate::vlog) next_sync_id: u64,
    pub(in crate::vlog) append_failed: bool,
    pub(in crate::vlog) last_appended: Option<AppendedTail>,
}

/// What a writer knows: where the log ends, which files hold bytes that are not yet
/// synchronized, which files were created by which commit without their directory entry
/// being synchronized, and whether it has stopped.
#[verifier::ext_equal]
pub struct WriterView {
    pub database_uuid: Seq<u8>,
    pub geometry: VLogGeometry,
    pub state: AppendState,
    pub dirty_files: Set<u32>,
    pub pending_directory_entries: Map<u32, u64>,
    pub pending_sync_id: Option<u64>,
    pub next_sync_id: u64,
    pub append_failed: bool,
    pub last_appended: Option<AppendedTail>,
}

impl View for ValueLogWriter {
    type V = WriterView;

    open(in crate::vlog) spec fn view(&self) -> WriterView {
        WriterView {
            database_uuid: self.log.spec_database_uuid(),
            geometry: self.log.spec_geometry(),
            state: self.state,
            dirty_files: self.dirty_files@.dom(),
            pending_directory_entries: self.pending_directory_entries@,
            pending_sync_id: self.pending_sync_id,
            next_sync_id: self.next_sync_id,
            append_failed: self.append_failed,
            last_appended: self.last_appended,
        }
    }
}

impl WriterView {
    /// The end of the log.
    pub open spec fn position(self) -> VLogPosition {
        state_position(self.state, self.geometry)
    }

    /// Nothing is remembered of a file that the log does not have.
    pub open spec fn ordered(self) -> bool {
        self.knows_first(files_in(self.state))
    }

    /// What is remembered is of the first so many files.
    pub open spec fn knows_first(self, count: nat) -> bool {
        &&& forall|file_id: u32| #[trigger] self.dirty_files.contains(file_id) ==> file_id < count
        &&& forall|file_id: u32| #[trigger]
            self.pending_directory_entries.dom().contains(file_id) ==> file_id < count
    }

    /// What is remembered but for one file.
    pub open spec fn forgetting(self, file_id: u32) -> WriterView {
        WriterView {
            dirty_files: self.dirty_files.remove(file_id),
            pending_directory_entries: self.pending_directory_entries.remove(file_id),
            ..self
        }
    }
}

/// How many files a log has.
pub open spec fn files_in(state: AppendState) -> nat {
    match state {
        AppendState::Empty => 0,
        AppendState::Open { file_id, .. } => file_id as nat + 1,
        AppendState::AtFileLimit { last_file_id } => last_file_id as nat + 1,
    }
}

pub open spec fn state_position(state: AppendState, geometry: VLogGeometry) -> VLogPosition {
    match state {
        AppendState::Empty => VLogPosition { file_id: 0, offset: 0 },
        AppendState::Open { file_id, offset } => VLogPosition { file_id, offset },
        AppendState::AtFileLimit { last_file_id } => VLogPosition {
            file_id: last_file_id,
            offset: geometry.max_file_size,
        },
    }
}

/// A chunk at the start of a page is that page's header, and the one behind it in the first
/// page is the header of the file.
pub open spec fn is_structural(chunk: ChunkView, geometry: VLogGeometry, database_uuid: Seq<u8>) -> bool {
    let page_no = chunk.position.offset / geometry.page_size;
    if chunk.position.offset % geometry.page_size == 0 {
        &&& page_no <= MAX_PAGE_NO && chunk.position.file_id <= MAX_VLOG_FILE_ID
        &&& chunk.bytes == (PageHeader {
            file_id: chunk.position.file_id,
            page_no: page_no as u32,
        }).encoded()
    } else if chunk.position.offset == PAGE_HEADER_ENCODED_LEN {
        &&& chunk.position.file_id <= MAX_VLOG_FILE_ID
        &&& chunk.bytes == new_file_header(database_uuid, chunk.position.file_id)
    } else {
        true
    }
}

/// Where chunks, from one on, fail to lie gaplessly from an expected position to an end; `None`
/// where they do not fail.
pub open spec fn misplaced(
    chunks: Seq<ChunkView>,
    from: int,
    expected: VLogPosition,
    end: VLogPosition,
    geometry: VLogGeometry,
    database_uuid: Seq<u8>,
) -> Option<VLogPosition>
    decreases chunks.len() - from,
{
    if from >= chunks.len() {
        if expected == end {
            None
        } else {
            Some(expected)
        }
    } else {
        let chunk = chunks[from];
        let behind = VLogPosition {
            file_id: chunk.position.file_id,
            offset: (chunk.position.offset + chunk.bytes.len()) as u64,
        };
        if chunk.position != expected || chunk.bytes.len() == 0 || !is_structural(
            chunk,
            geometry,
            database_uuid,
        ) || chunk.position.file_id > geometry.max_file_id || chunk.position.offset
            + chunk.bytes.len() > geometry.max_file_size {
            Some(chunk.position)
        } else if behind.offset == geometry.max_file_size && from + 1 < chunks.len() {
            match next_position(behind, geometry) {
                Some(next) => misplaced(chunks, from + 1, next, end, geometry, database_uuid),
                None => Some(behind),
            }
        } else {
            misplaced(chunks, from + 1, behind, end, geometry, database_uuid)
        }
    }
}

/// Why an envelope cannot be appended; `None` where it can.
pub open spec fn append_refusal(writer: WriterView, envelope: EnvelopeView) -> Option<ErrorView> {
    if writer.append_failed {
        Some(writer_stopped_view(envelope.commit_seq, envelope.vlog_begin))
    } else if writer.pending_sync_id is Some {
        Some(writer_busy_view(envelope.commit_seq, envelope.vlog_begin))
    } else if writer.last_appended is Some && envelope.commit_seq
        <= (writer.last_appended->0).commit_seq {
        Some(append_layout_view(envelope.vlog_begin))
    } else if envelope.commit_seq == 0 || !is_identifier(envelope.tx_uuid) || envelope.vlog_begin
        != writer.position() || !position_before(envelope.vlog_begin, envelope.vlog_end)
        || envelope.chunks.len() == 0 {
        Some(append_layout_view(envelope.vlog_begin))
    } else {
        match next_position(envelope.vlog_begin, writer.geometry) {
            None => Some(append_layout_view(envelope.vlog_begin)),
            Some(start) => match misplaced(
                envelope.chunks,
                0,
                start,
                envelope.vlog_end,
                writer.geometry,
                writer.database_uuid,
            ) {
                Some(position) => Some(append_layout_view(position)),
                None => None,
            },
        }
    }
}

/// What an append is waiting for.
#[derive(Clone, Copy, Debug)]
pub enum AppendPhase {
    /// A chunk is about to be placed.
    Placing,
    /// A file is being created.
    Creating { file_id: u32 },
    /// A chunk is being written. A file that was created for it remembers the state before.
    Writing { previous: Option<AppendState>, written: u64, count: RetryCount },
    /// An empty file is being removed, after a failure that may pass.
    Removing { file_id: u32, previous: AppendState, progress: bool, failure: IoFailure },
    /// The file that was written to is being inspected.
    Inspecting { file_id: u32 },
    /// The append has ended.
    Ended,
}

/// An append on its way: the chunk that it has come to, and what it is waiting for.
#[derive(Clone, Copy, Debug)]
pub struct AppendRun {
    pub index: usize,
    pub phase: AppendPhase,
}

/// What the caller has to do next.
pub enum AppendAction {
    CreateFile { file_id: u32 },
    /// Write the rest of a chunk, from a byte of it on, at an offset of the open file.
    Write { chunk: usize, from: u64, offset: u64 },
    /// Remove the file if it is empty.
    RemoveIfEmpty { file_id: u32 },
    Inspect { file_id: u32 },
    Done,
    Fail(StorageError),
}

/// An action as a mathematical value.
pub enum ActionView {
    CreateFile { file_id: u32 },
    Write { chunk: int, from: u64, offset: u64 },
    RemoveIfEmpty { file_id: u32 },
    Inspect { file_id: u32 },
    Done,
    Fail(ErrorView),
}

impl View for AppendAction {
    type V = ActionView;

    open spec fn view(&self) -> ActionView {
        match self {
            AppendAction::CreateFile { file_id } => ActionView::CreateFile { file_id: *file_id },
            AppendAction::Write { chunk, from, offset } => ActionView::Write {
                chunk: *chunk as int,
                from: *from,
                offset: *offset,
            },
            AppendAction::RemoveIfEmpty { file_id } => ActionView::RemoveIfEmpty {
                file_id: *file_id,
            },
            AppendAction::Inspect { file_id } => ActionView::Inspect { file_id: *file_id },
            AppendAction::Done => ActionView::Done,
            AppendAction::Fail(error) => ActionView::Fail(error@),
        }
    }
}

/// A writer, an append on its way, and the action that is due.
#[verifier::ext_equal]
pub struct StepView {
    pub writer: WriterView,
    pub run: AppendRun,
    pub action: ActionView,
}

/// The file that has to be created for a chunk, if one has to; an error where the chunk does
/// not follow the end of the log.
pub open spec fn file_for_chunk(writer: WriterView, position: VLogPosition) -> std::result::Result<
    Option<u32>,
    ErrorView,
> {
    let refused = Err(append_layout_view(position));
    let fresh = |file_id: int|
        if file_id != position.file_id || position.offset != 0 || file_id
            > writer.geometry.max_file_id {
            refused
        } else {
            Ok(Some(file_id as u32))
        };
    match writer.state {
        AppendState::Empty => fresh(0),
        AppendState::AtFileLimit { last_file_id } => fresh(last_file_id + 1),
        AppendState::Open { file_id, offset } => if file_id == position.file_id && offset
            == position.offset {
            Ok(None)
        } else {
            refused
        },
    }
}

/// An append ends with an error. The writer stops, unless the failure may pass and nothing of
/// the envelope is in the log.
pub open spec fn failed(writer: WriterView, envelope: EnvelopeView, run: AppendRun, error: ErrorView) -> StepView {
    let retryable = error.kind == StorageErrorKind::ResourceExhausted && writer.position()
        == envelope.vlog_begin;
    StepView {
        writer: WriterView { append_failed: writer.append_failed || !retryable, ..writer },
        run: AppendRun { phase: AppendPhase::Ended, ..run },
        action: ActionView::Fail(error),
    }
}

/// A chunk is to be written at the end of the log.
pub open spec fn write_next(
    writer: WriterView,
    envelope: EnvelopeView,
    index: usize,
    previous: Option<AppendState>,
    written: u64,
    count: RetryCount,
) -> StepView {
    StepView {
        writer,
        run: AppendRun { index, phase: AppendPhase::Writing { previous, written, count } },
        action: ActionView::Write {
            chunk: index as int,
            from: written,
            offset: (writer.position().offset + written) as u64,
        },
    }
}

/// The next chunk is placed, or the append ends where there is none.
pub open spec fn place_next(writer: WriterView, envelope: EnvelopeView, run: AppendRun) -> StepView {
    if run.index >= envelope.chunks.len() {
        if writer.position() != envelope.vlog_end {
            failed(writer, envelope, run, append_layout_view(envelope.vlog_end))
        } else {
            StepView {
                writer: WriterView {
                    last_appended: Some(
                        AppendedTail { commit_seq: envelope.commit_seq, end: envelope.vlog_end },
                    ),
                    ..writer
                },
                run: AppendRun { phase: AppendPhase::Ended, ..run },
                action: ActionView::Done,
            }
        }
    } else {
        match file_for_chunk(writer, envelope.chunks[run.index as int].position) {
            Err(error) => failed(writer, envelope, run, error),
            Ok(None) => write_next(writer, envelope, run.index, None, 0, RetryCount::fresh()),
            Ok(Some(file_id)) => StepView {
                writer,
                run: AppendRun { phase: AppendPhase::Creating { file_id }, ..run },
                action: ActionView::CreateFile { file_id },
            },
        }
    }
}

/// The file for a chunk was created.
pub open spec fn created(writer: WriterView, envelope: EnvelopeView, run: AppendRun, file_id: u32) -> StepView {
    write_next(
        WriterView {
            state: AppendState::Open { file_id, offset: 0 },
            pending_directory_entries: writer.pending_directory_entries.insert(
                file_id,
                envelope.commit_seq,
            ),
            ..writer
        },
        envelope,
        run.index,
        Some(writer.state),
        0,
        RetryCount::fresh(),
    )
}

/// The writer behind so many bytes more.
pub open spec fn advanced(writer: WriterView, written: u64) -> WriterView {
    if written == 0 {
        writer
    } else {
        WriterView {
            state: AppendState::Open {
                file_id: writer.position().file_id,
                offset: (writer.position().offset + written) as u64,
            },
            dirty_files: writer.dirty_files.insert(writer.position().file_id),
            ..writer
        }
    }
}

/// A chunk was written to its end.
pub open spec fn chunk_written(writer: WriterView, envelope: EnvelopeView, run: AppendRun, written: u64) -> StepView {
    let behind = advanced(writer, written);
    if behind.position().offset >= FIRST_PAGE_RECORD_AREA_START {
        StepView {
            writer: behind,
            run: AppendRun {
                phase: AppendPhase::Inspecting { file_id: behind.position().file_id },
                ..run
            },
            action: ActionView::Inspect { file_id: behind.position().file_id },
        }
    } else {
        chunk_settled(behind, envelope, run)
    }
}

/// A chunk is in the log, and its file is known. A full file is left.
pub open spec fn chunk_settled(writer: WriterView, envelope: EnvelopeView, run: AppendRun) -> StepView {
    let settled = if writer.position().offset == writer.geometry.max_file_size {
        WriterView {
            state: AppendState::AtFileLimit { last_file_id: writer.position().file_id },
            ..writer
        }
    } else {
        writer
    };
    place_next(
        settled,
        envelope,
        AppendRun { index: (run.index + 1) as usize, phase: AppendPhase::Placing },
    )
}

/// The writing of a chunk was given up behind so many bytes of it.
pub open spec fn write_given_up(
    writer: WriterView,
    envelope: EnvelopeView,
    run: AppendRun,
    previous: Option<AppendState>,
    written: u64,
    failure: IoFailure,
) -> StepView {
    let behind = advanced(writer, written);
    let progress = match previous {
        Some(state) => if written == 0 {
            state_position(state, writer.geometry) != envelope.vlog_begin
        } else {
            behind.position() != envelope.vlog_begin
        },
        None => behind.position() != envelope.vlog_begin,
    };
    match previous {
        Some(state) => if written == 0 && failure.transient() {
            StepView {
                writer: behind,
                run: AppendRun {
                    phase: AppendPhase::Removing {
                        file_id: behind.position().file_id,
                        previous: state,
                        progress,
                        failure,
                    },
                    ..run
                },
                action: ActionView::RemoveIfEmpty { file_id: behind.position().file_id },
            }
        } else {
            failed(
                behind,
                envelope,
                run,
                append_io_view(envelope.commit_seq, behind.position(), progress, failure),
            )
        },
        None => failed(
            behind,
            envelope,
            run,
            append_io_view(envelope.commit_seq, behind.position(), progress, failure),
        ),
    }
}

/// A failure that the operating system did not report.
pub open spec fn unreported() -> IoFailure {
    IoFailure { cause: IoCause::Other, os_code: None }
}

/// So many bytes were written.
pub open spec fn wrote(writer: WriterView, envelope: EnvelopeView, run: AppendRun, count: u64) -> StepView {
    match run.phase {
        AppendPhase::Writing { previous, written, .. } => {
            let left = envelope.chunks[run.index as int].bytes.len() - written;
            if count == 0 || count > left {
                write_given_up(writer, envelope, run, previous, written, unreported())
            } else if count == left {
                chunk_written(writer, envelope, run, (written + count) as u64)
            } else {
                write_next(
                    writer,
                    envelope,
                    run.index,
                    previous,
                    (written + count) as u64,
                    RetryCount::fresh(),
                )
            }
        },
        _ => arbitrary(),
    }
}

/// A write failed.
pub open spec fn write_failed(writer: WriterView, envelope: EnvelopeView, run: AppendRun, failure: IoFailure) -> StepView {
    match run.phase {
        AppendPhase::Writing { previous, written, count } => match count.after(failure) {
            Some(count) => write_next(writer, envelope, run.index, previous, written, count),
            None => write_given_up(writer, envelope, run, previous, written, failure),
        },
        _ => arbitrary(),
    }
}

/// The empty file was removed: everything is as it was before the file was created.
pub open spec fn removed(writer: WriterView, envelope: EnvelopeView, run: AppendRun) -> StepView {
    match run.phase {
        AppendPhase::Removing { file_id, previous, progress, failure } => failed(
            WriterView {
                state: previous,
                pending_directory_entries: writer.pending_directory_entries.remove(file_id),
                dirty_files: writer.dirty_files.remove(file_id),
                ..writer
            },
            envelope,
            run,
            append_io_view(
                envelope.commit_seq,
                VLogPosition { file_id, offset: 0 },
                progress,
                failure,
            ),
        ),
        _ => arbitrary(),
    }
}

/// The log goes on in a new file: the first one, or the one behind a full one.
pub open spec fn goes_on_in(state: AppendState, file_id: u32) -> bool {
    match state {
        AppendState::Empty | AppendState::AtFileLimit { .. } => file_id == files_in(state),
        AppendState::Open { .. } => false,
    }
}

/// Without the file that is open, nothing is remembered of a file that the log did not have
/// before.
pub open spec fn can_go_back(writer: WriterView, previous: AppendState) -> bool {
    writer.forgetting(writer.position().file_id).knows_first(files_in(previous))
}

/// An append fits a writer: the chunk that is being written lies at the end of the log.
pub open spec fn in_step(writer: WriterView, envelope: EnvelopeView, run: AppendRun) -> bool {
    match run.phase {
        AppendPhase::Ended => true,
        AppendPhase::Placing => run.index <= envelope.chunks.len(),
        AppendPhase::Creating { file_id } => {
            &&& run.index < envelope.chunks.len()
            &&& goes_on_in(writer.state, file_id)
            &&& envelope.chunks[run.index as int].position == (VLogPosition { file_id, offset: 0 })
        },
        AppendPhase::Writing { previous, written, .. } => {
            &&& previous matches Some(previous) ==> can_go_back(writer, previous)
            &&& run.index < envelope.chunks.len()
            &&& writer.state == (AppendState::Open {
                file_id: envelope.chunks[run.index as int].position.file_id,
                offset: envelope.chunks[run.index as int].position.offset,
            })
            &&& written < envelope.chunks[run.index as int].bytes.len()
        },
        AppendPhase::Removing { file_id, previous, .. } => {
            &&& can_go_back(writer, previous)
            &&& writer.state == (AppendState::Open { file_id, offset: 0 })
        },
        AppendPhase::Inspecting { file_id } => {
            &&& run.index < envelope.chunks.len()
            &&& writer.state matches AppendState::Open { file_id: open, .. } && open == file_id
        },
    }
}

/// The chunks of an envelope have bytes, and end where an offset can tell.
pub open spec fn chunks_countable(envelope: EnvelopeView) -> bool {
    forall|i: int|
        0 <= i < envelope.chunks.len() ==> 0 < (#[trigger] envelope.chunks[i]).bytes.len()
            && envelope.chunks[i].position.offset + envelope.chunks[i].bytes.len() <= u64::MAX
}

impl ValueLogWriter {
    #[verifier::type_invariant]
    pub(in crate::vlog) open(in crate::vlog) spec fn holds_nothing_past_end(&self) -> bool {
        let count = files_in(self.state);
        &&& forall|file_id: u32| #[trigger]
            self.dirty_files@.dom().contains(file_id) ==> file_id < count
        &&& forall|file_id: u32| #[trigger]
            self.pending_directory_entries@.dom().contains(file_id) ==> file_id < count
    }

    pub fn position(&self) -> (position: VLogPosition)
        ensures
            position == self@.position(),
    {
        position_of(self.state, self.log.geometry())
    }

    /// Where the next byte goes.
    pub fn append_state(&self) -> (state: AppendState)
        ensures
            state == self@.state,
    {
        self.state
    }

    pub fn log_geometry(&self) -> (geometry: VLogGeometry)
        ensures
            geometry == self@.geometry,
            geometry.valid(),
    {
        self.log.geometry()
    }

    pub fn database_uuid(&self) -> (database_uuid: [u8; 16])
        ensures
            database_uuid@ == self@.database_uuid,
            is_identifier(database_uuid@),
    {
        self.log.database_uuid()
    }

    /// Whether the writer has stopped for good.
    pub fn has_terminal_failure(&self) -> (stopped: bool)
        ensures
            stopped == self@.append_failed,
    {
        self.append_failed
    }

    /// Decides whether an envelope can be appended.
    pub fn begin_append(&self, envelope: &PreparedEnvelope) -> (result: Result<AppendRun>)
        ensures
            match append_refusal(self@, envelope@) {
                None => result matches Ok(run) && run == (AppendRun {
                    index: 0,
                    phase: AppendPhase::Placing,
                }) && chunks_countable(envelope@),
                Some(refusal) => result matches Err(error) && error@ == refusal,
            },
    {
        if self.append_failed {
            return Err(writer_stopped(envelope.commit_seq, envelope.vlog_begin));
        }
        if self.pending_sync_id.is_some() {
            return Err(writer_busy(envelope.commit_seq, envelope.vlog_begin));
        }
        match self.last_appended {
            Some(previous) => {
                if envelope.commit_seq <= previous.commit_seq {
                    return Err(append_layout(envelope.vlog_begin));
                }
            },
            None => {},
        }
        self.validate_envelope_chunks(envelope)?;
        Ok(AppendRun { index: 0, phase: AppendPhase::Placing })
    }

    fn validate_envelope_chunks(&self, envelope: &PreparedEnvelope) -> (result: Result<()>)
        requires
            !self@.append_failed,
            self@.pending_sync_id is None,
            self@.last_appended is Some ==> envelope@.commit_seq > (
            self@.last_appended->0).commit_seq,
        ensures
            match append_refusal(self@, envelope@) {
                None => result is Ok && chunks_countable(envelope@),
                Some(refusal) => result matches Err(error) && error@ == refusal,
            },
    {
        if envelope.commit_seq == 0 || !is_nonzero_uuid(&envelope.tx_uuid) || envelope.vlog_begin
            != self.position() || !envelope.vlog_begin.before(envelope.vlog_end)
            || envelope.chunks.len() == 0 {
            return Err(append_layout(envelope.vlog_begin));
        }
        let geometry = self.log.geometry();
        let ghost chunks = envelope@.chunks;
        let mut expected = next_chunk_start(envelope.vlog_begin, geometry)?;
        let ghost first = expected;
        let count: usize = envelope.chunks.len();
        let mut index: usize = 0;
        while index < count
            invariant
                index <= count,
                count == envelope.chunks@.len(),
                chunks == chunk_views(envelope.chunks@),
                geometry == self@.geometry,
                misplaced(chunks, 0, first, envelope.vlog_end, geometry, self@.database_uuid)
                    == misplaced(
                    chunks,
                    index as int,
                    expected,
                    envelope.vlog_end,
                    geometry,
                    self@.database_uuid,
                ),
                next_position(envelope.vlog_begin, geometry) == Some(first),
                append_refusal(self@, envelope@) == (match misplaced(
                    chunks,
                    0,
                    first,
                    envelope.vlog_end,
                    geometry,
                    self@.database_uuid,
                ) {
                    Some(position) => Some(append_layout_view(position)),
                    None => None,
                }),
                forall|i: int|
                    0 <= i < index ==> 0 < (#[trigger] chunks[i]).bytes.len()
                        && chunks[i].position.offset + chunks[i].bytes.len() <= u64::MAX,
            decreases count - index,
        {
            let chunk = &envelope.chunks[index];
            proof {
                assert(chunks[index as int] == chunk@);
            }
            if chunk.position != expected || chunk.bytes.len() == 0
                || !self.is_structural_chunk(chunk) {
                return Err(append_layout(chunk.position));
            }
            expected = end_behind(chunk, geometry)?;
            if expected.offset == geometry.max_file_size && index + 1 < count {
                expected = next_chunk_start(expected, geometry)?;
            }
            index = index + 1;
        }
        if expected != envelope.vlog_end {
            return Err(append_layout(expected));
        }
        Ok(())
    }

    fn is_structural_chunk(&self, chunk: &PhysicalChunk) -> (structural: bool)
        ensures
            structural == is_structural(chunk@, self@.geometry, self@.database_uuid),
    {
        let geometry = self.log.geometry();
        let database_uuid = self.log.database_uuid();
        let position = chunk.position;
        let page_offset: u64 = position.offset % geometry.page_size;
        if page_offset == 0 {
            let page: u64 = position.offset / geometry.page_size;
            if page > MAX_PAGE_NO as u64 {
                return false;
            }
            let wanted = PageHeader { file_id: position.file_id, page_no: page as u32 };
            match PageHeader::decode(chunk.bytes.as_slice()) {
                Ok(header) => {
                    proof {
                        lemma_page_header_layout(header);
                        lemma_page_header_layout(wanted);
                    }
                    header.file_id == wanted.file_id && header.page_no == wanted.page_no
                },
                Err(_) => {
                    proof {
                        assert(wanted.valid() ==> chunk.bytes@ != wanted.encoded());
                    }
                    false
                },
            }
        } else if position.offset == PAGE_HEADER_ENCODED_LEN as u64 {
            let wanted = VLogFileHeader::new(database_uuid, position.file_id);
            proof {
                lemma_file_header_layout(wanted);
                assert(wanted.encoded() == new_file_header(database_uuid@, wanted.file_id));
                assert(position.file_id <= MAX_VLOG_FILE_ID ==> wanted.valid());
            }
            match VLogFileHeader::decode(chunk.bytes.as_slice()) {
                Ok(header) => {
                    proof {
                        lemma_file_header_layout(header);
                    }
                    header.file_id == position.file_id && same_uuid(
                        &header.database_uuid,
                        &database_uuid,
                    )
                },
                Err(_) => false,
            }
        } else {
            true
        }
    }

    fn fail(&mut self, envelope: &PreparedEnvelope, run: &mut AppendRun, error: StorageError) -> (action:
        AppendAction)
        ensures
            ({
                let step = failed(old(self)@, envelope@, *old(run), error@);
                final(self)@ == step.writer && *final(run) == step.run && action@ == step.action
            }),
    {
        proof {
            use_type_invariant(&*self);
        }
        let retryable = error.kind == StorageErrorKind::ResourceExhausted && self.position()
            == envelope.vlog_begin;
        if !retryable {
            self.append_failed = true;
        }
        run.phase = AppendPhase::Ended;
        AppendAction::Fail(error)
    }

    /// Writes the rest of the chunk that the append has come to.
    fn write_on(
        &self,
        run: &mut AppendRun,
        previous: Option<AppendState>,
        written: u64,
        count: RetryCount,
    ) -> (action: AppendAction)
        requires
            self@.position().offset + written <= u64::MAX,
        ensures
            forall|envelope: EnvelopeView|
                ({
                    let step = #[trigger] write_next(
                        self@,
                        envelope,
                        old(run).index,
                        previous,
                        written,
                        count,
                    );
                    self@ == step.writer && *final(run) == step.run && action@ == step.action
                }),
    {
        run.phase = AppendPhase::Writing { previous, written, count };
        AppendAction::Write { chunk: run.index, from: written, offset: self.position().offset + written }
    }

    /// Places the chunk that the append has come to.
    pub fn place(&mut self, envelope: &PreparedEnvelope, run: &mut AppendRun) -> (action: AppendAction)
        requires
            old(run).phase is Placing,
            in_step(old(self)@, envelope@, *old(run)),
            chunks_countable(envelope@),
        ensures
            ({
                let step = place_next(old(self)@, envelope@, *old(run));
                final(self)@ == step.writer && *final(run) == step.run && action@ == step.action
            }),
            in_step(final(self)@, envelope@, *final(run)),
    {
        proof {
            use_type_invariant(&*self);
        }
        if run.index >= envelope.chunks.len() {
            if self.position() != envelope.vlog_end {
                let error = append_layout(envelope.vlog_end);
                return self.fail(envelope, run, error);
            }
            self.last_appended = Some(
                AppendedTail { commit_seq: envelope.commit_seq, end: envelope.vlog_end },
            );
            run.phase = AppendPhase::Ended;
            return AppendAction::Done;
        }
        let ghost chunk = envelope@.chunks[run.index as int];
        let position = envelope.chunks[run.index].position;
        proof {
            assert(chunk.position == position);
        }
        match self.ensure_file_for_chunk(position) {
            Err(error) => self.fail(envelope, run, error),
            Ok(None) => self.write_on(run, None, 0, RetryCount::new()),
            Ok(Some(file_id)) => {
                run.phase = AppendPhase::Creating { file_id };
                AppendAction::CreateFile { file_id }
            },
        }
    }

    fn ensure_file_for_chunk(&self, position: VLogPosition) -> (result: Result<Option<u32>>)
        ensures
            match file_for_chunk(self@, position) {
                Ok(file_id) => result matches Ok(found) && found == file_id,
                Err(refusal) => result matches Err(error) && error@ == refusal,
            },
    {
        let file_id: u32 = match self.state {
            AppendState::Empty => 0,
            AppendState::Open { file_id, offset } => {
                if file_id == position.file_id && offset == position.offset {
                    return Ok(None);
                }
                return Err(append_layout(position));
            },
            AppendState::AtFileLimit { last_file_id } => match last_file_id.checked_add(1) {
                Some(next) => next,
                None => return Err(append_layout(position)),
            },
        };
        if file_id != position.file_id || position.offset != 0 || file_id
            > self.log.geometry().max_file_id {
            return Err(append_layout(position));
        }
        Ok(Some(file_id))
    }

    /// The file was created, and is empty.
    pub fn file_created(&mut self, envelope: &PreparedEnvelope, run: &mut AppendRun) -> (action:
        AppendAction)
        requires
            old(run).phase is Creating,
            in_step(old(self)@, envelope@, *old(run)),
            chunks_countable(envelope@),
        ensures
            ({
                let step = created(
                    old(self)@,
                    envelope@,
                    *old(run),
                    old(run).phase->Creating_file_id,
                );
                final(self)@ == step.writer && *final(run) == step.run && action@ == step.action
            }),
            in_step(final(self)@, envelope@, *final(run)),
    {
        match run.phase {
            AppendPhase::Creating { file_id } => {
                proof {
                    use_type_invariant(&*self);
                }
                let previous = self.state;
                let mut entries = FileMap::new();
                std::mem::swap(&mut entries, &mut self.pending_directory_entries);
                entries.insert(file_id, envelope.commit_seq);
                self.state = AppendState::Open { file_id, offset: 0 };
                self.pending_directory_entries = entries;
                self.write_on(run, Some(previous), 0, RetryCount::new())
            },
            _ => AppendAction::Done,
        }
    }

    /// The file could not be created.
    pub fn file_not_created(
        &mut self,
        envelope: &PreparedEnvelope,
        run: &mut AppendRun,
        failure: IoFailure,
    ) -> (action: AppendAction)
        requires
            old(run).phase is Creating,
        ensures
            ({
                let step = failed(
                    old(self)@,
                    envelope@,
                    *old(run),
                    append_io_view(
                        envelope@.commit_seq,
                        VLogPosition { file_id: old(run).phase->Creating_file_id, offset: 0 },
                        false,
                        failure,
                    ),
                );
                final(self)@ == step.writer && *final(run) == step.run && action@ == step.action
            }),
    {
        match run.phase {
            AppendPhase::Creating { file_id } => {
                let error = append_io(
                    envelope.commit_seq,
                    VLogPosition { file_id, offset: 0 },
                    false,
                    failure,
                );
                self.fail(envelope, run, error)
            },
            _ => AppendAction::Done,
        }
    }

    fn advance(&mut self, written: u64)
        requires
            old(self)@.state is Open,
            old(self)@.position().offset + written <= u64::MAX,
        ensures
            final(self)@ == advanced(old(self)@, written),
    {
        if written > 0 {
            proof {
                use_type_invariant(&*self);
            }
            let position = self.position();
            let mut files = FileMap::new();
            std::mem::swap(&mut files, &mut self.dirty_files);
            files.insert(position.file_id, ());
            self.dirty_files = files;
            self.state = AppendState::Open {
                file_id: position.file_id,
                offset: position.offset + written,
            };
            proof {
                assert(self.dirty_files@.dom() =~= old(self).dirty_files@.dom().insert(
                    position.file_id,
                ));
            }
        }
    }

    fn give_up_write(
        &mut self,
        envelope: &PreparedEnvelope,
        run: &mut AppendRun,
        previous: Option<AppendState>,
        written: u64,
        failure: IoFailure,
    ) -> (action: AppendAction)
        requires
            old(self)@.state is Open,
            old(self)@.position().offset + written <= u64::MAX,
            previous is Some && written == 0 ==> old(self)@.position().offset == 0,
            previous matches Some(previous) ==> can_go_back(old(self)@, previous),
        ensures
            ({
                let step = write_given_up(
                    old(self)@,
                    envelope@,
                    *old(run),
                    previous,
                    written,
                    failure,
                );
                final(self)@ == step.writer && *final(run) == step.run && action@ == step.action
            }),
            in_step(final(self)@, envelope@, *final(run)),
    {
        self.advance(written);
        let position = self.position();
        match previous {
            Some(state) => {
                let progress = if written == 0 {
                    position_of(state, self.log.geometry()) != envelope.vlog_begin
                } else {
                    position != envelope.vlog_begin
                };
                if written == 0 && failure.is_transient() {
                    run.phase = AppendPhase::Removing {
                        file_id: position.file_id,
                        previous: state,
                        progress,
                        failure,
                    };
                    return AppendAction::RemoveIfEmpty { file_id: position.file_id };
                }
                let error = append_io(envelope.commit_seq, position, progress, failure);
                self.fail(envelope, run, error)
            },
            None => {
                let progress = position != envelope.vlog_begin;
                let error = append_io(envelope.commit_seq, position, progress, failure);
                self.fail(envelope, run, error)
            },
        }
    }

    /// A write put so many bytes into the file.
    pub fn bytes_written(&mut self, envelope: &PreparedEnvelope, run: &mut AppendRun, count: u64) -> (action:
        AppendAction)
        requires
            old(run).phase is Writing,
            in_step(old(self)@, envelope@, *old(run)),
            created_at_start(old(self)@, *old(run)),
            chunks_countable(envelope@),
        ensures
            ({
                let step = wrote(old(self)@, envelope@, *old(run), count);
                final(self)@ == step.writer && *final(run) == step.run && action@ == step.action
            }),
            in_step(final(self)@, envelope@, *final(run)),
            created_at_start(final(self)@, *final(run)),
    {
        let ghost chunk = envelope@.chunks[run.index as int];
        let (previous, written) = match run.phase {
            AppendPhase::Writing { previous, written, .. } => (previous, written),
            _ => return AppendAction::Done,
        };
        let length: u64 = envelope.chunks[run.index].bytes.len() as u64;
        proof {
            assert(chunk == envelope.chunks@[run.index as int]@);
            assert(length == chunk.bytes.len());
        }
        let left: u64 = length - written;
        if count == 0 || count > left {
            return self.give_up_write(envelope, run, previous, written, unreported_failure());
        }
        if count < left {
            return self.write_on(run, previous, written + count, RetryCount::new());
        }
        self.advance(written + count);
        let position = self.position();
        if position.offset >= FIRST_PAGE_RECORD_AREA_START {
            run.phase = AppendPhase::Inspecting { file_id: position.file_id };
            return AppendAction::Inspect { file_id: position.file_id };
        }
        self.settle_chunk(envelope, run)
    }

    fn settle_chunk(&mut self, envelope: &PreparedEnvelope, run: &mut AppendRun) -> (action: AppendAction)
        requires
            old(self)@.state is Open,
            old(run).index < envelope@.chunks.len(),
            chunks_countable(envelope@),
        ensures
            ({
                let step = chunk_settled(old(self)@, envelope@, *old(run));
                final(self)@ == step.writer && *final(run) == step.run && action@ == step.action
            }),
            in_step(final(self)@, envelope@, *final(run)),
            created_at_start(final(self)@, *final(run)),
    {
        proof {
            use_type_invariant(&*self);
        }
        let position = self.position();
        if position.offset == self.log.geometry().max_file_size {
            self.state = AppendState::AtFileLimit { last_file_id: position.file_id };
        }
        let count: usize = envelope.chunks.len();
        proof {
            assert(run.index < count);
        }
        run.index = run.index + 1;
        run.phase = AppendPhase::Placing;
        self.place(envelope, run)
    }

    /// A write failed.
    pub fn bytes_not_written(
        &mut self,
        envelope: &PreparedEnvelope,
        run: &mut AppendRun,
        failure: IoFailure,
    ) -> (action: AppendAction)
        requires
            old(run).phase is Writing,
            in_step(old(self)@, envelope@, *old(run)),
            created_at_start(old(self)@, *old(run)),
            chunks_countable(envelope@),
        ensures
            ({
                let step = write_failed(old(self)@, envelope@, *old(run), failure);
                final(self)@ == step.writer && *final(run) == step.run && action@ == step.action
            }),
            in_step(final(self)@, envelope@, *final(run)),
            created_at_start(final(self)@, *final(run)),
    {
        let ghost chunk = envelope@.chunks[run.index as int];
        let (previous, written, mut count) = match run.phase {
            AppendPhase::Writing { previous, written, count } => (previous, written, count),
            _ => return AppendAction::Done,
        };
        proof {
            assert(chunk == envelope.chunks@[run.index as int]@);
        }
        if count.retry(&failure) {
            self.write_on(run, previous, written, count)
        } else {
            self.give_up_write(envelope, run, previous, written, failure)
        }
    }

    /// The empty file was removed.
    pub fn file_removed(&mut self, envelope: &PreparedEnvelope, run: &mut AppendRun) -> (action:
        AppendAction)
        requires
            old(run).phase is Removing,
            in_step(old(self)@, envelope@, *old(run)),
        ensures
            ({
                let step = removed(old(self)@, envelope@, *old(run));
                final(self)@ == step.writer && *final(run) == step.run && action@ == step.action
            }),
    {
        match run.phase {
            AppendPhase::Removing { file_id, previous, progress, failure } => {
                proof {
                    use_type_invariant(&*self);
                }
                let mut entries = FileMap::new();
                std::mem::swap(&mut entries, &mut self.pending_directory_entries);
                let mut files = FileMap::new();
                std::mem::swap(&mut files, &mut self.dirty_files);
                entries.remove(file_id);
                files.remove(file_id);
                proof {
                    let known = old(self)@.forgetting(file_id);
                    let count = files_in(previous);
                    assert(known.knows_first(count));
                    assert forall|other: u32| #[trigger] entries@.dom().contains(other) implies other
                        < count by {
                        assert(known.pending_directory_entries.dom().contains(other));
                    }
                    assert forall|other: u32| #[trigger] files@.dom().contains(other) implies other
                        < count by {
                        assert(known.dirty_files.contains(other));
                    }
                }
                self.state = previous;
                self.pending_directory_entries = entries;
                self.dirty_files = files;
                proof {
                    assert(self.dirty_files@.dom() =~= old(self).dirty_files@.dom().remove(
                        file_id,
                    ));
                }
                let error = append_io(
                    envelope.commit_seq,
                    VLogPosition { file_id, offset: 0 },
                    progress,
                    failure,
                );
                self.fail(envelope, run, error)
            },
            _ => AppendAction::Done,
        }
    }

    /// The file could not be removed, or was found not to be empty (`failure` is `None`).
    pub fn file_not_removed(
        &mut self,
        envelope: &PreparedEnvelope,
        run: &mut AppendRun,
        failure: Option<IoFailure>,
    ) -> (action: AppendAction)
        requires
            old(run).phase is Removing,
        ensures
            ({
                let step = failed(
                    old(self)@,
                    envelope@,
                    *old(run),
                    append_io_view(
                        envelope@.commit_seq,
                        VLogPosition { file_id: old(run).phase->Removing_file_id, offset: 0 },
                        true,
                        match failure {
                            Some(failure) => failure,
                            None => unreported(),
                        },
                    ),
                );
                final(self)@ == step.writer && *final(run) == step.run && action@ == step.action
            }),
    {
        match run.phase {
            AppendPhase::Removing { file_id, .. } => {
                let failure = match failure {
                    Some(failure) => failure,
                    None => unreported_failure(),
                };
                let error = append_io(
                    envelope.commit_seq,
                    VLogPosition { file_id, offset: 0 },
                    true,
                    failure,
                );
                self.fail(envelope, run, error)
            },
            _ => AppendAction::Done,
        }
    }

    /// The file that was written to was inspected: it becomes known.
    pub fn file_inspected(
        &mut self,
        catalog: &mut FileCatalog,
        envelope: &PreparedEnvelope,
        run: &mut AppendRun,
        facts: FileFacts,
    ) -> (action: AppendAction)
        requires
            old(run).phase is Inspecting,
            in_step(old(self)@, envelope@, *old(run)),
            chunks_countable(envelope@),
        ensures
            ({
                let file_id = old(run).phase->Inspecting_file_id;
                let known = FileCatalog::accepts(old(catalog)@, file_id, facts);
                let step = if known {
                    chunk_settled(old(self)@, envelope@, *old(run))
                } else {
                    failed(
                        old(self)@,
                        envelope@,
                        *old(run),
                        seen_by_append(
                            read_corruption_view(file_id, None),
                            envelope@.commit_seq,
                            old(self)@.position(),
                        ),
                    )
                };
                &&& final(catalog)@ == (if known {
                    old(catalog)@.insert(file_id, facts.identity)
                } else {
                    old(catalog)@
                })
                &&& final(self)@ == step.writer && *final(run) == step.run && action@ == step.action
            }),
            in_step(final(self)@, envelope@, *final(run)),
            created_at_start(final(self)@, *final(run)),
    {
        match run.phase {
            AppendPhase::Inspecting { file_id } => match catalog.register(file_id, facts) {
                Ok(_) => self.settle_chunk(envelope, run),
                Err(error) => {
                    let seen = append_context(error, envelope.commit_seq, self.position());
                    self.fail(envelope, run, seen)
                },
            },
            _ => AppendAction::Done,
        }
    }

    /// The file that was written to could not be inspected.
    pub fn file_not_inspected(
        &mut self,
        envelope: &PreparedEnvelope,
        run: &mut AppendRun,
        failure: IoFailure,
    ) -> (action: AppendAction)
        requires
            old(run).phase is Inspecting,
        ensures
            ({
                let step = failed(
                    old(self)@,
                    envelope@,
                    *old(run),
                    seen_by_append(
                        read_io_view(old(run).phase->Inspecting_file_id, None, failure),
                        envelope@.commit_seq,
                        old(self)@.position(),
                    ),
                );
                final(self)@ == step.writer && *final(run) == step.run && action@ == step.action
            }),
    {
        match run.phase {
            AppendPhase::Inspecting { file_id } => {
                let error = read_io(file_id, None, failure);
                let seen = append_context(error, envelope.commit_seq, self.position());
                self.fail(envelope, run, seen)
            },
            _ => AppendAction::Done,
        }
    }
}

/// A file that was created for the chunk that is being written has no byte yet.
pub open spec fn created_at_start(writer: WriterView, run: AppendRun) -> bool {
    run.phase matches AppendPhase::Writing { previous: Some(_), .. } ==> writer.position().offset
        == 0
}

fn unreported_failure() -> (failure: IoFailure)
    ensures
        failure == unreported(),
{
    IoFailure { cause: IoCause::Other, os_code: None }
}

pub(in crate::vlog) fn position_of(state: AppendState, geometry: VLogGeometry) -> (position: VLogPosition)
    ensures
        position == state_position(state, geometry),
{
    match state {
        AppendState::Empty => VLogPosition { file_id: 0, offset: 0 },
        AppendState::Open { file_id, offset } => VLogPosition { file_id, offset },
        AppendState::AtFileLimit { last_file_id } => VLogPosition {
            file_id: last_file_id,
            offset: geometry.max_file_size,
        },
    }
}

/// Where a chunk goes that follows a position.
pub fn next_chunk_start(position: VLogPosition, geometry: VLogGeometry) -> (result: Result<VLogPosition>)
    ensures
        match next_position(position, geometry) {
            Some(next) => result matches Ok(found) && found == next,
            None => result matches Err(error) && error@ == append_layout_view(position),
        },
{
    if position.offset < geometry.max_file_size {
        return Ok(position);
    }
    if position.offset != geometry.max_file_size || position.file_id >= geometry.max_file_id {
        return Err(append_layout(position));
    }
    Ok(VLogPosition { file_id: position.file_id + 1, offset: 0 })
}

fn end_behind(chunk: &PhysicalChunk, geometry: VLogGeometry) -> (result: Result<VLogPosition>)
    ensures
        ({
            let end = chunk.position.offset + chunk.bytes@.len();
            if chunk.position.file_id > geometry.max_file_id || end > geometry.max_file_size {
                result matches Err(error) && error@ == append_layout_view(chunk.position)
            } else {
                result matches Ok(behind) && behind == (VLogPosition {
                    file_id: chunk.position.file_id,
                    offset: end as u64,
                })
            }
        }),
{
    let offset: u64 = match chunk.position.offset.checked_add(chunk.bytes.len() as u64) {
        Some(offset) => offset,
        None => return Err(append_layout(chunk.position)),
    };
    if chunk.position.file_id > geometry.max_file_id || offset > geometry.max_file_size {
        return Err(append_layout(chunk.position));
    }
    Ok(VLogPosition { file_id: chunk.position.file_id, offset })
}

} // verus!
