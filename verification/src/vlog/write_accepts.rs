//! What is prepared for the log can be appended to it, and a stopped writer stays stopped.

use vstd::prelude::*;

use crate::error::{ErrorView, StorageErrorKind};
use crate::io_failure::IoFailure;
use crate::vlog::decode::lemma_record_front;
use crate::vlog::envelope::{envelope, EnvelopeView, TransactionView};
use crate::vlog::geometry::{
    end_of_chunk, lemma_first_page, lemma_page_end, lemma_page_number, next_position,
    ChunkView,
};
use crate::vlog::header::{lemma_page_header_layout, PageHeader, PAGE_HEADER_ENCODED_LEN};
use crate::vlog::layout::can_go_on;
use crate::vlog::record::RecordView;
use crate::vlog::round_trip::law_prepared_envelope_scans_back;
use crate::vlog::scan::{
    end_of_chunks, is_record, lemma_file_header_length, scan_chunks, ScanView,
};
use crate::vlog::writer::{
    append_refusal, created, failed, goes_on_in, is_structural, misplaced, removed, AppendPhase,
    AppendRun, WriterView,
};
use crate::vlog::writer_error::writer_stopped_view;

verus! {

/// The chunks that a scan passes are placed and formed as an append wants them.
pub proof fn lemma_scanned_chunk(scan: ScanView, chunks: Seq<ChunkView>, i: int)
    requires
        scan.geometry.valid(),
        can_go_on(scan.geometry, scan.vlog_begin),
        0 <= i < chunks.len(),
        scan.database_uuid.len() == 16,
        scan_chunks(scan, chunks, chunks.len() as int) is Ok,
    ensures
        ({
            let chunk = chunks[i];
            &&& next_position(end_of_chunks(scan, chunks, i), scan.geometry) == Some(
                chunk.position,
            )
            &&& chunk.bytes.len() > 0
            &&& is_structural(chunk, scan.geometry, scan.database_uuid)
            &&& chunk.position.file_id <= scan.geometry.max_file_id
            &&& chunk.position.offset + chunk.bytes.len() <= scan.geometry.max_file_size
            &&& end_of_chunks(scan, chunks, i + 1) == end_of_chunk(chunk)
        }),
    decreases i,
{
    let geometry = scan.geometry;
    let chunk = chunks[i];
    let at = chunk.position;
    lemma_scan_prefix_ok(scan, chunks, i + 1, chunks.len() as int);
    if i > 0 {
        lemma_scanned_chunk(scan, chunks, i - 1);
    }
    lemma_first_page(geometry, at.offset as int);
    lemma_page_end(geometry, at.offset as int);
    lemma_page_number(geometry, at.offset as int);
    if at.offset % geometry.page_size == 0 {
        lemma_page_header_layout(
            PageHeader {
                file_id: at.file_id,
                page_no: (at.offset / geometry.page_size) as u32,
            },
        );
    } else if at.offset == PAGE_HEADER_ENCODED_LEN {
        lemma_file_header_length(scan.database_uuid, at.file_id);
    } else {
        let record = choose|record: RecordView| is_record(chunk, record, geometry);
        lemma_record_front(record);
    }
}

/// A scan that passes some chunks passed the earlier ones.
proof fn lemma_scan_prefix_ok(scan: ScanView, chunks: Seq<ChunkView>, i: int, n: int)
    requires
        0 <= i <= n <= chunks.len(),
        scan_chunks(scan, chunks, n) is Ok,
    ensures
        scan_chunks(scan, chunks, i) is Ok,
    decreases n - i,
{
    if i < n {
        lemma_scan_prefix_ok(scan, chunks, i, n - 1);
    }
}

proof fn lemma_not_misplaced(scan: ScanView, chunks: Seq<ChunkView>, i: int)
    requires
        scan.geometry.valid(),
        can_go_on(scan.geometry, scan.vlog_begin),
        0 <= i < chunks.len(),
        scan.database_uuid.len() == 16,
        scan_chunks(scan, chunks, chunks.len() as int) is Ok,
        end_of_chunks(scan, chunks, chunks.len() as int) == scan.vlog_end,
    ensures
        misplaced(
            chunks,
            i,
            chunks[i].position,
            scan.vlog_end,
            scan.geometry,
            scan.database_uuid,
        ) is None,
    decreases chunks.len() - i,
{
    reveal_with_fuel(misplaced, 2);
    lemma_scanned_chunk(scan, chunks, i);
    if i + 1 < chunks.len() {
        lemma_scanned_chunk(scan, chunks, i + 1);
        lemma_not_misplaced(scan, chunks, i + 1);
    }
}

/// An envelope that was prepared behind the end of the log is accepted by its writer, as long
/// as the writer has not stopped, waits for no synchronization, and has appended only earlier
/// commits.
pub proof fn law_prepared_envelope_can_be_appended(
    writer: WriterView,
    transaction: TransactionView,
)
    requires
        writer.geometry.valid(),
        can_go_on(writer.geometry, writer.position()),
        envelope(writer.geometry, writer.position(), transaction) is Ok,
        writer.database_uuid == transaction.database_uuid,
        !writer.append_failed,
        writer.pending_sync_id is None,
        writer.last_appended matches Some(previous) ==> previous.commit_seq
            < transaction.commit_seq,
    ensures
        append_refusal(
            writer,
            envelope(writer.geometry, writer.position(), transaction)->Ok_0,
        ) is None,
{
    let written = envelope(writer.geometry, writer.position(), transaction)->Ok_0;
    let scan = ScanView {
        geometry: writer.geometry,
        database_uuid: transaction.database_uuid,
        vlog_begin: writer.position(),
        vlog_end: written.vlog_end,
        expected_checksum: None,
    };
    law_prepared_envelope_scans_back(writer.geometry, writer.position(), transaction, None);
    let chunks = written.chunks;
    assert(chunks.len() > 0);
    lemma_scanned_chunk(scan, chunks, 0);
    lemma_not_misplaced(scan, chunks, 0);
}

/// A writer that has stopped refuses every envelope.
pub proof fn law_stopped_writer_refuses(writer: WriterView, envelope: EnvelopeView)
    requires
        writer.append_failed,
    ensures
        append_refusal(writer, envelope) == Some(
            writer_stopped_view(envelope.commit_seq, envelope.vlog_begin),
        ),
{
}

/// A failed append leaves the writer usable only where nothing of the envelope is in the log
/// and the failure may pass; then the same envelope can be appended again.
pub proof fn law_failed_append_is_repeatable_or_final(
    writer: WriterView,
    written: EnvelopeView,
    run: AppendRun,
    error: ErrorView,
)
    requires
        !writer.append_failed,
    ensures
        ({
            let after = failed(writer, written, run, error).writer;
            ||| after.append_failed
            ||| after == writer && writer.position() == written.vlog_begin && error.kind
                == StorageErrorKind::ResourceExhausted
        }),
{
}

/// A file that was created for an append and removed again leaves no trace: the writer is as it
/// was, but that it may have stopped.
pub proof fn law_removed_file_leaves_no_trace(
    writer: WriterView,
    written: EnvelopeView,
    run: AppendRun,
    file_id: u32,
    progress: bool,
    failure: IoFailure,
)
    requires
        writer.ordered(),
        goes_on_in(writer.state, file_id),
    ensures
        ({
            let with_file = created(writer, written, run, file_id);
            let removing = AppendRun {
                index: run.index,
                phase: AppendPhase::Removing { file_id, previous: writer.state, progress, failure },
            };
            let after = removed(with_file.writer, written, removing).writer;
            &&& with_file.writer.ordered()
            &&& after == (WriterView { append_failed: after.append_failed, ..writer })
        }),
{
    let with_file = created(writer, written, run, file_id).writer;
    assert(with_file.pending_directory_entries.remove(file_id)
        =~= writer.pending_directory_entries);
    assert(with_file.dirty_files.remove(file_id) =~= writer.dirty_files);
}

} // verus!
