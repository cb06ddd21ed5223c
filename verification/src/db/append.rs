//! An append from its beginning to its end: what it leaves in the log.

use vstd::prelude::*;

use crate::db::contents::{file_of, with_chunks, written_over};
use crate::io_failure::{IoCause, IoFailure, RetryCount};
use crate::error::{
    Operation, ProtocolStage, RetryAdvice, StorageErrorKind, WriteOutcome,
};
use crate::vlog::envelope::EnvelopeView;
use crate::vlog::geometry::{end_of_chunk, next_position, position_before, VLogPosition};
use crate::vlog::layout::can_go_on;
use crate::vlog::writer::{
    append_refusal, chunk_settled, created, file_for_chunk, misplaced, place_next, write_failed,
    wrote, ActionView, AppendPhase, AppendRun, AppendState, AppendedTail, StepView,
    WriterView,
};
use crate::vlog::writer_error::append_io_view;
use crate::vlog::writer_sync::{entries_through, files_through, sync_refusal};

verus! {

/// An append on its way, and the files of the log.
pub struct AppendScene {
    pub step: StepView,
    pub log: Map<u32, Seq<u8>>,
}

/// The scene after what was due went well: a file was created, the rest of a chunk was written
/// to the file that is open, or a file was found to be the known one.
pub open spec fn went_well(envelope: EnvelopeView, scene: AppendScene) -> AppendScene {
    let step = scene.step;
    match step.action {
        ActionView::CreateFile { file_id } => AppendScene {
            step: created(step.writer, envelope, step.run, file_id),
            ..scene
        },
        ActionView::Write { chunk, from, offset } => {
            let file_id = step.writer.position().file_id;
            let rest = envelope.chunks[chunk].bytes.skip(from as int);
            AppendScene {
                step: wrote(step.writer, envelope, step.run, rest.len() as u64),
                log: scene.log.insert(
                    file_id,
                    written_over(file_of(scene.log, file_id), offset as int, rest),
                ),
            }
        },
        ActionView::Inspect { .. } => AppendScene {
            step: chunk_settled(step.writer, envelope, step.run),
            ..scene
        },
        _ => scene,
    }
}

/// The scene after so many actions that went well.
pub open spec fn all_went_well(envelope: EnvelopeView, scene: AppendScene, steps: nat) -> AppendScene
    decreases steps,
{
    if steps == 0 {
        scene
    } else {
        all_went_well(envelope, went_well(envelope, scene), (steps - 1) as nat)
    }
}

proof fn lemma_steps_compose(envelope: EnvelopeView, scene: AppendScene, first: nat, second: nat)
    ensures
        all_went_well(envelope, scene, first + second) == all_went_well(
            envelope,
            all_went_well(envelope, scene, first),
            second,
        ),
    decreases first,
{
    if first > 0 {
        lemma_steps_compose(envelope, went_well(envelope, scene), (first - 1) as nat, second);
        assert((first + second - 1) as nat == (first - 1) as nat + second);
    }
}

/// The append before a chunk is placed.
spec fn before_chunk(writer: WriterView, envelope: EnvelopeView, index: int) -> StepView {
    place_next(
        writer,
        envelope,
        AppendRun { index: index as usize, phase: AppendPhase::Placing },
    )
}

/// One chunk goes where it belongs, and the append comes to the next one.
proof fn lemma_chunk_appended(
    writer: WriterView,
    envelope: EnvelopeView,
    log: Map<u32, Seq<u8>>,
    index: int,
) -> (steps: nat)
    requires
        0 <= index < envelope.chunks.len(),
        envelope.chunks.len() <= usize::MAX,
        envelope.chunks[index].bytes.len() > 0,
        envelope.chunks[index].position.offset + envelope.chunks[index].bytes.len()
            <= writer.geometry.max_file_size,
        file_for_chunk(writer, envelope.chunks[index].position) is Ok,
    ensures
        ({
            let chunk = envelope.chunks[index];
            let at = chunk.position;
            let after = all_went_well(
                envelope,
                AppendScene { step: before_chunk(writer, envelope, index), log },
                steps,
            );
            exists|behind: WriterView|
                {
                    &&& after.step == #[trigger] before_chunk(behind, envelope, index + 1)
                    &&& behind.position() == end_of_chunk(chunk)
                    &&& behind.state == (if end_of_chunk(chunk).offset
                        == writer.geometry.max_file_size {
                        AppendState::AtFileLimit { last_file_id: at.file_id }
                    } else {
                        AppendState::Open { file_id: at.file_id, offset: end_of_chunk(chunk).offset }
                    })
                    &&& behind.dirty_files == writer.dirty_files.insert(at.file_id)
                    &&& behind.append_failed == writer.append_failed
                    &&& behind.geometry == writer.geometry
                    &&& behind.database_uuid == writer.database_uuid
                    &&& behind.pending_sync_id == writer.pending_sync_id
                    &&& behind.next_sync_id == writer.next_sync_id
                    &&& behind.last_appended == writer.last_appended
                    &&& forall|file_id: u32| #[trigger]
                        behind.pending_directory_entries.dom().contains(file_id)
                            <==> writer.pending_directory_entries.dom().contains(file_id) || (
                        file_id == at.file_id && !(writer.state is Open))
                    &&& forall|file_id: u32| #[trigger]
                        behind.pending_directory_entries.dom().contains(file_id)
                            ==> behind.pending_directory_entries[file_id] == (
                        if file_id == at.file_id && !(writer.state is Open) {
                            envelope.commit_seq
                        } else {
                            writer.pending_directory_entries[file_id]
                        })
                }
        }),
        all_went_well(
            envelope,
            AppendScene { step: before_chunk(writer, envelope, index), log },
            steps,
        ).log == log.insert(
            envelope.chunks[index].position.file_id,
            written_over(
                file_of(log, envelope.chunks[index].position.file_id),
                envelope.chunks[index].position.offset as int,
                envelope.chunks[index].bytes,
            ),
        ),
{
    reveal_with_fuel(all_went_well, 4);
    let chunk = envelope.chunks[index];
    let start = AppendScene { step: before_chunk(writer, envelope, index), log };
    assert(chunk.bytes.skip(0) =~= chunk.bytes);
    let fresh = !(writer.state is Open);
    let placed = if fresh {
        went_well(envelope, start)
    } else {
        start
    };
    assert(placed.step.action == (ActionView::Write {
        chunk: index,
        from: 0,
        offset: chunk.position.offset,
    }));
    assert(placed.step.writer.position() == chunk.position);
    let full = went_well(envelope, placed);
    let inspected = chunk.position.offset + chunk.bytes.len() >= 64;
    let settled = if inspected {
        went_well(envelope, full)
    } else {
        full
    };
    let open = AppendState::Open {
        file_id: chunk.position.file_id,
        offset: end_of_chunk(chunk).offset,
    };
    let limit = end_of_chunk(chunk).offset == writer.geometry.max_file_size;
    let behind = WriterView {
        state: if limit {
            AppendState::AtFileLimit { last_file_id: chunk.position.file_id }
        } else {
            open
        },
        dirty_files: writer.dirty_files.insert(chunk.position.file_id),
        ..placed.step.writer
    };
    assert(settled.step == before_chunk(behind, envelope, index + 1));
    let steps: nat = if fresh && inspected {
        3
    } else if fresh || inspected {
        2
    } else {
        1
    };
    assert(all_went_well(envelope, start, steps) == settled);
    steps
}

/// The rest of an append: from a chunk that can be placed to the end.
proof fn lemma_append_goes_through(
    writer: WriterView,
    envelope: EnvelopeView,
    log: Map<u32, Seq<u8>>,
    index: int,
) -> (steps: nat)
    requires
        0 <= index < envelope.chunks.len(),
        envelope.chunks.len() <= usize::MAX,
        next_position(writer.position(), writer.geometry) == Some(envelope.chunks[index].position),
        writer.state is Empty ==> writer.position() == (VLogPosition { file_id: 0, offset: 0 }),
        writer.state is Open ==> writer.position().offset < writer.geometry.max_file_size,
        misplaced(
            envelope.chunks,
            index,
            envelope.chunks[index].position,
            envelope.vlog_end,
            writer.geometry,
            writer.database_uuid,
        ) is None,
    ensures
        ({
            let after = all_went_well(
                envelope,
                AppendScene { step: before_chunk(writer, envelope, index), log },
                steps,
            );
            let last = after.step.writer;
            &&& after.step.action is Done
            &&& after.log == with_chunks_from(log, envelope, index)
            &&& last.position() == envelope.vlog_end
            &&& last.last_appended == Some(
                AppendedTail { commit_seq: envelope.commit_seq, end: envelope.vlog_end },
            )
            &&& last.append_failed == writer.append_failed
            &&& last.pending_sync_id == writer.pending_sync_id
            &&& last.geometry == writer.geometry
            &&& last.database_uuid == writer.database_uuid
            &&& !(last.state is Empty)
            &&& forall|file_id: u32| #[trigger]
                last.dirty_files.contains(file_id) <==> writer.dirty_files.contains(file_id) || (
                exists|k: int|
                    index <= k < envelope.chunks.len() && (
                    #[trigger] envelope.chunks[k]).position.file_id == file_id)
            &&& forall|file_id: u32| #[trigger]
                last.pending_directory_entries.dom().contains(file_id)
                    ==> last.pending_directory_entries[file_id] == envelope.commit_seq || (
                writer.pending_directory_entries.dom().contains(file_id)
                    && last.pending_directory_entries[file_id]
                    == writer.pending_directory_entries[file_id])
            &&& forall|file_id: u32| #[trigger]
                writer.pending_directory_entries.dom().contains(file_id)
                    ==> last.pending_directory_entries.dom().contains(file_id)
            &&& !(writer.state is Open) ==> last.pending_directory_entries.dom().contains(
                envelope.chunks[index].position.file_id,
            )
        }),
    decreases envelope.chunks.len() - index,
{
    reveal_with_fuel(misplaced, 2);
    reveal_with_fuel(with_chunks_from, 2);
    let chunk = envelope.chunks[index];
    let first = lemma_chunk_appended(writer, envelope, log, index);
    let start = AppendScene { step: before_chunk(writer, envelope, index), log };
    let middle = all_went_well(envelope, start, first);
    let behind = choose|behind: WriterView|
        {
            &&& middle.step == #[trigger] before_chunk(behind, envelope, index + 1)
            &&& behind.position() == end_of_chunk(chunk)
            &&& behind.state == (if end_of_chunk(chunk).offset == writer.geometry.max_file_size {
                AppendState::AtFileLimit { last_file_id: chunk.position.file_id }
            } else {
                AppendState::Open {
                    file_id: chunk.position.file_id,
                    offset: end_of_chunk(chunk).offset,
                }
            })
            &&& behind.dirty_files == writer.dirty_files.insert(chunk.position.file_id)
            &&& behind.append_failed == writer.append_failed
            &&& behind.geometry == writer.geometry
            &&& behind.database_uuid == writer.database_uuid
            &&& behind.pending_sync_id == writer.pending_sync_id
            &&& behind.next_sync_id == writer.next_sync_id
            &&& behind.last_appended == writer.last_appended
            &&& forall|file_id: u32| #[trigger]
                behind.pending_directory_entries.dom().contains(file_id)
                    <==> writer.pending_directory_entries.dom().contains(file_id) || (file_id
                    == chunk.position.file_id && !(writer.state is Open))
            &&& forall|file_id: u32| #[trigger]
                behind.pending_directory_entries.dom().contains(file_id)
                    ==> behind.pending_directory_entries[file_id] == (if file_id
                    == chunk.position.file_id && !(writer.state is Open) {
                    envelope.commit_seq
                } else {
                    writer.pending_directory_entries[file_id]
                })
        };
    let steps: nat = if index + 1 < envelope.chunks.len() {
        let second = lemma_append_goes_through(behind, envelope, middle.log, index + 1);
        lemma_steps_compose(envelope, start, first, second);
        first + second
    } else {
        first
    };
    let last = all_went_well(envelope, start, steps).step.writer;
    assert forall|file_id: u32| #[trigger]
        last.dirty_files.contains(file_id) <==> writer.dirty_files.contains(file_id) || (exists|
            k: int,
        |
            index <= k < envelope.chunks.len() && (#[trigger] envelope.chunks[k]).position.file_id
                == file_id) by {
        if exists|k: int|
            index <= k < envelope.chunks.len() && (#[trigger] envelope.chunks[k]).position.file_id
                == file_id {
            let k = choose|k: int|
                index <= k < envelope.chunks.len() && (
                #[trigger] envelope.chunks[k]).position.file_id == file_id;
            if k > index {
                assert(envelope.chunks[k].position.file_id == file_id);
            }
        }
        if file_id == chunk.position.file_id {
            assert(envelope.chunks[index].position.file_id == file_id);
        }
    }
    assert forall|file_id: u32| #[trigger]
        writer.pending_directory_entries.dom().contains(
            file_id,
        ) implies last.pending_directory_entries.dom().contains(file_id) by {
        assert(behind.pending_directory_entries.dom().contains(file_id));
    }
    if !(writer.state is Open) {
        assert(behind.pending_directory_entries.dom().contains(chunk.position.file_id));
    }
    steps
}

/// A log after the chunks from one on were written where they belong.
spec fn with_chunks_from(log: Map<u32, Seq<u8>>, envelope: EnvelopeView, index: int) -> Map<
    u32,
    Seq<u8>,
>
    decreases envelope.chunks.len() - index,
{
    if index >= envelope.chunks.len() {
        log
    } else {
        let at = envelope.chunks[index].position;
        with_chunks_from(
            log.insert(
                at.file_id,
                written_over(
                    file_of(log, at.file_id),
                    at.offset as int,
                    envelope.chunks[index].bytes,
                ),
            ),
            envelope,
            index + 1,
        )
    }
}

proof fn lemma_chunks_from(log: Map<u32, Seq<u8>>, envelope: EnvelopeView, index: int)
    requires
        0 <= index <= envelope.chunks.len(),
    ensures
        with_chunks_from(with_chunks(log, envelope.chunks.take(index)), envelope, index)
            == with_chunks(log, envelope.chunks),
    decreases envelope.chunks.len() - index,
{
    if index < envelope.chunks.len() {
        let now = envelope.chunks.take(index + 1);
        assert(now.drop_last() =~= envelope.chunks.take(index));
        assert(now.last() == envelope.chunks[index]);
        lemma_chunks_from(log, envelope, index + 1);
    } else {
        assert(envelope.chunks.take(index) =~= envelope.chunks);
    }
}

/// An envelope that a writer accepts, and whose writing goes well, is in the log as it was
/// prepared, every byte of it where it belongs and no other byte touched. The writer then stands
/// where the envelope ends, knows it as the last one, and remembers every file that it wrote to
/// and every file that it made as not yet on the disk.
pub proof fn law_append_writes_the_envelope(
    writer: WriterView,
    envelope: EnvelopeView,
    log: Map<u32, Seq<u8>>,
) -> (steps: nat)
    requires
        append_refusal(writer, envelope) is None,
        envelope.chunks.len() <= usize::MAX,
        writer.state is Open ==> writer.position().offset < writer.geometry.max_file_size,
    ensures
        ({
            let start = place_next(
                writer,
                envelope,
                AppendRun { index: 0, phase: AppendPhase::Placing },
            );
            let after = all_went_well(envelope, AppendScene { step: start, log }, steps);
            let last = after.step.writer;
            &&& after.step.action is Done
            &&& after.log == with_chunks(log, envelope.chunks)
            &&& last.position() == envelope.vlog_end
            &&& last.last_appended == Some(
                AppendedTail { commit_seq: envelope.commit_seq, end: envelope.vlog_end },
            )
            &&& !last.append_failed
            &&& last.pending_sync_id is None
            &&& forall|file_id: u32| #[trigger]
                last.dirty_files.contains(file_id) <==> writer.dirty_files.contains(file_id) || (
                exists|k: int|
                    0 <= k < envelope.chunks.len() && (
                    #[trigger] envelope.chunks[k]).position.file_id == file_id)
            &&& forall|file_id: u32| #[trigger]
                writer.pending_directory_entries.dom().contains(file_id)
                    ==> last.pending_directory_entries.dom().contains(file_id)
            &&& !(writer.state is Open) ==> last.pending_directory_entries.dom().contains(
                envelope.chunks[0].position.file_id,
            )
        }),
{
    reveal_with_fuel(misplaced, 2);
    let steps = lemma_append_goes_through(writer, envelope, log, 0);
    lemma_chunks_from(log, envelope, 0);
    assert(envelope.chunks.take(0) =~= Seq::empty());
    steps
}

/// What was appended can be brought to the disk: a synchronization through the envelope is not
/// refused, and lists exactly the files that hold bytes which are not there yet.
pub proof fn law_appended_envelope_can_be_synced(
    writer: WriterView,
    envelope: EnvelopeView,
    log: Map<u32, Seq<u8>>,
    file_id: u32,
) -> (steps: nat)
    requires
        append_refusal(writer, envelope) is None,
        envelope.chunks.len() <= usize::MAX,
        writer.state is Open ==> writer.position().offset < writer.geometry.max_file_size,
        can_go_on(writer.geometry, envelope.vlog_end),
        writer.ordered(),
        forall|file_id: u32| #[trigger]
            writer.pending_directory_entries.dom().contains(file_id)
                ==> writer.pending_directory_entries[file_id] <= envelope.commit_seq,
    ensures
        ({
            let start = place_next(
                writer,
                envelope,
                AppendRun { index: 0, phase: AppendPhase::Placing },
            );
            let last = all_went_well(envelope, AppendScene { step: start, log }, steps).step.writer;
            let end = Some(envelope.vlog_end);
            &&& sync_refusal(last, envelope.commit_seq, end) is None
            &&& file_id <= envelope.vlog_end.file_id ==> (files_through(last, end).contains(file_id)
                <==> last.dirty_files.contains(file_id))
            &&& file_id <= envelope.vlog_end.file_id ==> (entries_through(
                last,
                envelope.commit_seq,
                end,
            ).contains(file_id) <==> last.pending_directory_entries.dom().contains(file_id))
        }),
{
    reveal_with_fuel(misplaced, 2);
    lemma_append_goes_through(writer, envelope, log, 0)
}

/// A write that took only a part goes on with the next byte, at the place behind the part, and
/// with all its repetitions; the writer does not move before the chunk is whole.
pub proof fn law_partial_write_goes_on(
    writer: WriterView,
    envelope: EnvelopeView,
    run: AppendRun,
    previous: Option<AppendState>,
    written: u64,
    count: RetryCount,
    took: u64,
)
    requires
        run.phase == (AppendPhase::Writing { previous, written, count }),
        run.index < envelope.chunks.len(),
        0 < took < envelope.chunks[run.index as int].bytes.len() - written,
        writer.position().offset + envelope.chunks[run.index as int].bytes.len() <= u64::MAX,
    ensures
        ({
            let next = wrote(writer, envelope, run, took);
            &&& next.writer == writer
            &&& next.run.index == run.index
            &&& next.action == (ActionView::Write {
                chunk: run.index as int,
                from: (written + took) as u64,
                offset: (writer.position().offset + written + took) as u64,
            })
            &&& next.run.phase == (AppendPhase::Writing {
                previous,
                written: (written + took) as u64,
                count: RetryCount { interrupted: 0, transient: 0 },
            })
        }),
{
}

/// A write that failed is repeated as it was while its repetitions last. Then the append fails,
/// and the writer stops, unless nothing of the envelope is in the log and the failure may pass;
/// a file that was made for nothing is taken away first.
pub proof fn law_failed_write_is_repeated_or_given_up(
    writer: WriterView,
    envelope: EnvelopeView,
    run: AppendRun,
    previous: Option<AppendState>,
    written: u64,
    count: RetryCount,
    failure: IoFailure,
)
    requires
        run.phase == (AppendPhase::Writing { previous, written, count }),
        run.index < envelope.chunks.len(),
        writer.position().offset + written <= u64::MAX,
        !position_before(writer.position(), envelope.vlog_begin),
        !writer.append_failed,
    ensures
        ({
            let next = write_failed(writer, envelope, run, failure);
            let passing = failure.cause == IoCause::Interrupted || failure.cause
                == IoCause::WouldBlock;
            let again = (failure.cause == IoCause::Interrupted && count.interrupted < 8) || (
            failure.cause == IoCause::WouldBlock && count.transient < 3);
            &&& again ==> next.writer == writer && next.action == (ActionView::Write {
                chunk: run.index as int,
                from: written,
                offset: (writer.position().offset + written) as u64,
            })
            &&& !again && previous is Some && written == 0 && passing ==> next.writer == writer
                && next.action == (ActionView::RemoveIfEmpty {
                file_id: writer.position().file_id,
            })
            &&& !again && !(previous is Some && written == 0 && passing) ==> {
                &&& next.action is Fail
                &&& next.run.phase is Ended
                &&& written > 0 ==> next.writer.dirty_files.contains(writer.position().file_id)
                    && next.writer.position().offset == writer.position().offset + written
                &&& next.writer.append_failed || (passing && written == 0 && writer.position()
                    == envelope.vlog_begin && next.writer == writer)
            }
        }),
{
}

/// A failed write of the log never counts as committed. It may be repeated exactly where the
/// failure may pass and nothing was written; a full disk is told apart.
pub proof fn law_failed_write_is_not_committed(
    commit_seq: u64,
    position: VLogPosition,
    progress: bool,
    failure: IoFailure,
)
    ensures
        ({
            let error = append_io_view(commit_seq, position, progress, failure);
            let passing = failure.cause == IoCause::Interrupted || failure.cause
                == IoCause::WouldBlock;
            &&& error.operation == Operation::WriteBatch
            &&& error.protocol_stage == ProtocolStage::VLogAppend
            &&& error.write_outcome == Some(WriteOutcome::NotCommitted)
            &&& error.os_code == failure.os_code
            &&& error.commit_seq == Some(commit_seq)
            &&& error.vlog_file_id == Some(position.file_id)
            &&& error.vlog_offset == Some(position.offset)
            &&& error.kind == StorageErrorKind::CapacityExceeded <==> failure.cause
                == IoCause::StorageFull
            &&& error.kind == StorageErrorKind::ResourceExhausted <==> passing && !progress
            &&& error.retry_advice == RetryAdvice::RetrySameInstance <==> passing && !progress
            &&& error.retry_advice == RetryAdvice::FixEnvironmentAndReopen <==> !(passing
                && !progress)
        }),
{
}

} // verus!
