//! What a database holds: the values that its users see, in the index and in the log together.

use vstd::prelude::*;

use crate::batch::OperationView;
use crate::commit::apply::{
    entry_of, held, law_commit_applies_operations_in_order, lemma_record_put, states_set,
    user_after,
};
use crate::commit::descriptor::keys_distinct;
use crate::commit::durability::frontier_change;
use crate::commit::metadata::{DurableFrontier, DurableVLogEnd};
use crate::commit::prepare::{
    law_prepared_descriptor_is_valid, record_changes, user_changes, CommitInputs,
};
use crate::error::ErrorView;
use crate::index::batch::{lemma_after_concatenation, IndexView};
use crate::recovery::undo::{
    after_transactions, after_undos, law_undo_restores_user_keys, law_undos_restore_user_keys, saw,
    saw_each_other, UndoView,
};
use crate::vlog::envelope::{envelope, EnvelopeView, TransactionView};
use crate::vlog::geometry::{ChunkView, VLogPosition, MAX_VLOG_FILE_SIZE};
use crate::vlog::layout::can_go_on;
use crate::vlog::pointer::{law_pointer_round_trip, ValuePointer};
use crate::vlog::reader::{
    file_holds, holds_value, law_one_value_per_record, law_put_value_is_read_back, production,
};
use crate::vlog::round_trip::law_prepared_envelope_scans_back;
use crate::vlog::scan::{end_of_chunks, scan_chunks, ScanView};
use crate::vlog::write_accepts::lemma_scanned_chunk;

verus! {

/// What lies in a file of the log; nothing in one that is not there.
pub open spec fn file_of(log: Map<u32, Seq<u8>>, file_id: u32) -> Seq<u8> {
    if log.dom().contains(file_id) {
        log[file_id]
    } else {
        Seq::empty()
    }
}

/// The bytes that a pointer points to.
pub open spec fn record_in(log: Map<u32, Seq<u8>>, pointer: ValuePointer) -> Seq<u8> {
    file_of(log, pointer.file_id).subrange(
        pointer.record_offset as int,
        pointer.record_offset + pointer.record_len,
    )
}

/// The log holds a value for a key where a pointer points to.
pub open spec fn value_at(
    log: Map<u32, Seq<u8>>,
    pointer: ValuePointer,
    key: Seq<u8>,
    value: Seq<u8>,
) -> bool {
    let file = file_of(log, pointer.file_id);
    &&& pointer.valid()
    &&& file.len() <= MAX_VLOG_FILE_SIZE && pointer.in_bounds(file.len() as u64)
    &&& holds_value(record_in(log, pointer), pointer, production(), key, value)
}

/// An entry of the index leads to a value for a key.
pub open spec fn leads_to(
    log: Map<u32, Seq<u8>>,
    encoded_pointer: Seq<u8>,
    key: Seq<u8>,
    value: Seq<u8>,
) -> bool {
    exists|pointer: ValuePointer|
        encoded_pointer == #[trigger] pointer.encoded() && value_at(log, pointer, key, value)
}

/// The pointers by user key and the log store contents: the pointer of each key leads to its
/// value, and no other key has one.
pub open spec fn stores(
    user: Map<Seq<u8>, Seq<u8>>,
    log: Map<u32, Seq<u8>>,
    contents: Map<Seq<u8>, Seq<u8>>,
) -> bool {
    &&& forall|key: Seq<u8>| #[trigger]
        user.dom().contains(key) <==> contents.dom().contains(key)
    &&& forall|key: Seq<u8>| #[trigger]
        user.dom().contains(key) ==> leads_to(log, user[key], key, contents[key])
}

/// The contents after operations, one after the other.
pub open spec fn contents_after(
    contents: Map<Seq<u8>, Seq<u8>>,
    operations: Seq<OperationView>,
) -> Map<Seq<u8>, Seq<u8>>
    decreases operations.len(),
{
    if operations.len() == 0 {
        contents
    } else {
        let before = contents_after(contents, operations.drop_last());
        match operations.last() {
            OperationView::Put { key, value } => before.insert(key, value),
            OperationView::Delete { key } => before.remove(key),
        }
    }
}

/// A log has only grown: what was in a file is still there.
pub open spec fn grown(before: Map<u32, Seq<u8>>, after: Map<u32, Seq<u8>>) -> bool {
    forall|file_id: u32|
        {
            let old_bytes = file_of(before, file_id);
            let new_bytes = #[trigger] file_of(after, file_id);
            &&& old_bytes.len() <= new_bytes.len() <= MAX_VLOG_FILE_SIZE
            &&& new_bytes.take(old_bytes.len() as int) == old_bytes
        }
}

/// A log holds the chunks of an envelope.
pub open spec fn log_holds(log: Map<u32, Seq<u8>>, chunks: Seq<ChunkView>) -> bool {
    forall|file_id: u32| file_holds(#[trigger] file_of(log, file_id), file_id, chunks)
}

/// A log ends at a position: the file there goes up to it, and no later file holds anything.
pub open spec fn ends_at(log: Map<u32, Seq<u8>>, end: VLogPosition) -> bool {
    &&& file_of(log, end.file_id).len() == end.offset
    &&& forall|file_id: u32|
        {
            let bytes = #[trigger] file_of(log, file_id);
            bytes.len() <= MAX_VLOG_FILE_SIZE && (file_id > end.file_id ==> bytes.len() == 0)
        }
}

/// A file after bytes were written at an offset of it.
pub open spec fn written_over(file: Seq<u8>, offset: int, bytes: Seq<u8>) -> Seq<u8> {
    file.take(offset) + bytes + (if offset + bytes.len() < file.len() {
        file.skip(offset + bytes.len())
    } else {
        Seq::empty()
    })
}

/// A log after chunks were written where they belong, one after the other.
pub open spec fn with_chunks(log: Map<u32, Seq<u8>>, chunks: Seq<ChunkView>) -> Map<u32, Seq<u8>>
    decreases chunks.len(),
{
    if chunks.len() == 0 {
        log
    } else {
        let before = with_chunks(log, chunks.drop_last());
        let at = chunks.last().position;
        before.insert(
            at.file_id,
            written_over(file_of(before, at.file_id), at.offset as int, chunks.last().bytes),
        )
    }
}

/// The first chunks that a scan passes go behind the end of the log, one after the other.
proof fn lemma_chunks_written(
    log: Map<u32, Seq<u8>>,
    scan: ScanView,
    chunks: Seq<ChunkView>,
    count: int,
)
    requires
        scan.geometry == production(),
        can_go_on(scan.geometry, scan.vlog_begin),
        scan.database_uuid.len() == 16,
        scan_chunks(scan, chunks, chunks.len() as int) is Ok,
        ends_at(log, scan.vlog_begin),
        0 <= count <= chunks.len(),
    ensures
        ({
            let after = with_chunks(log, chunks.take(count));
            &&& grown(log, after)
            &&& log_holds(after, chunks.take(count))
            &&& ends_at(after, end_of_chunks(scan, chunks, count))
        }),
    decreases count,
{
    let after = with_chunks(log, chunks.take(count));
    if count == 0 {
        assert forall|file_id: u32| true implies {
            let bytes = #[trigger] file_of(log, file_id);
            bytes.take(bytes.len() as int) == bytes
        } by {
            let bytes = file_of(log, file_id);
            assert(bytes.take(bytes.len() as int) =~= bytes);
        }
    } else {
        lemma_chunks_written(log, scan, chunks, count - 1);
        lemma_scanned_chunk(scan, chunks, count - 1);
        let before = with_chunks(log, chunks.take(count - 1));
        let chunk = chunks[count - 1];
        let at = chunk.position;
        assert(chunks.take(count).drop_last() =~= chunks.take(count - 1));
        assert(chunks.take(count).last() == chunk);
        assert(file_of(before, at.file_id).len() == at.offset);
        assert(file_of(after, at.file_id) =~= file_of(before, at.file_id) + chunk.bytes);
        assert forall|file_id: u32| true implies {
            let old_bytes = file_of(log, file_id);
            let new_bytes = #[trigger] file_of(after, file_id);
            &&& old_bytes.len() <= new_bytes.len() <= MAX_VLOG_FILE_SIZE
            &&& new_bytes.take(old_bytes.len() as int) == old_bytes
        } by {
            let old_bytes = file_of(log, file_id);
            let middle = file_of(before, file_id);
            assert(middle.take(old_bytes.len() as int) == old_bytes);
            assert(file_of(after, file_id).take(old_bytes.len() as int) =~= middle.take(
                old_bytes.len() as int,
            ));
        }
        assert forall|file_id: u32| file_holds(
            #[trigger] file_of(after, file_id),
            file_id,
            chunks.take(count),
        ) by {
            let bytes = file_of(after, file_id);
            let middle = file_of(before, file_id);
            assert(file_holds(middle, file_id, chunks.take(count - 1)));
            assert forall|i: int|
                0 <= i < count && (#[trigger] chunks.take(count)[i]).position.file_id
                    == file_id implies {
                let one = chunks.take(count)[i];
                &&& one.position.offset + one.bytes.len() <= bytes.len()
                &&& bytes.subrange(
                    one.position.offset as int,
                    one.position.offset + one.bytes.len(),
                ) == one.bytes
            } by {
                let one = chunks.take(count)[i];
                let start = one.position.offset as int;
                let end = one.position.offset + one.bytes.len();
                if i < count - 1 {
                    assert(chunks.take(count - 1)[i] == one);
                    assert(bytes.subrange(start, end) =~= middle.subrange(start, end));
                } else {
                    assert(bytes.subrange(start, end) =~= one.bytes);
                }
            }
        }
        let end = end_of_chunks(scan, chunks, count);
        assert forall|file_id: u32| true implies {
            let bytes = #[trigger] file_of(after, file_id);
            bytes.len() <= MAX_VLOG_FILE_SIZE && (file_id > end.file_id ==> bytes.len() == 0)
        } by {
            assert(file_of(before, file_id).len() <= MAX_VLOG_FILE_SIZE);
        }
    }
}

/// An envelope that is written behind the end of the log is in the log, the log has only grown,
/// and it ends where the envelope does.
pub proof fn law_written_envelope_is_in_log(
    log: Map<u32, Seq<u8>>,
    position: VLogPosition,
    transaction: TransactionView,
)
    requires
        can_go_on(production(), position),
        envelope(production(), position, transaction) is Ok,
        ends_at(log, position),
    ensures
        ({
            let written = envelope(production(), position, transaction)->Ok_0;
            let after = with_chunks(log, written.chunks);
            &&& grown(log, after)
            &&& log_holds(after, written.chunks)
            &&& ends_at(after, written.vlog_end)
        }),
{
    let written = envelope(production(), position, transaction)->Ok_0;
    let scan = ScanView {
        geometry: production(),
        database_uuid: transaction.database_uuid,
        vlog_begin: position,
        vlog_end: written.vlog_end,
        expected_checksum: None,
    };
    law_prepared_envelope_scans_back(production(), position, transaction, None);
    lemma_chunks_written(log, scan, written.chunks, written.chunks.len() as int);
    assert(written.chunks.take(written.chunks.len() as int) =~= written.chunks);
}

/// Values stay where they are while the log grows: whoever keeps an earlier view of the index
/// still reads what was there then.
pub proof fn law_earlier_views_stay_readable(
    user: Map<Seq<u8>, Seq<u8>>,
    before: Map<u32, Seq<u8>>,
    after: Map<u32, Seq<u8>>,
    contents: Map<Seq<u8>, Seq<u8>>,
)
    requires
        stores(user, before, contents),
        grown(before, after),
    ensures
        stores(user, after, contents),
{
    assert forall|key: Seq<u8>| #[trigger] user.dom().contains(key) implies leads_to(
        after,
        user[key],
        key,
        contents[key],
    ) by {
        let pointer = choose|pointer: ValuePointer|
            user[key] == #[trigger] pointer.encoded() && value_at(
                before,
                pointer,
                key,
                contents[key],
            );
        let old_bytes = file_of(before, pointer.file_id);
        let new_bytes = file_of(after, pointer.file_id);
        assert(record_in(after, pointer) =~= new_bytes.take(old_bytes.len() as int).subrange(
            pointer.record_offset as int,
            pointer.record_offset + pointer.record_len,
        ));
        assert(value_at(after, pointer, key, contents[key]));
    }
}

/// The first operations of a transaction change the contents one after the other.
proof fn lemma_operations_stored(
    user: Map<Seq<u8>, Seq<u8>>,
    log: Map<u32, Seq<u8>>,
    contents: Map<Seq<u8>, Seq<u8>>,
    inputs: CommitInputs,
    written: EnvelopeView,
    count: int,
)
    requires
        inputs.geometry == production(),
        can_go_on(inputs.geometry, inputs.append_cursor),
        envelope(inputs.geometry, inputs.append_cursor, inputs.transaction()) == Ok::<
            EnvelopeView,
            ErrorView,
        >(written),
        stores(user, log, contents),
        grown(log, log),
        log_holds(log, written.chunks),
        0 <= count <= inputs.write.operations.len(),
    ensures
        ({
            let operations = inputs.write.operations.take(count);
            stores(
                user_after(user, operations, written.value_pointers),
                log,
                contents_after(contents, operations),
            )
        }),
    decreases count,
{
    let operations = inputs.write.operations.take(count);
    if count > 0 {
        lemma_operations_stored(user, log, contents, inputs, written, count - 1);
        let front = inputs.write.operations.take(count - 1);
        assert(operations.drop_last() =~= front);
        let last = inputs.write.operations[count - 1];
        assert(operations.last() == last);
        match last {
            OperationView::Put { key, value } => {
                let pointer = written.value_pointers[count - 1]->0;
                let file = file_of(log, pointer.file_id);
                law_put_value_is_read_back(
                    inputs.append_cursor,
                    inputs.transaction(),
                    count - 1,
                    file,
                );
                assert(value_at(log, pointer, key, value));
                assert(leads_to(log, pointer.encoded(), key, value));
            },
            OperationView::Delete { key } => {
                assert(written.value_pointers[count - 1] is None);
            },
        }
    }
}

/// A commit changes what the database holds as its operations do, one after the other, whether
/// the durable frontier is written along with it or not: what was put last is there, what was
/// deleted last is not, and no other key is touched.
pub proof fn law_commit_changes_contents(
    index: IndexView,
    before: Map<u32, Seq<u8>>,
    after: Map<u32, Seq<u8>>,
    contents: Map<Seq<u8>, Seq<u8>>,
    inputs: CommitInputs,
    written: EnvelopeView,
    frontier: DurableFrontier,
)
    requires
        inputs.valid(),
        inputs.geometry == production(),
        can_go_on(inputs.geometry, inputs.append_cursor),
        envelope(inputs.geometry, inputs.append_cursor, inputs.transaction()) == Ok::<
            EnvelopeView,
            ErrorView,
        >(written),
        stores(index.user, before, contents),
        grown(before, after),
        log_holds(after, written.chunks),
    ensures
        ({
            let batch = (inputs.prepared()->Ok_0).index_batch;
            let changed = contents_after(contents, inputs.write.operations);
            &&& stores(index.after_all(batch).user, after, changed)
            &&& stores(index.after_all(batch.push(frontier_change(frontier))).user, after, changed)
        }),
{
    let operations = inputs.write.operations;
    let batch = (inputs.prepared()->Ok_0).index_batch;
    law_earlier_views_stay_readable(index.user, before, after, contents);
    assert forall|file_id: u32| true implies {
        let bytes = #[trigger] file_of(after, file_id);
        bytes.len() <= MAX_VLOG_FILE_SIZE && bytes.take(bytes.len() as int) == bytes
    } by {
        let bytes = file_of(after, file_id);
        assert(bytes.take(bytes.len() as int) =~= bytes);
    }
    lemma_operations_stored(
        index.user,
        after,
        contents,
        inputs,
        written,
        operations.len() as int,
    );
    assert(operations.take(operations.len() as int) =~= operations);
    law_commit_applies_operations_in_order(index, inputs, written);
    let durable = batch.push(frontier_change(frontier));
    assert(durable.drop_last() =~= batch);
    assert(durable.last() == frontier_change(frontier));
}

/// A commit leaves users with the states that it wrote down of their keys.
pub proof fn law_commit_sets_recorded_states(
    index: IndexView,
    inputs: CommitInputs,
    written: EnvelopeView,
    frontier: DurableFrontier,
)
    requires
        inputs.valid(),
        inputs.geometry == production(),
        can_go_on(inputs.geometry, inputs.append_cursor),
        envelope(inputs.geometry, inputs.append_cursor, inputs.transaction()) == Ok::<
            EnvelopeView,
            ErrorView,
        >(written),
    ensures
        ({
            let batch = (inputs.prepared()->Ok_0).index_batch;
            let set = index.after_all(states_set(inputs.descriptor(written).mutations, false));
            &&& index.after_all(batch).user == set.user
            &&& index.after_all(batch.push(frontier_change(frontier))).user == set.user
            &&& keys_distinct(inputs.descriptor(written).mutations)
        }),
{
    let plans = inputs.plans(written);
    let users = user_changes(plans);
    let commit_seq = (inputs.head_seq + 1) as u64;
    let records = record_changes(inputs.descriptor(written).encoded(), commit_seq);
    law_prepared_descriptor_is_valid(inputs, written);
    assert(users =~= states_set(plans, false));
    lemma_after_concatenation(index, users, records);
    lemma_record_put(index.after_all(users), inputs.descriptor(written).encoded(), commit_seq);
    let batch = (inputs.prepared()->Ok_0).index_batch;
    let durable = batch.push(frontier_change(frontier));
    assert(durable.drop_last() =~= batch);
    assert(durable.last() == frontier_change(frontier));
}

/// Undoing a commit brings back what the database held before it, with whatever is left of the
/// log, as long as that is what there was before.
pub proof fn law_undone_commit_leaves_contents(
    index: IndexView,
    before: Map<u32, Seq<u8>>,
    left: Map<u32, Seq<u8>>,
    contents: Map<Seq<u8>, Seq<u8>>,
    inputs: CommitInputs,
    written: EnvelopeView,
    undo: UndoView,
)
    requires
        inputs.valid(),
        inputs.geometry == production(),
        can_go_on(inputs.geometry, inputs.append_cursor),
        envelope(inputs.geometry, inputs.append_cursor, inputs.transaction()) == Ok::<
            EnvelopeView,
            ErrorView,
        >(written),
        undo.descriptor == inputs.descriptor(written),
        forall|i: int|
            0 <= i < inputs.plans(written).len() ==> held(
                index.user,
                (#[trigger] inputs.plans(written)[i]).user_key,
            ) == entry_of(inputs.plans(written)[i].before_state),
        stores(index.user, before, contents),
        grown(before, left),
    ensures
        ({
            let committed = index.after_all((inputs.prepared()->Ok_0).index_batch);
            let undone = committed.after_all(undo.changes());
            &&& undone.user == index.user
            &&& stores(undone.user, left, contents)
        }),
{
    let committed = index.after_all((inputs.prepared()->Ok_0).index_batch);
    let frontier = DurableFrontier { durable_seq: 0, durable_vlog_end: DurableVLogEnd::Empty };
    law_commit_sets_recorded_states(index, inputs, written, frontier);
    assert(saw(undo.descriptor, index)) by {
        assert(inputs.descriptor(written).mutations == inputs.plans(written));
    }
    law_undo_restores_user_keys(index, committed, undo);
    law_earlier_views_stay_readable(index.user, before, left, contents);
}

/// Undoing commits, the last one first, brings back what the database held before the first of
/// them, where each of them wrote down what the ones before it left. Whatever is left of the log
/// will do, as long as it is what there was before.
pub proof fn law_undone_commits_leave_contents(
    index: IndexView,
    found: IndexView,
    before: Map<u32, Seq<u8>>,
    left: Map<u32, Seq<u8>>,
    contents: Map<Seq<u8>, Seq<u8>>,
    undos: Seq<UndoView>,
)
    requires
        saw_each_other(index, undos),
        found.user == after_transactions(index, undos).user,
        stores(index.user, before, contents),
        grown(before, left),
    ensures
        after_undos(found, undos).user == index.user,
        stores(after_undos(found, undos).user, left, contents),
{
    law_undos_restore_user_keys(index, found, undos);
    law_earlier_views_stay_readable(index.user, before, left, contents);
}

/// A lookup answers with what the database holds. A key that it does not hold has no entry in
/// the index. The entry of a key that it holds is the encoding of one pointer, and the record
/// there is good for the value of the key and for no other.
pub proof fn law_lookup_finds_contents(
    user: Map<Seq<u8>, Seq<u8>>,
    log: Map<u32, Seq<u8>>,
    contents: Map<Seq<u8>, Seq<u8>>,
    key: Seq<u8>,
    pointer: ValuePointer,
    value: Seq<u8>,
)
    requires
        stores(user, log, contents),
    ensures
        held(user, key) is None <==> held(contents, key) is None,
        held(user, key) == Some(pointer.encoded()) ==> {
            &&& pointer.valid()
            &&& pointer.in_bounds(file_of(log, pointer.file_id).len() as u64)
            &&& holds_value(record_in(log, pointer), pointer, production(), key, value)
                <==> held(contents, key) == Some(value)
        },
{
    if held(user, key) == Some(pointer.encoded()) {
        assert(user.dom().contains(key));
        let stored = choose|stored: ValuePointer|
            user[key] == #[trigger] stored.encoded() && value_at(log, stored, key, contents[key]);
        law_pointer_round_trip(pointer, stored);
        if holds_value(record_in(log, pointer), pointer, production(), key, value) {
            law_one_value_per_record(
                record_in(log, pointer),
                pointer,
                production(),
                key,
                value,
                contents[key],
            );
        }
    }
}

/// A batch does what its operations do in batches of their own: committed together or apart,
/// they leave the same behind.
pub proof fn law_batch_is_its_operations_in_order(
    contents: Map<Seq<u8>, Seq<u8>>,
    first: Seq<OperationView>,
    second: Seq<OperationView>,
)
    ensures
        contents_after(contents, first + second) == contents_after(
            contents_after(contents, first),
            second,
        ),
    decreases second.len(),
{
    if second.len() == 0 {
        assert(first + second =~= first);
    } else {
        assert((first + second).drop_last() =~= first + second.drop_last());
        law_batch_is_its_operations_in_order(contents, first, second.drop_last());
    }
}

} // verus!
