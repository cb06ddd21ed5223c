//! Reading an envelope back, with the states in which it leaves its keys.

use vstd::prelude::*;

use crate::batch::{OperationView, MAX_KEY_VALUE_SIZE};
use crate::commit::descriptor::{mutation_views, TxMutation, ValueState};
use crate::commit::preflight::{
    distinct_keys, first_refusal, law_keys_of_a_write, operation_refusal, validate_normalized,
    write_refusal,
};
use crate::commit::prepare::{build_key_plans, key_plans, state_after, CommitInputs};
use crate::error::{ErrorView, Operation, Result, StorageErrorKind};
use crate::memory::{asked, asked_within, Memory};
use crate::recovery::plan::{envelope_agrees, EnvelopeFinalState, RecoveryEnvelope};
use crate::vlog::decode::{decode_record_at, law_record_round_trip};
use crate::vlog::envelope::{
    envelope, has_key_at, key_set, lemma_planned_all, lemma_records_valid, operation_fits,
    operation_length, operation_views, planned_all, value_pointer, EnvelopeView,
    LogicalOperationRef, TransactionView,
};
use crate::vlog::geometry::{
    chunk_views, decode_error, decode_view, lemma_first_page, record_fits, ChunkView,
    PhysicalChunk, VLogGeometry, VLogPosition,
};
use crate::vlog::header::PAGE_HEADER_ENCODED_LEN;
use crate::vlog::layout::can_go_on;
use crate::vlog::pointer::{ValuePointer, VALUE_POINTER_FORMAT_VERSION};
use crate::vlog::record::{DecodedRecord, RecordView};
use crate::vlog::round_trip::{law_prepared_envelope_scans_back, lemma_record_chunk};
use crate::vlog::scan::{
    is_record, law_scanned_envelope_holds_transaction, lemma_found_in_order, lemma_one_record, operation_of, reports, scan_chunks, scan_makes_sense,
    scan_prepared_envelope, scanned, without_page_ends, ScanView,
};

verus! {

/// A record of an operation.
pub open spec fn is_operation(record: RecordView) -> bool {
    record is Put || record is Delete
}

/// The record of an operation in a chunk, if there is one.
pub open spec fn operation_in(chunk: ChunkView, geometry: VLogGeometry) -> Option<RecordView> {
    if exists|record: RecordView| is_record(chunk, record, geometry) && is_operation(record) {
        Some(choose|record: RecordView| is_record(chunk, record, geometry))
    } else {
        None
    }
}

/// The records of operations in the first chunks, and where they lie.
pub open spec fn operations_in(chunks: Seq<ChunkView>, geometry: VLogGeometry, count: int) -> Seq<
    (RecordView, VLogPosition),
>
    decreases count,
{
    if count <= 0 {
        Seq::empty()
    } else {
        let front = operations_in(chunks, geometry, count - 1);
        match operation_in(chunks[count - 1], geometry) {
            Some(record) => front.push((record, chunks[count - 1].position)),
            None => front,
        }
    }
}

/// The pointer to the record of a put.
pub open spec fn pointer_to(record: RecordView, position: VLogPosition) -> Option<ValuePointer> {
    match record {
        RecordView::Put { value, .. } => Some(
            ValuePointer {
                format_version: VALUE_POINTER_FORMAT_VERSION,
                file_id: position.file_id,
                record_offset: position.offset as u32,
                record_len: record.length() as u32,
                value_len: value.len() as u16,
            },
        ),
        _ => None,
    }
}

pub open spec fn logged_operations(logged: Seq<(RecordView, VLogPosition)>) -> Seq<OperationView> {
    Seq::new(logged.len(), |i: int| operation_of(logged[i].0))
}

pub open spec fn logged_pointers(logged: Seq<(RecordView, VLogPosition)>) -> Seq<
    Option<ValuePointer>,
> {
    Seq::new(logged.len(), |i: int| pointer_to(logged[i].0, logged[i].1))
}

/// The states in which logged operations leave their keys, in the order in which the keys first
/// occur.
pub open spec fn left_states(logged: Seq<(RecordView, VLogPosition)>) -> Seq<
    (Seq<u8>, ValueState),
> {
    let operations = logged_operations(logged);
    Seq::new(
        distinct_keys(operations).len(),
        |i: int|
            (
                distinct_keys(operations)[i],
                state_after(
                    operations,
                    logged_pointers(logged),
                    distinct_keys(operations)[i],
                    ValueState::Absent,
                ),
            ),
    )
}

pub open spec fn state_views(states: Seq<EnvelopeFinalState>) -> Seq<(Seq<u8>, ValueState)> {
    Seq::new(states.len(), |i: int| (states[i].user_key@, states[i].state))
}

/// More operations than a write can have.
pub open spec fn beyond_limits(operations: Seq<OperationView>) -> bool {
    write_refusal(operations, Operation::WriteBatch, u32::MAX as nat) is Some
}

/// The record of a chunk decides whether there is an operation in it.
proof fn lemma_operation_in(chunk: ChunkView, record: RecordView, geometry: VLogGeometry)
    requires
        is_record(chunk, record, geometry),
    ensures
        operation_in(chunk, geometry) == (if is_operation(record) {
            Some(record)
        } else {
            None
        }),
{
    lemma_one_record(chunk, record, geometry);
    assert forall|other: RecordView| #[trigger]
        is_record(chunk, other, geometry) implies other == record by {
        law_record_round_trip(record, other);
    }
}

/// More chunks hold no fewer operations.
proof fn lemma_operations_grow(chunks: Seq<ChunkView>, geometry: VLogGeometry, i: int, n: int)
    requires
        i <= n,
    ensures
        operations_in(chunks, geometry, i).len() <= operations_in(chunks, geometry, n).len(),
    decreases n - i,
{
    if i < n {
        lemma_operations_grow(chunks, geometry, i, n - 1);
    }
}

/// The operations of the chunks, and the pointers to them.
fn collect_operations<'a>(memory: &mut Memory, chunks: &'a [PhysicalChunk], geometry: VLogGeometry) -> (result:
    Result<(Vec<LogicalOperationRef<'a>>, Vec<Option<ValuePointer>>)>)
    requires
        !old(memory).refused(),
        geometry.valid(),
    ensures
        match result {
            Ok(found) => {
                let logged = operations_in(
                    chunk_views(chunks@),
                    geometry,
                    chunks@.len() as int,
                );
                &&& !final(memory).refused()
                &&& operation_views(found.0@) == logged_operations(logged)
                &&& found.1@ == logged_pointers(logged)
            },
            Err(error) => final(memory).refused() && error@ == decode_view(
                StorageErrorKind::ResourceExhausted,
            ),
        },
        ({
            let logged = operations_in(chunk_views(chunks@), geometry, chunks@.len() as int);
            asked(*old(memory), *final(memory), 2 * logged.len(), logged.len())
        }),
{
    let ghost views = chunk_views(chunks@);
    let mut operations: Vec<LogicalOperationRef<'a>> = Vec::new();
    let mut pointers: Vec<Option<ValuePointer>> = Vec::new();
    let mut i: usize = 0;
    proof {
        assert(operation_views(operations@) =~= Seq::empty());
    }
    while i < chunks.len()
        invariant
            !old(memory).refused(),
            asked(
                *old(memory),
                *memory,
                2 * operations_in(views, geometry, i as int).len(),
                operations_in(views, geometry, chunks@.len() as int).len(),
            ),
            i <= chunks@.len(),
            geometry.valid(),
            views == chunk_views(chunks@),
            !memory.refused(),
            operation_views(operations@) =~= logged_operations(
                operations_in(views, geometry, i as int),
            ),
            pointers@ =~= logged_pointers(operations_in(views, geometry, i as int)),
        decreases chunks@.len() - i,
    {
        let chunk = &chunks[i];
        let ghost logged = operations_in(views, geometry, i as int);
        proof {
            assert(views[i as int] == chunk@);
            lemma_operations_grow(views, geometry, i + 1, chunks@.len() as int);
            assert(operation_views(operations@).len() == operations@.len());
        }
        match decode_record_at(chunk.bytes.as_slice(), chunk.position, geometry) {
            Ok(decoded) => {
                let ghost record = decoded.record();
                proof {
                    lemma_operation_in(chunk@, record, geometry);
                }
                match decoded {
                    DecodedRecord::KvRecord(kv) => {
                        if !memory.reserve(&mut operations, 1) || !memory.reserve(
                            &mut pointers,
                            1,
                        ) {
                            return Err(decode_error(StorageErrorKind::ResourceExhausted));
                        }
                        operations.push(LogicalOperationRef::Put { key: kv.key, value: kv.value });
                        pointers.push(
                            Some(
                                ValuePointer {
                                    format_version: VALUE_POINTER_FORMAT_VERSION,
                                    file_id: chunk.position.file_id,
                                    record_offset: chunk.position.offset as u32,
                                    record_len: chunk.bytes.len() as u32,
                                    value_len: kv.value.len() as u16,
                                },
                            ),
                        );
                        proof {
                            crate::vlog::decode::lemma_record_front(record);
                            let more = logged.push((record, chunk@.position));
                            assert(operations_in(views, geometry, i + 1) == more);
                            assert(logged_operations(more) =~= logged_operations(logged).push(
                                operation_of(record),
                            ));
                        }
                    },
                    DecodedRecord::DeleteRecord(delete) => {
                        if !memory.reserve(&mut operations, 1) || !memory.reserve(
                            &mut pointers,
                            1,
                        ) {
                            return Err(decode_error(StorageErrorKind::ResourceExhausted));
                        }
                        operations.push(LogicalOperationRef::Delete { key: delete.key });
                        pointers.push(None);
                        proof {
                            let more = logged.push((record, chunk@.position));
                            assert(operations_in(views, geometry, i + 1) == more);
                            assert(logged_operations(more) =~= logged_operations(logged).push(
                                operation_of(record),
                            ));
                        }
                    },
                    _ => {},
                }
            },
            Err(_) => {
                proof {
                    assert(forall|record: RecordView| !is_record(chunk@, record, geometry));
                    assert(operation_in(chunk@, geometry) is None);
                }
            },
        }
        i = i + 1;
    }
    Ok((operations, pointers))
}

/// Takes the states out of the plans.
fn states_of(memory: &mut Memory, plans: Vec<TxMutation>) -> (result: Result<Vec<EnvelopeFinalState>>)
    requires
        !old(memory).refused(),
    ensures
        match result {
            Ok(states) => {
                &&& !final(memory).refused()
                &&& state_views(states@) == Seq::new(
                    plans@.len(),
                    |i: int| (plans@[i]@.user_key, plans@[i]@.after_state),
                )
            },
            Err(error) => final(memory).refused() && error@ == decode_view(
                StorageErrorKind::ResourceExhausted,
            ),
        },
        asked(*old(memory), *final(memory), 1, plans@.len()),
{
    let ghost wanted = Seq::new(
        plans@.len(),
        |i: int| (plans@[i]@.user_key, plans@[i]@.after_state),
    );
    let mut states: Vec<EnvelopeFinalState> = Vec::new();
    if !memory.reserve_exact(&mut states, plans.len()) {
        return Err(decode_error(StorageErrorKind::ResourceExhausted));
    }
    let mut left = plans;
    let count: usize = left.len();
    let mut i: usize = 0;
    while i < count
        invariant
            i <= count,
            count == left@.len(),
            count == plans@.len(),
            !old(memory).refused(),
            asked(*old(memory), *memory, 1, count as nat),
            count == wanted.len(),
            !memory.refused(),
            forall|k: int|
                i <= k < count ==> (#[trigger] left@[k])@.user_key == wanted[k].0
                    && left@[k]@.after_state == wanted[k].1,
            state_views(states@) =~= wanted.take(i as int),
        decreases count - i,
    {
        let mut plan = TxMutation {
            user_key: Vec::new(),
            before_state: ValueState::Absent,
            after_state: ValueState::Absent,
        };
        let ghost before = state_views(states@);
        left.set_and_swap(i, &mut plan);
        let ghost taken = plan@;
        states.push(EnvelopeFinalState { user_key: plan.user_key, state: plan.after_state });
        i = i + 1;
        proof {
            assert(state_views(states@) =~= before.push((taken.user_key, taken.after_state)));
            assert(wanted.take(i as int) =~= wanted.take(i - 1).push(wanted[i - 1]));
        }
    }
    proof {
        assert(wanted.take(count as int) =~= wanted);
    }
    Ok(states)
}

/// What reading an envelope asks of memory: nothing where the scan makes no sense; two
/// reservations for the scan; and, where there is an envelope, two for each operation, four for
/// the check of them, and three and one for each key for the states that they leave.
pub open spec fn asked_to_read(
    before: Memory,
    after: Memory,
    scan: ScanView,
    chunks: Seq<ChunkView>,
) -> bool {
    let operations = logged_operations(
        operations_in(chunks, scan.geometry, chunks.len() as int),
    );
    let most = chunks.len() + operations.len() + MAX_KEY_VALUE_SIZE as nat;
    if !scan_makes_sense(scan, chunks) {
        after == before
    } else if scanned(scan, chunks) is Err {
        asked(before, after, 2, chunks.len())
    } else if beyond_limits(operations) {
        asked_within(before, after, 6 + 2 * operations.len(), most)
    } else {
        asked(
            before,
            after,
            9 + 2 * operations.len() + distinct_keys(operations).len(),
            most,
        )
    }
}

/// Reads the envelope between two positions of the log, from the chunks that lie there.
pub fn read_recovery_envelope(
    memory: &mut Memory,
    chunks: &[PhysicalChunk],
    geometry: VLogGeometry,
    database_uuid: [u8; 16],
    vlog_begin: VLogPosition,
    vlog_end: VLogPosition,
    expected_envelope_crc32c: Option<u32>,
) -> (result: Result<RecoveryEnvelope>)
    requires
        !old(memory).refused(),
    ensures
        final(memory).refused() ==> (result matches Err(error) && error@ == decode_view(
            StorageErrorKind::ResourceExhausted,
        )),
        !final(memory).refused() ==> ({
            let scan = ScanView {
                geometry,
                database_uuid: database_uuid@,
                vlog_begin,
                vlog_end,
                expected_checksum: expected_envelope_crc32c,
            };
            let views = chunk_views(chunks@);
            let logged = operations_in(views, geometry, views.len() as int);
            match scanned(scan, views) {
                Err(kind) => result matches Err(error) && error@ == decode_view(kind),
                Ok(transaction) => if beyond_limits(logged_operations(logged)) {
                    result matches Err(error) && error@ == decode_view(
                        StorageErrorKind::CapacityExceeded,
                    )
                } else {
                    &&& result matches Ok(read) && reports(read.scanned, scan, transaction)
                        && state_views(read.final_states@) == left_states(logged)
                },
            }
        }),
        asked_to_read(
            *old(memory),
            *final(memory),
            ScanView {
                geometry,
                database_uuid: database_uuid@,
                vlog_begin,
                vlog_end,
                expected_checksum: expected_envelope_crc32c,
            },
            chunk_views(chunks@),
        ),
{
    let scanned_envelope = scan_prepared_envelope(
        memory,
        chunks,
        geometry,
        database_uuid,
        vlog_begin,
        vlog_end,
        expected_envelope_crc32c,
    )?;
    let ghost views = chunk_views(chunks@);
    let ghost logged = operations_in(views, geometry, views.len() as int);
    let ghost operations_view = logged_operations(logged);
    proof {
        law_keys_of_a_write(operations_view);
    }
    let (operations, pointers) = collect_operations(memory, chunks, geometry)?;
    let limit: usize = u32::MAX as usize;
    let write = match validate_normalized(
        memory,
        operations,
        false,
        Operation::WriteBatch,
        limit,
    ) {
        Ok(write) => write,
        Err(_) => {
            if memory.is_refused() {
                return Err(decode_error(StorageErrorKind::ResourceExhausted));
            }
            return Err(decode_error(StorageErrorKind::CapacityExceeded));
        },
    };
    let keys: usize = write.distinct_key_count();
    let mut before: Vec<ValueState> = Vec::new();
    if !memory.reserve_exact(&mut before, keys) {
        return Err(decode_error(StorageErrorKind::ResourceExhausted));
    }
    let mut i: usize = 0;
    while i < keys
        invariant
            !old(memory).refused(),
            asked(
                *old(memory),
                *memory,
                7 + 2 * operations_view.len(),
                views.len() + operations_view.len() + MAX_KEY_VALUE_SIZE as nat,
            ),
            i <= keys,
            before@.len() == i,
            !memory.refused(),
            forall|k: int| 0 <= k < i ==> #[trigger] before@[k] == ValueState::Absent,
        decreases keys - i,
    {
        before.push(ValueState::Absent);
        i = i + 1;
    }
    let plans = match build_key_plans(memory, &write, &before, &pointers) {
        Ok(plans) => plans,
        Err(_) => return Err(decode_error(StorageErrorKind::ResourceExhausted)),
    };
    let ghost plans_seq = plans@;
    let ghost plan_views = mutation_views(plans_seq);
    proof {
        assert(plan_views.len() == plans_seq.len());
        assert(plan_views.len() == distinct_keys(operations_view).len());
    }
    let final_states = states_of(memory, plans)?;
    proof {
        let states = state_views(final_states@);
        assert(write@.operations == operations_view);
        assert(plan_views.len() == plans_seq.len());
        assert(plan_views == key_plans(operations_view, before@, pointers@));
        assert(states.len() == left_states(logged).len());
        assert forall|k: int| 0 <= k < states.len() implies states[k] == left_states(logged)[k] by {
            assert(before@[k] == ValueState::Absent);
            assert(plan_views[k] == plans_seq[k]@);
            assert(states[k] == (plan_views[k].user_key, plan_views[k].after_state));
        }
        assert(state_views(final_states@) =~= left_states(logged));
    }
    Ok(RecoveryEnvelope { scanned: scanned_envelope, final_states })
}

/// The number of operations among the records of a transaction that were found so far.
spec fn found_operations(records: Seq<RecordView>) -> int {
    if records.len() == 0 {
        0
    } else if records.last() is End {
        records.len() - 2
    } else {
        records.len() - 1
    }
}

/// A scan finds the operations that the chunks hold, and no others.
proof fn lemma_found_operations(scan: ScanView, chunks: Seq<ChunkView>, count: int)
    requires
        scan.geometry.valid(),
        0 <= count <= chunks.len(),
        scan_chunks(scan, chunks, count) is Ok,
    ensures
        ({
            let records = without_page_ends(scan_chunks(scan, chunks, count)->Ok_0);
            let logged = operations_in(chunks, scan.geometry, count);
            &&& logged.len() == found_operations(records)
            &&& forall|i: int| 0 <= i < logged.len() ==> (#[trigger] logged[i]).0 == records[i + 1]
        }),
    decreases count,
{
    if count > 0 {
        let geometry = scan.geometry;
        let chunk = chunks[count - 1];
        lemma_found_operations(scan, chunks, count - 1);
        lemma_found_in_order(scan, chunks, count - 1);
        lemma_found_in_order(scan, chunks, count);
        let before = scan_chunks(scan, chunks, count - 1)->Ok_0;
        let found = scan_chunks(scan, chunks, count)->Ok_0;
        let at = chunk.position;
        if at.offset % geometry.page_size == 0 || at.offset == PAGE_HEADER_ENCODED_LEN {
            lemma_first_page(geometry, at.offset as int);
            assert(!geometry.record_may_start(at));
            assert(operation_in(chunk, geometry) is None);
        } else {
            let record = choose|record: RecordView| is_record(chunk, record, geometry);
            lemma_operation_in(chunk, record, geometry);
            assert(found == before.push(record));
            assert(found.drop_last() =~= before);
            let old_records = without_page_ends(before);
            let records = without_page_ends(found);
            if !(record is PageEnd) {
                assert(records == old_records.push(record));
                if record is End {
                    assert(records.len() > 1);
                }
            }
        }
    } else {
        assert(without_page_ends(Seq::empty()) =~= Seq::empty());
    }
}

/// An operation in a chunk is among those of the chunks.
proof fn lemma_operation_is_logged(
    chunks: Seq<ChunkView>,
    geometry: VLogGeometry,
    count: int,
    k: int,
) -> (j: int)
    requires
        0 <= k < count,
        operation_in(chunks[k], geometry) is Some,
    ensures
        0 <= j < operations_in(chunks, geometry, count).len(),
        operations_in(chunks, geometry, count)[j] == (
            operation_in(chunks[k], geometry)->0,
            chunks[k].position,
        ),
    decreases count,
{
    if k == count - 1 {
        operations_in(chunks, geometry, count).len() - 1
    } else {
        lemma_operation_is_logged(chunks, geometry, count - 1, k)
    }
}

/// The chunks that a scan accepts hold the operations of the transaction, in their order.
pub proof fn law_accepted_chunks_hold_the_operations(scan: ScanView, chunks: Seq<ChunkView>)
    requires
        scanned(scan, chunks) is Ok,
    ensures
        logged_operations(operations_in(chunks, scan.geometry, chunks.len() as int)) == (scanned(
            scan,
            chunks,
        )->Ok_0).operations,
{
    let count = chunks.len() as int;
    let records = without_page_ends(scan_chunks(scan, chunks, count)->Ok_0);
    lemma_found_operations(scan, chunks, count);
    lemma_found_in_order(scan, chunks, count);
    let logged = operations_in(chunks, scan.geometry, count);
    let operations = (scanned(scan, chunks)->Ok_0).operations;
    assert forall|i: int| 0 <= i < logged.len() implies operation_of((#[trigger] logged[i]).0)
        == operations[i] by {
        assert(records.drop_last()[i + 1] == records[i + 1]);
    }
    assert(logged_operations(logged) =~= operations);
}

/// The last operation on a key decides its state, whatever it was before.
proof fn lemma_state_is_decided(
    operations: Seq<OperationView>,
    pointers: Seq<Option<ValuePointer>>,
    key: Seq<u8>,
    a: ValueState,
    b: ValueState,
)
    requires
        exists|i: int| 0 <= i < operations.len() && (#[trigger] operations[i]).key() == key,
    ensures
        state_after(operations, pointers, key, a) == state_after(operations, pointers, key, b),
    decreases operations.len(),
{
    if operations.last().key() != key {
        let i = choose|i: int|
            0 <= i < operations.len() && (#[trigger] operations[i]).key() == key;
        assert(operations.drop_last()[i].key() == key);
        lemma_state_is_decided(operations.drop_last(), pointers, key, a, b);
    }
}

/// Whether operations fit does not depend on who asks.
proof fn lemma_refusal_of_other(operations: Seq<OperationView>, a: Operation, b: Operation)
    requires
        first_refusal(operations, a) is None,
    ensures
        first_refusal(operations, b) is None,
    decreases operations.len(),
{
    if operations.len() > 0 {
        lemma_refusal_of_other(operations.drop_last(), a, b);
        assert(operation_refusal(operations.last(), a) is None);
    }
}

/// There are as many keys as distinct keys.
proof fn lemma_key_counts(operations: Seq<OperationView>)
    ensures
        key_set(operations).len() == distinct_keys(operations).len(),
{
    let keys = distinct_keys(operations);
    law_keys_of_a_write(operations);
    keys.unique_seq_to_set();
    assert(key_set(operations) =~= keys.to_set()) by {
        assert forall|key: Seq<u8>| key_set(operations).contains(key) == keys.to_set().contains(
            key,
        ) by {
            if key_set(operations).contains(key) {
                let i = choose|i: int| has_key_at(operations, i, key);
                assert(operations[i].key() == key);
                assert(keys.contains(key));
            }
            if keys.contains(key) {
                let i = choose|i: int|
                    0 <= i < operations.len() && (#[trigger] operations[i]).key() == key;
                assert(has_key_at(operations, i, key));
            }
        }
    }
}

/// The pointers that are read off the chunks of a prepared envelope are those that were made
/// for it.
proof fn lemma_pointers_read_back(
    geometry: VLogGeometry,
    position: VLogPosition,
    transaction: TransactionView,
)
    requires
        geometry.valid(),
        can_go_on(geometry, position),
        envelope(geometry, position, transaction) is Ok,
    ensures
        ({
            let written = envelope(geometry, position, transaction)->Ok_0;
            let logged = operations_in(written.chunks, geometry, written.chunks.len() as int);
            &&& logged_operations(logged) == transaction.operations
            &&& logged_pointers(logged) == written.value_pointers
        }),
{
    let written = envelope(geometry, position, transaction)->Ok_0;
    let lengths = transaction.lengths();
    let (plans, vlog_end) = planned_all(geometry, position, lengths)->Ok_0;
    let records = transaction.records(position, vlog_end);
    let scan = ScanView {
        geometry,
        database_uuid: transaction.database_uuid,
        vlog_begin: position,
        vlog_end,
        expected_checksum: None,
    };
    let count = written.chunks.len() as int;
    let logged = operations_in(written.chunks, geometry, count);
    law_prepared_envelope_scans_back(geometry, position, transaction, None);
    law_accepted_chunks_hold_the_operations(scan, written.chunks);
    law_scanned_envelope_holds_transaction(scan, written.chunks);
    lemma_found_operations(scan, written.chunks, count);
    lemma_planned_all(geometry, position, lengths);
    lemma_records_valid(transaction, position, vlog_end, 0);
    assert(logged.len() == logged_operations(logged).len());
    assert forall|i: int| 0 <= i < logged.len() implies #[trigger] pointer_to(
        logged[i].0,
        logged[i].1,
    ) == written.value_pointers[i] by {
        let plan = plans[i + 1];
        let record = transaction.operation_record(i);
        assert(written.value_pointers[i] == value_pointer(plan, transaction.operations[i]));
        assert(lengths[i + 1] == operation_length(transaction.operations[i]));
        assert(record_fits(lengths[i + 1] as nat, plan.record_start, geometry));
        assert(records[i + 1] == record);
        let at = lemma_record_chunk(transaction, plans, records, i + 1);
        let chunk = written.chunks[at];
        assert(is_record(chunk, record, geometry));
        lemma_operation_in(chunk, record, geometry);
        let j = lemma_operation_is_logged(written.chunks, geometry, count, at);
        assert(logged[j].0 == records[j + 1]);
        assert(records[j + 1] == transaction.operation_record(j));
        assert(i == j);
        assert(operation_fits(transaction.operations[i]));
    }
    assert(logged_pointers(logged) =~= written.value_pointers);
}

/// A commit that is wholly in the log is accepted by a recovery: what is read back from the
/// chunks that were prepared for it agrees with the descriptor that the index keeps of it.
pub proof fn law_recovery_accepts_prepared_commit(
    inputs: CommitInputs,
    written: EnvelopeView,
    read: RecoveryEnvelope,
    expected_checksum: Option<u32>,
)
    requires
        inputs.valid(),
        inputs.geometry.valid(),
        can_go_on(inputs.geometry, inputs.append_cursor),
        envelope(inputs.geometry, inputs.append_cursor, inputs.transaction()) == Ok::<
            EnvelopeView,
            ErrorView,
        >(written),
        reports(
            read.scanned,
            (ScanView {
                geometry: inputs.geometry,
                database_uuid: inputs.database_uuid,
                vlog_begin: written.vlog_begin,
                vlog_end: written.vlog_end,
                expected_checksum,
            }),
            inputs.transaction(),
        ),
        state_views(read.final_states@) == left_states(
            operations_in(written.chunks, inputs.geometry, written.chunks.len() as int),
        ),
    ensures
        envelope_agrees(read, inputs.descriptor(written)),
        !beyond_limits(
            logged_operations(
                operations_in(written.chunks, inputs.geometry, written.chunks.len() as int),
            ),
        ),
{
    let operations = inputs.write.operations;
    let logged = operations_in(written.chunks, inputs.geometry, written.chunks.len() as int);
    let keys = distinct_keys(operations);
    let plans = inputs.plans(written);
    lemma_pointers_read_back(inputs.geometry, inputs.append_cursor, inputs.transaction());
    lemma_key_counts(operations);
    law_keys_of_a_write(operations);
    lemma_refusal_of_other(operations, inputs.write.public_operation, Operation::WriteBatch);
    assert(plans.len() == keys.len());
    assert(left_states(logged).len() == keys.len());
    assert(state_views(read.final_states@).len() == read.final_states@.len());
    assert forall|k: int| 0 <= k < keys.len() implies (#[trigger] read.final_states@[k]).user_key@
        == plans[k].user_key && read.final_states@[k].state == plans[k].after_state by {
        assert(state_views(read.final_states@)[k] == left_states(logged)[k]);
        assert(keys.contains(keys[k]));
        lemma_state_is_decided(
            operations,
            written.value_pointers,
            keys[k],
            ValueState::Absent,
            inputs.before_states[k],
        );
    }
}

} // verus!
