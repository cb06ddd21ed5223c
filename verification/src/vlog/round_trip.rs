//! What is written to the log is found there again.

use vstd::prelude::*;

use crate::error::{ErrorView, StorageErrorKind};
use crate::vlog::decode::lemma_record_front;
use crate::vlog::envelope::{
    chunk_total, envelope, envelope_chunks, lemma_planned_all, lemma_records_valid,
    placement_chunks, planned_all, prelude_chunk, TransactionView,
};
use crate::vlog::geometry::{
    end_of_chunk, lemma_advance_to_page_end, lemma_first_page, lemma_page_end, lemma_page_number,
    next_position, record_fits, record_may_end, ChunkView, VLogGeometry, VLogPosition,
    PAGE_END_MIN_SIZE,
};
use crate::vlog::header::{is_transaction, lemma_page_header_layout, PageHeader, PAGE_HEADER_ENCODED_LEN};
use crate::vlog::layout::{
    can_go_on, law_planned_record_stays_in_page, leaves_gap, lemma_record_area, planned,
    record_area, LayoutPrelude, PlanView,
};
use crate::vlog::record::{record_at, RecordView};
use crate::vlog::scan::{
    end_of_chunks, is_record, lemma_file_header_length, lemma_one_record, may_follow, scan_chunk,
    scan_chunks, scanned, transaction_of, without_page_ends, ScanView,
};

verus! {

/// A scan has come as far as `count` chunks, where the log is at `at`, and found these records.
spec fn scanned_to(
    scan: ScanView,
    chunks: Seq<ChunkView>,
    count: int,
    at: VLogPosition,
    found: Seq<RecordView>,
) -> bool {
    &&& 0 <= count <= chunks.len()
    &&& scan_chunks(scan, chunks, count) == Ok::<
        Seq<RecordView>,
        StorageErrorKind,
    >(found)
    &&& end_of_chunks(scan, chunks, count) == at
}

/// A scan passes the headers that precede a record area.
proof fn lemma_scan_headers(
    scan: ScanView,
    chunks: Seq<ChunkView>,
    count: int,
    at: VLogPosition,
    found: Seq<RecordView>,
    transaction: TransactionView,
)
    requires
        scan.geometry.valid(),
        scan.database_uuid == transaction.database_uuid,
        transaction.database_uuid.len() == 16,
        scanned_to(scan, chunks, count, at, found),
        can_go_on(scan.geometry, at),
        record_area(scan.geometry, at) is Some,
        ({
            let (headers, start) = record_area(scan.geometry, at)->0;
            &&& count + headers.len() <= chunks.len()
            &&& forall|j: int|
                0 <= j < headers.len() ==> chunks[count + j] == prelude_chunk(
                    transaction.database_uuid,
                    transaction.commit_seq,
                    transaction.tx_uuid,
                    #[trigger] headers[j],
                )
        }),
    ensures
        ({
            let (headers, start) = record_area(scan.geometry, at)->0;
            scanned_to(scan, chunks, count + headers.len(), start, found)
        }),
{
    let geometry = scan.geometry;
    let (headers, start) = record_area(geometry, at)->0;
    let first = if at.offset == geometry.max_file_size {
        VLogPosition { file_id: (at.file_id + 1) as u32, offset: 0 }
    } else {
        at
    };
    lemma_first_page(geometry, first.offset as int);
    if first.offset == 0 {
        assert(chunks[count] == prelude_chunk(
            transaction.database_uuid,
            transaction.commit_seq,
            transaction.tx_uuid,
            headers[0],
        ));
        assert(chunks[count + 1] == prelude_chunk(
            transaction.database_uuid,
            transaction.commit_seq,
            transaction.tx_uuid,
            headers[1],
        ));
        lemma_page_header_layout(PageHeader { file_id: first.file_id, page_no: 0 });
        lemma_page_number(geometry, 0);
        assert(next_position(at, geometry) == Some(first));
        assert(scan_chunks(scan, chunks, count + 1) == scan_chunk(
            scan,
            found,
            at,
            chunks[count],
            count + 1 == 1,
            count + 1 == chunks.len(),
        ));
        let behind = VLogPosition {
            file_id: first.file_id,
            offset: PAGE_HEADER_ENCODED_LEN as u64,
        };
        assert(end_of_chunk(chunks[count]) == behind);
        lemma_first_page(geometry, PAGE_HEADER_ENCODED_LEN as int);
        lemma_page_end(geometry, 0);
        lemma_file_header_length(transaction.database_uuid, first.file_id);
        assert(scan_chunks(scan, chunks, count + 2) == scan_chunk(
            scan,
            found,
            behind,
            chunks[count + 1],
            count + 2 == 1,
            count + 2 == chunks.len(),
        ));
    } else if first.offset % geometry.page_size == 0 {
        assert(chunks[count] == prelude_chunk(
            transaction.database_uuid,
            transaction.commit_seq,
            transaction.tx_uuid,
            headers[0],
        ));
        lemma_page_number(geometry, first.offset as int);
        lemma_page_end(geometry, first.offset as int);
        lemma_page_header_layout(
            PageHeader {
                file_id: first.file_id,
                page_no: (first.offset / geometry.page_size) as u32,
            },
        );
        assert(scan_chunks(scan, chunks, count + 1) == scan_chunk(
            scan,
            found,
            at,
            chunks[count],
            count + 1 == 1,
            count + 1 == chunks.len(),
        ));
    }
}

/// A scan takes a record that may follow.
proof fn lemma_scan_record(
    scan: ScanView,
    chunks: Seq<ChunkView>,
    count: int,
    at: VLogPosition,
    found: Seq<RecordView>,
    record: RecordView,
)
    requires
        scan.geometry.valid(),
        scanned_to(scan, chunks, count, at, found),
        count < chunks.len(),
        chunks[count] == (ChunkView { position: at, bytes: record.bytes() }),
        record_at(record, at, scan.geometry),
        may_follow(scan, found, record, count + 1 == chunks.len()),
        record is PageEnd || record_may_end(end_of_chunk(chunks[count]), scan.geometry),
    ensures
        scanned_to(
            scan,
            chunks,
            count + 1,
            VLogPosition { file_id: at.file_id, offset: (at.offset + record.length()) as u64 },
            found.push(record),
        ),
{
    let geometry = scan.geometry;
    lemma_record_front(record);
    lemma_first_page(geometry, at.offset as int);
    assert(is_record(chunks[count], record, geometry));
    lemma_one_record(chunks[count], record, geometry);
    assert(scan_chunks(scan, chunks, count + 1) == scan_chunk(
        scan,
        found,
        at,
        chunks[count],
        count + 1 == 1,
        count + 1 == chunks.len(),
    ));
}

/// The records found belong to a transaction, and are its first `k` records apart from those
/// that close pages.
spec fn found_prefix(
    transaction: TransactionView,
    records: Seq<RecordView>,
    k: int,
    found: Seq<RecordView>,
) -> bool {
    &&& without_page_ends(found) == records.take(k)
    &&& forall|i: int|
        0 <= i < found.len() ==> (#[trigger] found[i]).commit_seq() == transaction.commit_seq
            && found[i].tx_uuid() == transaction.tx_uuid
    &&& found.len() > 0 ==> !(found.last() is PageEnd)
}

/// The next record of a transaction may follow the ones before it, with or without a record
/// that closes a page in between.
proof fn lemma_next_may_follow(
    scan: ScanView,
    transaction: TransactionView,
    found: Seq<RecordView>,
    k: int,
    is_last_chunk: bool,
)
    requires
        transaction.writable(),
        transaction.operations.len() <= u64::MAX,
        scan.database_uuid == transaction.database_uuid,
        scan.expected_checksum matches Some(expected) ==> expected == transaction.checksum(
            scan.vlog_begin,
            scan.vlog_end,
        ),
        0 <= k < transaction.operations.len() + 2,
        without_page_ends(found) == transaction.records(scan.vlog_begin, scan.vlog_end).take(k),
        forall|i: int|
            0 <= i < found.len() ==> (#[trigger] found[i]).commit_seq() == transaction.commit_seq
                && found[i].tx_uuid() == transaction.tx_uuid,
        k == transaction.operations.len() + 1 ==> is_last_chunk,
    ensures
        may_follow(
            scan,
            found,
            transaction.records(scan.vlog_begin, scan.vlog_end)[k],
            is_last_chunk,
        ),
{
    let all = transaction.records(scan.vlog_begin, scan.vlog_end);
    let records = all.take(k);
    if k == transaction.operations.len() + 1 {
        let t = transaction_of(scan, records);
        assert(t.operations =~= transaction.operations) by {
            assert forall|i: int| 0 <= i < t.operations.len() implies t.operations[i]
                == transaction.operations[i] by {
                assert(records[i + 1] == transaction.operation_record(i));
            }
        }
        assert(t =~= transaction);
    }
}

/// A scan passes the headers of a record area and the record behind them.
proof fn lemma_scan_area(
    scan: ScanView,
    chunks: Seq<ChunkView>,
    count: int,
    at: VLogPosition,
    found: Seq<RecordView>,
    transaction: TransactionView,
    record: RecordView,
)
    requires
        scan.geometry.valid(),
        scan.database_uuid == transaction.database_uuid,
        transaction.database_uuid.len() == 16,
        scanned_to(scan, chunks, count, at, found),
        can_go_on(scan.geometry, at),
        record_area(scan.geometry, at) is Some,
        ({
            let (headers, start) = record_area(scan.geometry, at)->0;
            let last = count + headers.len();
            &&& last < chunks.len()
            &&& forall|j: int|
                0 <= j < headers.len() ==> chunks[count + j] == prelude_chunk(
                    transaction.database_uuid,
                    transaction.commit_seq,
                    transaction.tx_uuid,
                    #[trigger] headers[j],
                )
            &&& chunks[last] == (ChunkView { position: start, bytes: record.bytes() })
            &&& record_at(record, start, scan.geometry)
            &&& may_follow(scan, found, record, last + 1 == chunks.len())
            &&& record is PageEnd || record_may_end(end_of_chunk(chunks[last]), scan.geometry)
        }),
    ensures
        ({
            let (headers, start) = record_area(scan.geometry, at)->0;
            scanned_to(
                scan,
                chunks,
                count + headers.len() + 1,
                VLogPosition {
                    file_id: start.file_id,
                    offset: (start.offset + record.length()) as u64,
                },
                found.push(record),
            )
        }),
{
    let (headers, start) = record_area(scan.geometry, at)->0;
    lemma_scan_headers(scan, chunks, count, at, found, transaction);
    lemma_scan_record(scan, chunks, count + headers.len(), start, found, record);
}

/// The record that closes the page in which a record would leave a gap.
spec fn closing_record(
    geometry: VLogGeometry,
    at: VLogPosition,
    transaction: TransactionView,
) -> RecordView {
    RecordView::PageEnd {
        commit_seq: transaction.commit_seq,
        tx_uuid: transaction.tx_uuid,
        length: geometry.remaining((record_area(geometry, at)->0).1.offset as int) as u32,
    }
}

/// A record leaves a gap in the page that a position is in.
spec fn closes_page(geometry: VLogGeometry, at: VLogPosition, length: u32) -> bool {
    leaves_gap(geometry.remaining((record_area(geometry, at)->0).1.offset as int), length)
}

/// What a scan has found once it passed one more record.
spec fn found_after(
    geometry: VLogGeometry,
    at: VLogPosition,
    transaction: TransactionView,
    found: Seq<RecordView>,
    record: RecordView,
    length: u32,
) -> Seq<RecordView> {
    if closes_page(geometry, at, length) {
        found.push(closing_record(geometry, at, transaction)).push(record)
    } else {
        found.push(record)
    }
}

/// A scan passes one planned record with everything that precedes it.
#[verifier::rlimit(30)]
proof fn lemma_scan_plan(
    scan: ScanView,
    chunks: Seq<ChunkView>,
    count: int,
    at: VLogPosition,
    found: Seq<RecordView>,
    transaction: TransactionView,
    record: RecordView,
    length: u32,
    plan: PlanView,
)
    requires
        scan.geometry.valid(),
        scan.database_uuid == transaction.database_uuid,
        transaction.database_uuid.len() == 16,
        is_transaction(transaction.commit_seq, transaction.tx_uuid),
        scanned_to(scan, chunks, count, at, found),
        can_go_on(scan.geometry, at),
        planned(scan.geometry, at, length) == Ok::<PlanView, ErrorView>(plan),
        record.valid(),
        record.length() == length,
        record matches RecordView::End { vlog_end, .. } ==> vlog_end == plan.next,
        !(record is PageEnd),
        count + plan.preludes.len() < chunks.len(),
        forall|j: int|
            0 <= j < plan.preludes.len() ==> chunks[count + j] == prelude_chunk(
                transaction.database_uuid,
                transaction.commit_seq,
                transaction.tx_uuid,
                #[trigger] plan.preludes[j],
            ),
        chunks[count + plan.preludes.len()] == (ChunkView {
            position: plan.record_start,
            bytes: record.bytes(),
        }),
        ({
            let last = count + plan.preludes.len() + 1 == chunks.len();
            let closing = closing_record(scan.geometry, at, transaction);
            if closes_page(scan.geometry, at, length) {
                &&& may_follow(scan, found, closing, false)
                &&& may_follow(scan, found.push(closing), record, last)
            } else {
                may_follow(scan, found, record, last)
            }
        }),
    ensures
        scanned_to(
            scan,
            chunks,
            count + plan.preludes.len() + 1,
            plan.next,
            found_after(scan.geometry, at, transaction, found, record, length),
        ),
        can_go_on(scan.geometry, plan.next),
{
    let geometry = scan.geometry;
    lemma_record_front(record);
    lemma_plan_shape(geometry, at, length, plan);
    lemma_placed_record(geometry, record, length, plan);
    assert(end_of_chunk(chunks[count + plan.preludes.len()]) == plan.next);
    if !closes_page(geometry, at, length) {
        lemma_scan_area(scan, chunks, count, at, found, transaction, record);
    } else {
        let closing = closing_record(geometry, at, transaction);
        let (headers, start) = record_area(geometry, at)->0;
        let page_end = end_of_page(geometry, at);
        let (more, next_start) = record_area(geometry, page_end)->0;
        assert forall|j: int| 0 <= j < headers.len() implies chunks[count + j] == prelude_chunk(
            transaction.database_uuid,
            transaction.commit_seq,
            transaction.tx_uuid,
            #[trigger] headers[j],
        ) by {
            assert(plan.preludes[j] == headers[j]);
        }
        let at_closing = count + headers.len();
        assert(chunks[at_closing] == prelude_chunk(
            transaction.database_uuid,
            transaction.commit_seq,
            transaction.tx_uuid,
            plan.preludes[headers.len() as int],
        ));
        assert(record_at(closing, start, geometry));
        lemma_scan_area(scan, chunks, count, at, found, transaction, closing);
        lemma_scan_next_page(
            scan,
            chunks,
            at_closing + 1,
            page_end,
            found.push(closing),
            transaction,
            record,
            plan,
            headers.len() as int + 1,
        );
    }
}

/// The second half of a placement that closes a page: the headers of the next page, and the
/// record.
proof fn lemma_scan_next_page(
    scan: ScanView,
    chunks: Seq<ChunkView>,
    count: int,
    at: VLogPosition,
    found: Seq<RecordView>,
    transaction: TransactionView,
    record: RecordView,
    plan: PlanView,
    skipped: int,
)
    requires
        scan.geometry.valid(),
        scan.database_uuid == transaction.database_uuid,
        transaction.database_uuid.len() == 16,
        scanned_to(scan, chunks, count, at, found),
        can_go_on(scan.geometry, at),
        record_area(scan.geometry, at) is Some,
        ({
            let (more, next_start) = record_area(scan.geometry, at)->0;
            let last = count + more.len();
            &&& 0 <= skipped
            &&& plan.preludes.len() == skipped + more.len()
            &&& forall|j: int|
                0 <= j < more.len() ==> #[trigger] more[j] == plan.preludes[skipped + j]
            &&& plan.record_start == next_start
            &&& last < chunks.len()
            &&& forall|j: int|
                0 <= j < plan.preludes.len() ==> chunks[count - skipped + j] == prelude_chunk(
                    transaction.database_uuid,
                    transaction.commit_seq,
                    transaction.tx_uuid,
                    #[trigger] plan.preludes[j],
                )
            &&& chunks[last] == (ChunkView { position: next_start, bytes: record.bytes() })
            &&& record_at(record, next_start, scan.geometry)
            &&& may_follow(scan, found, record, last + 1 == chunks.len())
            &&& record_may_end(end_of_chunk(chunks[last]), scan.geometry)
        }),
    ensures
        scanned_to(
            scan,
            chunks,
            count - skipped + plan.preludes.len() + 1,
            VLogPosition {
                file_id: plan.record_start.file_id,
                offset: (plan.record_start.offset + record.length()) as u64,
            },
            found.push(record),
        ),
{
    let (more, next_start) = record_area(scan.geometry, at)->0;
    assert forall|j: int| 0 <= j < more.len() implies chunks[count + j] == prelude_chunk(
        transaction.database_uuid,
        transaction.commit_seq,
        transaction.tx_uuid,
        #[trigger] more[j],
    ) by {
        assert(chunks[count - skipped + (skipped + j)] == prelude_chunk(
            transaction.database_uuid,
            transaction.commit_seq,
            transaction.tx_uuid,
            plan.preludes[skipped + j],
        ));
    }
    lemma_scan_area(scan, chunks, count, at, found, transaction, record);
}

/// The end of the page in which a record would leave a gap.
spec fn end_of_page(geometry: VLogGeometry, at: VLogPosition) -> VLogPosition {
    let start = (record_area(geometry, at)->0).1;
    VLogPosition {
        file_id: start.file_id,
        offset: (start.offset + geometry.remaining(start.offset as int)) as u64,
    }
}

/// What a plan consists of.
proof fn lemma_plan_shape(
    geometry: VLogGeometry,
    at: VLogPosition,
    length: u32,
    plan: PlanView,
)
    requires
        geometry.valid(),
        can_go_on(geometry, at),
        planned(geometry, at, length) == Ok::<PlanView, ErrorView>(plan),
    ensures
        record_area(geometry, at) is Some,
        record_fits(length as nat, plan.record_start, geometry),
        record_may_end(plan.next, geometry),
        can_go_on(geometry, plan.next),
        plan.next == (VLogPosition {
            file_id: plan.record_start.file_id,
            offset: (plan.record_start.offset + length) as u64,
        }),
        ({
            let (headers, start) = record_area(geometry, at)->0;
            &&& geometry.record_may_start(start)
            &&& !closes_page(geometry, at, length) ==> plan.preludes == headers
                && plan.record_start == start
            &&& closes_page(geometry, at, length) ==> {
                let remaining = geometry.remaining(start.offset as int);
                let page_end = end_of_page(geometry, at);
                let (more, next_start) = record_area(geometry, page_end)->0;
                &&& PAGE_END_MIN_SIZE <= remaining <= u32::MAX
                &&& start.offset + remaining <= geometry.max_file_size
                &&& can_go_on(geometry, page_end)
                &&& record_area(geometry, page_end) is Some
                &&& plan.record_start == next_start
                &&& plan.preludes.len() == headers.len() + 1 + more.len()
                &&& forall|j: int|
                    0 <= j < headers.len() ==> #[trigger] headers[j] == plan.preludes[j]
                &&& plan.preludes[headers.len() as int] == (LayoutPrelude::PageEnd {
                    position: start,
                    encoded_len: remaining as u32,
                })
                &&& forall|j: int|
                    0 <= j < more.len() ==> #[trigger] more[j] == plan.preludes[headers.len() + 1
                        + j]
            }
        }),
{
    law_planned_record_stays_in_page(geometry, at, length);
    let (headers, start) = record_area(geometry, at)->0;
    lemma_record_area(geometry, at);
    lemma_page_end(geometry, start.offset as int);
    lemma_advance_to_page_end(geometry, start.offset as int);
}

/// A record of the planned length may stand where it was planned.
proof fn lemma_placed_record(
    geometry: VLogGeometry,
    record: RecordView,
    length: u32,
    plan: PlanView,
)
    requires
        record.valid(),
        record.length() == length,
        !(record is PageEnd),
        record_fits(length as nat, plan.record_start, geometry),
        plan.next == (VLogPosition {
            file_id: plan.record_start.file_id,
            offset: (plan.record_start.offset + length) as u64,
        }),
        record matches RecordView::End { vlog_end, .. } ==> vlog_end == plan.next,
    ensures
        record_at(record, plan.record_start, geometry),
{
}

/// A scan passes one more record of a transaction with everything that precedes it.
proof fn lemma_scan_placement(
    scan: ScanView,
    chunks: Seq<ChunkView>,
    count: int,
    at: VLogPosition,
    found: Seq<RecordView>,
    transaction: TransactionView,
    k: int,
    plan: PlanView,
) -> (next_found: Seq<RecordView>)
    requires
        scan.geometry.valid(),
        transaction.writable(),
        transaction.operations.len() <= u64::MAX,
        scan.database_uuid == transaction.database_uuid,
        scan.expected_checksum matches Some(expected) ==> expected == transaction.checksum(
            scan.vlog_begin,
            scan.vlog_end,
        ),
        0 <= k < transaction.operations.len() + 2,
        scanned_to(scan, chunks, count, at, found),
        can_go_on(scan.geometry, at),
        planned(scan.geometry, at, transaction.lengths()[k]) == Ok::<PlanView, ErrorView>(plan),
        ({
            let record = transaction.records(scan.vlog_begin, scan.vlog_end)[k];
            let placed = placement_chunks(transaction, plan, record);
            &&& record.valid()
            &&& record.length() == transaction.lengths()[k]
            &&& record matches RecordView::End { vlog_end, .. } ==> vlog_end == plan.next
            &&& count + placed.len() <= chunks.len()
            &&& k == transaction.operations.len() + 1 ==> count + placed.len() == chunks.len()
            &&& chunks.subrange(count, count + placed.len()) == placed
        }),
        found_prefix(
            transaction,
            transaction.records(scan.vlog_begin, scan.vlog_end),
            k,
            found,
        ),
    ensures
        scanned_to(scan, chunks, count + plan.preludes.len() + 1, plan.next, next_found),
        found_prefix(
            transaction,
            transaction.records(scan.vlog_begin, scan.vlog_end),
            k + 1,
            next_found,
        ),
        can_go_on(scan.geometry, plan.next),
{
    let geometry = scan.geometry;
    let length = transaction.lengths()[k];
    let all = transaction.records(scan.vlog_begin, scan.vlog_end);
    let record = all[k];
    let placed = placement_chunks(transaction, plan, record);
    let last = count + plan.preludes.len();
    assert forall|j: int| 0 <= j < plan.preludes.len() implies chunks[count + j] == prelude_chunk(
        transaction.database_uuid,
        transaction.commit_seq,
        transaction.tx_uuid,
        #[trigger] plan.preludes[j],
    ) by {
        assert(chunks.subrange(count, count + placed.len())[j] == chunks[count + j]);
        assert(placed[j] == prelude_chunk(
            transaction.database_uuid,
            transaction.commit_seq,
            transaction.tx_uuid,
            plan.preludes[j],
        ));
    }
    assert(chunks.subrange(count, count + placed.len())[plan.preludes.len() as int]
        == chunks[last]);
    let closing = closing_record(geometry, at, transaction);
    let closed = found.push(closing);
    assert(closed.drop_last() =~= found);
    assert(all.take(k).push(record) =~= all.take(k + 1));
    if without_page_ends(found).len() > 0 {
        assert(without_page_ends(found).last() == all[k - 1]);
    }
    lemma_next_may_follow(scan, transaction, found, k, last + 1 == chunks.len());
    lemma_next_may_follow(scan, transaction, closed, k, last + 1 == chunks.len());
    assert(may_follow(scan, found, closing, false));
    lemma_scan_plan(scan, chunks, count, at, found, transaction, record, length, plan);
    let next = found_after(geometry, at, transaction, found, record, length);
    assert(found.push(record).drop_last() =~= found);
    assert(closed.push(record).drop_last() =~= closed);
    next
}

/// The chunks of the first placements come first.
proof fn lemma_chunk_prefix(
    transaction: TransactionView,
    plans: Seq<PlanView>,
    records: Seq<RecordView>,
    k: int,
)
    requires
        plans.len() == records.len(),
        0 <= k < plans.len(),
    ensures
        ({
            let all = envelope_chunks(transaction, plans, records);
            let before = chunk_total(plans.take(k)) as int;
            let placed = placement_chunks(transaction, plans[k], records[k]);
            &&& before + placed.len() <= all.len()
            &&& all.subrange(before, before + placed.len()) == placed
            &&& k == plans.len() - 1 ==> before + placed.len() == all.len()
            &&& chunk_total(plans.take(k + 1)) == before + placed.len()
        }),
    decreases plans.len(),
{
    let all = envelope_chunks(transaction, plans, records);
    let front = envelope_chunks(transaction, plans.drop_last(), records.drop_last());
    let before = chunk_total(plans.take(k)) as int;
    let placed = placement_chunks(transaction, plans[k], records[k]);
    assert(plans.take(k + 1).drop_last() =~= plans.take(k));
    if k == plans.len() - 1 {
        assert(plans.take(k) =~= plans.drop_last());
        lemma_total_is_length(transaction, plans.drop_last(), records.drop_last());
        assert(all.subrange(before, before + placed.len()) =~= placed);
    } else {
        lemma_chunk_prefix(transaction, plans.drop_last(), records.drop_last(), k);
        assert(plans.drop_last().take(k) =~= plans.take(k));
        assert(all.subrange(before, before + placed.len()) =~= front.subrange(
            before,
            before + placed.len(),
        ));
    }
}

/// Every record lies in some chunk, where it was placed.
pub proof fn lemma_record_chunk(
    transaction: TransactionView,
    plans: Seq<PlanView>,
    records: Seq<RecordView>,
    k: int,
) -> (at: int)
    requires
        plans.len() == records.len(),
        0 <= k < plans.len(),
    ensures
        0 <= at < envelope_chunks(transaction, plans, records).len(),
        envelope_chunks(transaction, plans, records)[at] == (ChunkView {
            position: plans[k].record_start,
            bytes: records[k].bytes(),
        }),
{
    lemma_chunk_prefix(transaction, plans, records, k);
    let all = envelope_chunks(transaction, plans, records);
    let before = chunk_total(plans.take(k)) as int;
    let placed = placement_chunks(transaction, plans[k], records[k]);
    let at = before + placed.len() - 1;
    assert(all.subrange(before, before + placed.len())[placed.len() - 1] == all[at]);
    at
}

proof fn lemma_total_is_length(
    transaction: TransactionView,
    plans: Seq<PlanView>,
    records: Seq<RecordView>,
)
    requires
        plans.len() == records.len(),
    ensures
        envelope_chunks(transaction, plans, records).len() == chunk_total(plans),
    decreases plans.len(),
{
    if plans.len() > 0 {
        lemma_total_is_length(transaction, plans.drop_last(), records.drop_last());
    }
}

/// The position before the plan of a record, and the plan itself, among the plans of several.
proof fn lemma_plan_at(
    geometry: VLogGeometry,
    position: VLogPosition,
    lengths: Seq<u32>,
    k: int,
)
    requires
        0 <= k < lengths.len(),
        planned_all(geometry, position, lengths) is Ok,
    ensures
        ({
            let plans = (planned_all(geometry, position, lengths)->Ok_0).0;
            let before = planned_all(geometry, position, lengths.take(k));
            &&& before is Ok
            &&& plans.len() == lengths.len()
            &&& planned(geometry, (before->Ok_0).1, lengths[k]) == Ok::<
                PlanView,
                ErrorView,
            >(plans[k])
            &&& planned_all(geometry, position, lengths.take(k + 1)) is Ok
            &&& (planned_all(geometry, position, lengths.take(k + 1))->Ok_0).1 == plans[k].next
        }),
    decreases lengths.len(),
{
    lemma_plan_count(geometry, position, lengths.drop_last());
    if k == lengths.len() - 1 {
        assert(lengths.take(k) =~= lengths.drop_last());
        assert(lengths.take(k + 1) =~= lengths);
    } else {
        lemma_plan_at(geometry, position, lengths.drop_last(), k);
        assert(lengths.drop_last().take(k) =~= lengths.take(k));
        assert(lengths.drop_last().take(k + 1) =~= lengths.take(k + 1));
    }
}

proof fn lemma_plan_count(geometry: VLogGeometry, position: VLogPosition, lengths: Seq<u32>)
    requires
        planned_all(geometry, position, lengths) is Ok,
    ensures
        (planned_all(geometry, position, lengths)->Ok_0).0.len() == lengths.len(),
    decreases lengths.len(),
{
    if lengths.len() > 0 {
        lemma_plan_count(geometry, position, lengths.drop_last());
    }
}

/// A scan passes the first `k` records of an envelope.
proof fn lemma_scan_prefix(
    scan: ScanView,
    transaction: TransactionView,
    plans: Seq<PlanView>,
    k: int,
) -> (found: Seq<RecordView>)
    requires
        scan.geometry.valid(),
        can_go_on(scan.geometry, scan.vlog_begin),
        transaction.writable(),
        transaction.operations.len() + 2 <= usize::MAX,
        scan.database_uuid == transaction.database_uuid,
        scan.expected_checksum matches Some(expected) ==> expected == transaction.checksum(
            scan.vlog_begin,
            scan.vlog_end,
        ),
        planned_all(scan.geometry, scan.vlog_begin, transaction.lengths()) == Ok::<
            (Seq<PlanView>, VLogPosition),
            ErrorView,
        >((plans, scan.vlog_end)),
        0 <= k <= transaction.operations.len() + 2,
    ensures
        ({
            let records = transaction.records(scan.vlog_begin, scan.vlog_end);
            let chunks = envelope_chunks(transaction, plans, records);
            let at = (planned_all(
                scan.geometry,
                scan.vlog_begin,
                transaction.lengths().take(k),
            )->Ok_0).1;
            &&& scanned_to(scan, chunks, chunk_total(plans.take(k)) as int, at, found)
            &&& found_prefix(transaction, records, k, found)
            &&& can_go_on(scan.geometry, at)
        }),
    decreases k,
{
    let geometry = scan.geometry;
    let lengths = transaction.lengths();
    let records = transaction.records(scan.vlog_begin, scan.vlog_end);
    let chunks = envelope_chunks(transaction, plans, records);
    lemma_planned_all(geometry, scan.vlog_begin, lengths);
    if k == 0 {
        assert(records.take(0) =~= Seq::empty());
        Seq::empty()
    } else {
        let found = lemma_scan_prefix(scan, transaction, plans, k - 1);
        let at = (planned_all(geometry, scan.vlog_begin, lengths.take(k - 1))->Ok_0).1;
        lemma_plan_at(geometry, scan.vlog_begin, lengths, k - 1);
        lemma_chunk_prefix(transaction, plans, records, k - 1);
        lemma_records_valid(
            transaction,
            scan.vlog_begin,
            scan.vlog_end,
            transaction.checksum(scan.vlog_begin, scan.vlog_end),
        );
        if k == transaction.operations.len() + 2 {
            assert(lengths.take(k) =~= lengths);
        } else if k > 1 {
            assert(records[k - 1] == transaction.operation_record(k - 2));
        }
        lemma_scan_placement(
            scan,
            chunks,
            chunk_total(plans.take(k - 1)) as int,
            at,
            found,
            transaction,
            k - 1,
            plans[k - 1],
        )
    }
}

/// What is written for a transaction is found again: a scan of the prepared chunks, with or
/// without the checksum known beforehand, gives the transaction back.
pub proof fn law_prepared_envelope_scans_back(
    geometry: VLogGeometry,
    position: VLogPosition,
    transaction: TransactionView,
    expected_checksum: Option<u32>,
)
    requires
        geometry.valid(),
        can_go_on(geometry, position),
        envelope(geometry, position, transaction) is Ok,
        expected_checksum matches Some(expected) ==> expected == (envelope(
            geometry,
            position,
            transaction,
        )->Ok_0).envelope_crc32c,
    ensures
        ({
            let written = envelope(geometry, position, transaction)->Ok_0;
            scanned(
                ScanView {
                    geometry,
                    database_uuid: transaction.database_uuid,
                    vlog_begin: position,
                    vlog_end: written.vlog_end,
                    expected_checksum,
                },
                written.chunks,
            ) == Ok::<TransactionView, StorageErrorKind>(transaction)
        }),
{
    let written = envelope(geometry, position, transaction)->Ok_0;
    let lengths = transaction.lengths();
    let (plans, vlog_end) = planned_all(geometry, position, lengths)->Ok_0;
    let scan = ScanView {
        geometry,
        database_uuid: transaction.database_uuid,
        vlog_begin: position,
        vlog_end,
        expected_checksum,
    };
    let n = transaction.operations.len() + 2;
    let records = transaction.records(position, vlog_end);
    let found = lemma_scan_prefix(scan, transaction, plans, n as int);
    lemma_planned_all(geometry, position, lengths);
    lemma_total_is_length(transaction, plans, records);
    assert(lengths.take(n as int) =~= lengths);
    assert(plans.take(n as int) =~= plans);
    assert(records.take(n as int) =~= records);
    let front = records.drop_last();
    let t = transaction_of(scan, front);
    assert(t.operations =~= transaction.operations) by {
        assert forall|i: int| 0 <= i < t.operations.len() implies t.operations[i]
            == transaction.operations[i] by {
            assert(front[i + 1] == transaction.operation_record(i));
        }
    }
    assert(t =~= transaction);
    lemma_first_chunk(scan, written.chunks);
}

/// A scan that passes its first chunk found it where the envelope begins.
proof fn lemma_first_chunk(scan: ScanView, chunks: Seq<ChunkView>)
    requires
        chunks.len() > 0,
        scan_chunks(scan, chunks, chunks.len() as int) is Ok,
    ensures
        next_position(scan.vlog_begin, scan.geometry) == Some(chunks[0].position),
{
    lemma_passed(scan, chunks, 1, chunks.len() as int);
    assert(scan_chunks(scan, chunks, 0) == Ok::<
        Seq<RecordView>,
        StorageErrorKind,
    >(Seq::empty()));
}

proof fn lemma_passed(scan: ScanView, chunks: Seq<ChunkView>, count: int, upto: int)
    requires
        0 <= count <= upto,
        scan_chunks(scan, chunks, upto) is Ok,
    ensures
        scan_chunks(scan, chunks, count) is Ok,
    decreases upto,
{
    if count < upto {
        lemma_passed(scan, chunks, count, upto - 1);
    }
}

} // verus!
