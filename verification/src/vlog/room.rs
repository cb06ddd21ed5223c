//! Where records go: to the first place behind the end of the log that takes them whole.

use vstd::prelude::*;

use crate::batch::OperationView;
use crate::commit::prepare::{lemma_operation_fits, CommitInputs};
use crate::vlog::envelope::{
    chunk_total, envelope, lemma_chunk_total, operation_fits, operation_length, planned_all,
    TransactionView,
};
use crate::vlog::geometry::{
    lemma_advance_in_page, lemma_advance_to_page_end, lemma_first_page, lemma_page_end,
    record_may_end, VLogGeometry, VLogPosition,
};
use crate::vlog::layout::{
    can_go_on, law_planned_record_stays_in_page, lemma_record_area, planned, record_area, PlanView,
};
use crate::vlog::reader::production;

verus! {

/// The first place for a record in a page that begins at an offset of a file: behind the header
/// of the page, and behind that of the file in the first one.
pub open spec fn first_place(file_id: u32, page_start: int) -> VLogPosition {
    VLogPosition {
        file_id,
        offset: (if page_start == 0 {
            64
        } else {
            page_start + 16
        }) as u64,
    }
}

/// The first place for a record in the first page behind a page boundary of the log.
pub open spec fn place_behind(geometry: VLogGeometry, file_id: u32, page_end: int) -> VLogPosition {
    if page_end == geometry.max_file_size {
        first_place((file_id + 1) as u32, 0)
    } else {
        first_place(file_id, page_end)
    }
}

/// A record follows the last one directly where it fills the page, or leaves enough of it to
/// close it later. Otherwise it begins the next page, and where the file is full, the next file.
/// As long as there is another file, there is a place for it.
pub proof fn law_record_goes_to_first_place(
    geometry: VLogGeometry,
    position: VLogPosition,
    encoded_len: u32,
)
    requires
        geometry.valid(),
        can_go_on(geometry, position),
        record_may_end(position, geometry),
        43 <= encoded_len,
        encoded_len + 107 <= geometry.page_size,
        position.file_id < geometry.max_file_id,
    ensures
        planned(geometry, position, encoded_len) is Ok,
        ({
            let plan = planned(geometry, position, encoded_len)->Ok_0;
            let left = geometry.remaining(position.offset as int);
            let between = position.offset % geometry.page_size != 0;
            let takes = encoded_len == left || encoded_len + 43 <= left;
            &&& plan.record_start == (if !between {
                place_behind(geometry, position.file_id, position.offset as int)
            } else if takes {
                position
            } else {
                place_behind(geometry, position.file_id, position.offset + left)
            })
            &&& plan.preludes.len() == 0 <==> between && takes
            &&& plan.preludes.len() <= 3
            &&& plan.next == (VLogPosition {
                file_id: plan.record_start.file_id,
                offset: (plan.record_start.offset + encoded_len) as u64,
            })
        }),
{
    lemma_first_page(geometry, position.offset as int);
    let (headers, start) = record_area(geometry, position)->0;
    lemma_record_area(geometry, position);
    lemma_page_end(geometry, start.offset as int);
    lemma_first_page(geometry, start.offset as int);
    if position.offset < geometry.max_file_size {
        lemma_page_end(geometry, position.offset as int);
    }
    if start.offset == 64 {
        lemma_page_end(geometry, 0);
        lemma_advance_in_page(geometry, 0, 64);
    } else if position.offset % geometry.page_size == 0 {
        lemma_advance_in_page(geometry, position.offset as int, 16);
    } else {
        lemma_advance_to_page_end(geometry, position.offset as int);
        let behind = VLogPosition {
            file_id: position.file_id,
            offset: (position.offset + geometry.remaining(position.offset as int)) as u64,
        };
        lemma_record_area(geometry, behind);
        let (more, next) = record_area(geometry, behind)->0;
        lemma_page_end(geometry, next.offset as int);
        lemma_page_end(geometry, 0);
        lemma_advance_in_page(geometry, 0, 64);
        if behind.offset < geometry.max_file_size {
            lemma_page_end(geometry, behind.offset as int);
            lemma_advance_in_page(geometry, behind.offset as int, 16);
        }
    }
    law_planned_record_stays_in_page(geometry, position, encoded_len);
}

proof fn lemma_records_find_room(
    geometry: VLogGeometry,
    position: VLogPosition,
    lengths: Seq<u32>,
)
    requires
        geometry.valid(),
        can_go_on(geometry, position),
        record_may_end(position, geometry),
        forall|i: int|
            0 <= i < lengths.len() ==> 43 <= #[trigger] lengths[i] && lengths[i] + 107
                <= geometry.page_size,
        position.file_id + lengths.len() <= geometry.max_file_id,
    ensures
        planned_all(geometry, position, lengths) is Ok,
        ({
            let (plans, end) = planned_all(geometry, position, lengths)->Ok_0;
            &&& plans.len() == lengths.len()
            &&& can_go_on(geometry, end)
            &&& record_may_end(end, geometry)
            &&& end.file_id <= position.file_id + lengths.len()
            &&& chunk_total(plans) <= 4 * lengths.len()
            &&& lengths.len() == 0 ==> end == position
            &&& forall|i: int|
                0 <= i < lengths.len() ==> planned(
                    geometry,
                    if i == 0 {
                        position
                    } else {
                        plans[i - 1].next
                    },
                    lengths[i],
                ) == Ok::<PlanView, crate::error::ErrorView>(#[trigger] plans[i])
            &&& lengths.len() > 0 ==> end == plans.last().next
        }),
    decreases lengths.len(),
{
    if lengths.len() > 0 {
        let front = lengths.drop_last();
        assert forall|i: int| 0 <= i < front.len() implies 43 <= #[trigger] front[i] && front[i]
            + 107 <= geometry.page_size by {
            assert(front[i] == lengths[i]);
        }
        lemma_records_find_room(geometry, position, front);
        let (plans, at) = planned_all(geometry, position, front)->Ok_0;
        assert(43 <= lengths[lengths.len() - 1]);
        law_record_goes_to_first_place(geometry, at, lengths.last());
        law_planned_record_stays_in_page(geometry, at, lengths.last());
        let plan = planned(geometry, at, lengths.last())->Ok_0;
        assert(plans.push(plan).drop_last() =~= plans);
    }
}

/// A transaction is laid out wherever the log can go on and has as many files left as the
/// transaction has records: its records go to the log one behind the other, each to the first
/// place behind the one before it, and the pointer to a value names the place of its record.
pub proof fn law_transaction_finds_room(
    geometry: VLogGeometry,
    position: VLogPosition,
    transaction: TransactionView,
)
    requires
        geometry.valid(),
        geometry.page_size >= 60_162,
        can_go_on(geometry, position),
        record_may_end(position, geometry),
        transaction.writable(),
        position.file_id + transaction.operations.len() + 2 <= geometry.max_file_id,
        4 * (transaction.operations.len() + 2) <= usize::MAX,
    ensures
        envelope(geometry, position, transaction) is Ok,
        ({
            let written = envelope(geometry, position, transaction)->Ok_0;
            let lengths = transaction.lengths();
            let (plans, end) = planned_all(geometry, position, lengths)->Ok_0;
            &&& written.commit_seq == transaction.commit_seq
            &&& written.tx_uuid == transaction.tx_uuid
            &&& written.vlog_begin == position
            &&& written.vlog_end == plans.last().next
            &&& record_may_end(written.vlog_end, geometry)
            &&& plans.len() == transaction.operations.len() + 2
            &&& forall|i: int|
                0 <= i < plans.len() ==> planned(
                    geometry,
                    if i == 0 {
                        position
                    } else {
                        plans[i - 1].next
                    },
                    lengths[i],
                ) == Ok::<PlanView, crate::error::ErrorView>(#[trigger] plans[i])
            &&& written.value_pointers.len() == transaction.operations.len()
            &&& forall|i: int|
                0 <= i < transaction.operations.len() ==> (
                match #[trigger] transaction.operations[i] {
                    OperationView::Put { key, value } => written.value_pointers[i] matches Some(
                        pointer,
                    ) && pointer.file_id == plans[i + 1].record_start.file_id
                        && pointer.record_offset == plans[i + 1].record_start.offset
                        && pointer.value_len == value.len() && pointer.record_len == 55 + key.len()
                        + value.len(),
                    OperationView::Delete { key } => written.value_pointers[i] is None,
                })
        }),
{
    let lengths = transaction.lengths();
    assert forall|i: int| 0 <= i < lengths.len() implies 43 <= #[trigger] lengths[i] && lengths[i]
        + 107 <= geometry.page_size by {
        if 0 < i <= transaction.operations.len() {
            assert(operation_fits(transaction.operations[i - 1]));
            assert(lengths[i] == operation_length(transaction.operations[i - 1]));
        }
    }
    lemma_records_find_room(geometry, position, lengths);
    let (plans, end) = planned_all(geometry, position, lengths)->Ok_0;
    let records = transaction.records(position, end);
    lemma_chunk_total(transaction, plans, records);
    assert forall|i: int| 0 <= i < transaction.operations.len() implies plans[i + 1].encoded_len
        == #[trigger] operation_length(transaction.operations[i]) && plans[i
        + 1].record_start.offset <= u32::MAX by {
        assert(operation_fits(transaction.operations[i]));
        let j = i + 1;
        assert(planned(
            geometry,
            plans[j - 1].next,
            lengths[j],
        ) == Ok::<PlanView, crate::error::ErrorView>(plans[j]));
        lemma_plan_start(geometry, position, lengths, j);
    }
}

/// A planned record starts inside a file.
proof fn lemma_plan_start(
    geometry: VLogGeometry,
    position: VLogPosition,
    lengths: Seq<u32>,
    i: int,
)
    requires
        geometry.valid(),
        can_go_on(geometry, position),
        planned_all(geometry, position, lengths) is Ok,
        0 <= i < lengths.len(),
    ensures
        ({
            let (plans, end) = planned_all(geometry, position, lengths)->Ok_0;
            &&& plans[i].encoded_len == lengths[i]
            &&& plans[i].record_start.offset < geometry.max_file_size
        }),
{
    crate::vlog::envelope::lemma_planned_all(geometry, position, lengths);
}

/// A checked write can be prepared as a commit wherever the log can go on and has enough files
/// left: the commit takes the next number and begins where the log ends.
pub proof fn law_checked_write_can_be_prepared(inputs: CommitInputs)
    requires
        inputs.valid(),
        inputs.geometry == production(),
        can_go_on(inputs.geometry, inputs.append_cursor),
        record_may_end(inputs.append_cursor, inputs.geometry),
        inputs.append_cursor.file_id + inputs.write.operations.len() + 2 <= 999_999,
        4 * (inputs.write.operations.len() + 2) <= usize::MAX,
    ensures
        inputs.prepared() is Ok,
        ({
            let prepared = inputs.prepared()->Ok_0;
            &&& prepared.commit_seq == inputs.head_seq + 1
            &&& prepared.tx_uuid == inputs.tx_uuid
            &&& prepared.sync == inputs.write.sync
            &&& prepared.vlog_begin == inputs.append_cursor
            &&& can_go_on(inputs.geometry, prepared.vlog_end)
            &&& record_may_end(prepared.vlog_end, inputs.geometry)
            &&& prepared.envelope.vlog_begin == prepared.vlog_begin
            &&& prepared.envelope.vlog_end == prepared.vlog_end
            &&& prepared.envelope.commit_seq == prepared.commit_seq
            &&& prepared.envelope.tx_uuid == prepared.tx_uuid
        }),
{
    let transaction = inputs.transaction();
    assert forall|i: int| 0 <= i < transaction.operations.len() implies operation_fits(
        #[trigger] transaction.operations[i],
    ) by {
        lemma_operation_fits(inputs.write.operations, inputs.write.public_operation, i);
    }
    law_transaction_finds_room(inputs.geometry, inputs.append_cursor, transaction);
    crate::vlog::envelope::lemma_planned_all(
        inputs.geometry,
        inputs.append_cursor,
        transaction.lengths(),
    );
}

} // verus!
