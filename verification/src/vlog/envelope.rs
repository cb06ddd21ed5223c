//! Envelopes: a transaction as a sequence of records, laid out in the pages of the log.

use vstd::prelude::*;

use crate::batch::OperationView;
use crate::checksum::crc32c_appended;
use crate::error::{ErrorView, Result, StorageError, StorageErrorKind};
use crate::key_index::KeyIndex;
use crate::memory::{asked, asked_within, Memory};
use crate::vlog::decode::lemma_record_front;
use crate::vlog::envelope_crc::{canonical, envelope_checksum, EnvelopeCrc32c};
use crate::vlog::geometry::{
    chunk_views, decode_error, decode_view, invalid_vlog_error, invalid_vlog_view,
    lemma_advance_to_page_end, lemma_page_end, lemma_page_number, position_before, record_fits,
    record_may_end, ChunkView, PhysicalChunk, VLogGeometry, VLogPosition, MAX_VLOG_FILE_ID,
};
use crate::vlog::header::{
    is_identifier, is_nonzero_uuid, is_transaction, lemma_file_header_layout,
    lemma_page_header_layout, new_file_header, validate_identity, PageHeader, VLogFileHeader,
    FILE_HEADER_ENCODED_LEN, MAX_PAGE_NO, PAGE_HEADER_ENCODED_LEN,
};
use crate::vlog::layout::{
    can_go_on, hands_out, leaves_gap, lemma_record_area, record_area, law_planned_record_stays_in_page, planned, LayoutPlanner, LayoutPrelude,
    PlanView, RecordPlacement,
};
use crate::vlog::pointer::{
    ValuePointer, KV_RECORD_FIXED_LEN_WITH_CRC, MAX_PAYLOAD_LEN, VALUE_POINTER_FORMAT_VERSION,
};
use crate::vlog::record::{
    encode_delete_record, encode_kv_record, encode_page_end, encode_tx_begin,
    encode_tx_prepared_end, encodes, page_can_be_closed, DeleteRecordRef, KvRecordRef, RecordView,
    TxBegin, TxPreparedEnd, DELETE_RECORD_FIXED_LEN, TX_BEGIN_ENCODED_LEN,
    TX_PREPARED_END_ENCODED_LEN,
};

verus! {

/// One operation of a transaction, with borrowed bytes.
#[derive(Clone, Copy, Debug)]
pub enum LogicalOperationRef<'a> {
    Put { key: &'a [u8], value: &'a [u8] },
    Delete { key: &'a [u8] },
}

impl View for LogicalOperationRef<'_> {
    type V = OperationView;

    open spec fn view(&self) -> OperationView {
        match self {
            LogicalOperationRef::Put { key, value } => OperationView::Put {
                key: key@,
                value: value@,
            },
            LogicalOperationRef::Delete { key } => OperationView::Delete { key: key@ },
        }
    }
}

pub fn operation_key<'a>(operation: LogicalOperationRef<'a>) -> (key: &'a [u8])
    ensures
        key@ == operation@.key(),
{
    match operation {
        LogicalOperationRef::Put { key, value } => key,
        LogicalOperationRef::Delete { key } => key,
    }
}

/// Operations as mathematical values.
pub open spec fn operation_views(operations: Seq<LogicalOperationRef<'_>>) -> Seq<OperationView> {
    Seq::new(operations.len(), |i: int| operations[i]@)
}

/// A transaction as it is written to the log of a database.
#[verifier::ext_equal]
pub struct TransactionView {
    pub database_uuid: Seq<u8>,
    pub commit_seq: u64,
    pub tx_uuid: Seq<u8>,
    pub operations: Seq<OperationView>,
}

/// An operation fits a record.
pub open spec fn operation_fits(operation: OperationView) -> bool {
    match operation {
        OperationView::Put { key, value } => 0 < key.len() && key.len() + value.len()
            <= MAX_PAYLOAD_LEN,
        OperationView::Delete { key } => 0 < key.len() <= MAX_PAYLOAD_LEN,
    }
}

/// The keys that operations write or remove.
pub open spec fn key_set(operations: Seq<OperationView>) -> Set<Seq<u8>> {
    Set::new(|key: Seq<u8>| exists|i: int| has_key_at(operations, i, key))
}

pub open spec fn has_key_at(operations: Seq<OperationView>, i: int, key: Seq<u8>) -> bool {
    0 <= i < operations.len() && operations[i].key() == key
}

/// The number of puts among operations.
pub open spec fn put_count(operations: Seq<OperationView>) -> nat
    decreases operations.len(),
{
    if operations.len() == 0 {
        0
    } else {
        put_count(operations.drop_last()) + (if operations.last() is Put {
            1nat
        } else {
            0
        })
    }
}

impl TransactionView {
    /// A transaction that can be written: it and its database are identified, and it has
    /// operations, each of which fits a record.
    pub open spec fn writable(self) -> bool {
        self.identified() && self.operations_fit()
    }

    pub open spec fn identified(self) -> bool {
        &&& is_transaction(self.commit_seq, self.tx_uuid)
        &&& is_identifier(self.database_uuid)
        &&& 0 < self.operations.len()
    }

    pub open spec fn operations_fit(self) -> bool {
        forall|i: int|
            0 <= i < self.operations.len() ==> operation_fits(#[trigger] self.operations[i])
    }

    pub open spec fn begin_record(self, vlog_begin: VLogPosition) -> RecordView {
        RecordView::Begin {
            commit_seq: self.commit_seq,
            tx_uuid: self.tx_uuid,
            vlog_begin,
            logical_op_count: self.operations.len() as u64,
            distinct_key_count: key_set(self.operations).len() as u64,
        }
    }

    pub open spec fn operation_record(self, i: int) -> RecordView {
        record_of_operation(self.commit_seq, self.tx_uuid, i as u64, self.operations[i])
    }

    /// The end record, with the checksum that it stores.
    pub open spec fn end_record(
        self,
        vlog_begin: VLogPosition,
        vlog_end: VLogPosition,
        envelope_crc32c: u32,
    ) -> RecordView {
        RecordView::End {
            commit_seq: self.commit_seq,
            tx_uuid: self.tx_uuid,
            vlog_begin,
            vlog_end,
            logical_op_count: self.operations.len() as u64,
            distinct_key_count: key_set(self.operations).len() as u64,
            kv_record_count: put_count(self.operations) as u64,
            delete_record_count: (self.operations.len() - put_count(self.operations)) as u64,
            envelope_crc32c,
        }
    }

    /// The begin record and the first `count` operation records.
    pub open spec fn records_before_end(self, vlog_begin: VLogPosition, count: int) -> Seq<
        RecordView,
    > {
        Seq::new(
            (count + 1) as nat,
            |i: int|
                if i == 0 {
                    self.begin_record(vlog_begin)
                } else {
                    self.operation_record(i - 1)
                },
        )
    }

    /// The checksum of the envelope.
    pub open spec fn checksum(self, vlog_begin: VLogPosition, vlog_end: VLogPosition) -> u32 {
        envelope_checksum(
            self.records_before_end(vlog_begin, self.operations.len() as int).push(
                self.end_record(vlog_begin, vlog_end, 0),
            ),
        )
    }

    /// All records of the envelope, in order.
    pub open spec fn records(self, vlog_begin: VLogPosition, vlog_end: VLogPosition) -> Seq<
        RecordView,
    > {
        self.records_before_end(vlog_begin, self.operations.len() as int).push(
            self.end_record(vlog_begin, vlog_end, self.checksum(vlog_begin, vlog_end)),
        )
    }

    /// The lengths of the records, which do not depend on where they go.
    pub open spec fn lengths(self) -> Seq<u32> {
        Seq::new(
            self.operations.len() + 2,
            |i: int|
                if i == 0 {
                    TX_BEGIN_ENCODED_LEN
                } else if i == self.operations.len() + 1 {
                    TX_PREPARED_END_ENCODED_LEN
                } else {
                    operation_length(self.operations[i - 1])
                },
        )
    }
}

/// The record of an operation of a transaction.
pub open spec fn record_of_operation(
    commit_seq: u64,
    tx_uuid: Seq<u8>,
    op_index: u64,
    operation: OperationView,
) -> RecordView {
    match operation {
        OperationView::Put { key, value } => RecordView::Put {
            commit_seq,
            tx_uuid,
            op_index,
            key,
            value,
        },
        OperationView::Delete { key } => RecordView::Delete { commit_seq, tx_uuid, op_index, key },
    }
}

/// The length of the record of an operation.
pub open spec fn operation_length(operation: OperationView) -> u32 {
    match operation {
        OperationView::Put { key, value } => (KV_RECORD_FIXED_LEN_WITH_CRC + key.len()
            + value.len()) as u32,
        OperationView::Delete { key } => (DELETE_RECORD_FIXED_LEN + key.len()) as u32,
    }
}

/// The placements of records of some lengths, one behind the other, and the position behind
/// the last.
pub open spec fn planned_all(
    geometry: VLogGeometry,
    position: VLogPosition,
    lengths: Seq<u32>,
) -> std::result::Result<(Seq<PlanView>, VLogPosition), ErrorView>
    decreases lengths.len(),
{
    if lengths.len() == 0 {
        Ok((Seq::empty(), position))
    } else {
        match planned_all(geometry, position, lengths.drop_last()) {
            Err(refusal) => Err(refusal),
            Ok((plans, at)) => match planned(geometry, at, lengths.last()) {
                Err(refusal) => Err(refusal),
                Ok(plan) => Ok((plans.push(plan), plan.next)),
            },
        }
    }
}

/// What is written for something that precedes a record.
pub open spec fn prelude_chunk(
    database_uuid: Seq<u8>,
    commit_seq: u64,
    tx_uuid: Seq<u8>,
    prelude: LayoutPrelude,
) -> ChunkView {
    match prelude {
        LayoutPrelude::PageHeader { position, page_no } => ChunkView {
            position,
            bytes: (PageHeader { file_id: position.file_id, page_no }).encoded(),
        },
        LayoutPrelude::FileHeader { position } => ChunkView {
            position,
            bytes: new_file_header(database_uuid, position.file_id),
        },
        LayoutPrelude::PageEnd { position, encoded_len } => ChunkView {
            position,
            bytes: (RecordView::PageEnd {
                commit_seq,
                tx_uuid,
                length: encoded_len,
            }).bytes(),
        },
    }
}

/// What is written before a record.
pub open spec fn placement_prelude_chunks(
    database_uuid: Seq<u8>,
    commit_seq: u64,
    tx_uuid: Seq<u8>,
    preludes: Seq<LayoutPrelude>,
) -> Seq<ChunkView> {
    Seq::new(
        preludes.len(),
        |i: int| prelude_chunk(database_uuid, commit_seq, tx_uuid, preludes[i]),
    )
}

/// The chunks of one placement: what precedes the record, then the record.
pub open spec fn placement_chunks(
    transaction: TransactionView,
    plan: PlanView,
    record: RecordView,
) -> Seq<ChunkView> {
    placement_prelude_chunks(
        transaction.database_uuid,
        transaction.commit_seq,
        transaction.tx_uuid,
        plan.preludes,
    ).push(ChunkView { position: plan.record_start, bytes: record.bytes() })
}

/// The chunks of the placements of several records.
pub open spec fn envelope_chunks(
    transaction: TransactionView,
    plans: Seq<PlanView>,
    records: Seq<RecordView>,
) -> Seq<ChunkView>
    decreases plans.len(),
{
    if plans.len() == 0 {
        Seq::empty()
    } else {
        envelope_chunks(transaction, plans.drop_last(), records.drop_last()) + placement_chunks(
            transaction,
            plans.last(),
            records.last(),
        )
    }
}

/// The pointer to the record of an operation, if it is a put.
pub open spec fn value_pointer(plan: PlanView, operation: OperationView) -> Option<ValuePointer> {
    match operation {
        OperationView::Put { key, value } => Some(
            ValuePointer {
                format_version: VALUE_POINTER_FORMAT_VERSION,
                file_id: plan.record_start.file_id,
                record_offset: plan.record_start.offset as u32,
                record_len: plan.encoded_len,
                value_len: value.len() as u16,
            },
        ),
        OperationView::Delete { key } => None,
    }
}

/// An envelope that is ready to be written.
#[derive(Clone, Debug)]
pub struct PreparedEnvelope {
    pub commit_seq: u64,
    pub tx_uuid: [u8; 16],
    pub vlog_begin: VLogPosition,
    pub vlog_end: VLogPosition,
    pub envelope_crc32c: u32,
    pub chunks: Vec<PhysicalChunk>,
    pub value_pointers: Vec<Option<ValuePointer>>,
}

/// A prepared envelope as a mathematical value.
#[verifier::ext_equal]
pub struct EnvelopeView {
    pub commit_seq: u64,
    pub tx_uuid: Seq<u8>,
    pub vlog_begin: VLogPosition,
    pub vlog_end: VLogPosition,
    pub envelope_crc32c: u32,
    pub chunks: Seq<ChunkView>,
    pub value_pointers: Seq<Option<ValuePointer>>,
}

impl View for PreparedEnvelope {
    type V = EnvelopeView;

    open spec fn view(&self) -> EnvelopeView {
        EnvelopeView {
            commit_seq: self.commit_seq,
            tx_uuid: self.tx_uuid@,
            vlog_begin: self.vlog_begin,
            vlog_end: self.vlog_end,
            envelope_crc32c: self.envelope_crc32c,
            chunks: chunk_views(self.chunks@),
            value_pointers: self.value_pointers@,
        }
    }
}

/// The envelope of a transaction behind a position of the log.
pub open spec fn envelope(
    geometry: VLogGeometry,
    position: VLogPosition,
    transaction: TransactionView,
) -> std::result::Result<EnvelopeView, ErrorView> {
    if !transaction.identified() {
        Err(invalid_vlog_view(StorageErrorKind::InvalidArgument))
    } else if transaction.operations.len() + 2 > usize::MAX {
        Err(invalid_vlog_view(StorageErrorKind::CapacityExceeded))
    } else if !transaction.operations_fit() {
        Err(invalid_vlog_view(StorageErrorKind::InvalidArgument))
    } else {
        match planned_all(geometry, position, transaction.lengths()) {
            Err(refusal) => Err(refusal),
            Ok((plans, vlog_end)) => {
                let chunks = envelope_chunks(
                    transaction,
                    plans,
                    transaction.records(position, vlog_end),
                );
                if chunks.len() > usize::MAX {
                    Err(invalid_vlog_view(StorageErrorKind::CapacityExceeded))
                } else {
                    Ok(
                        EnvelopeView {
                            commit_seq: transaction.commit_seq,
                            tx_uuid: transaction.tx_uuid,
                            vlog_begin: position,
                            vlog_end,
                            envelope_crc32c: transaction.checksum(position, vlog_end),
                            chunks,
                            value_pointers: Seq::new(
                                transaction.operations.len(),
                                |i: int| value_pointer(plans[i + 1], transaction.operations[i]),
                            ),
                        },
                    )
                }
            },
        }
    }
}

pub proof fn lemma_put_count(operations: Seq<OperationView>)
    ensures
        put_count(operations) <= operations.len(),
    decreases operations.len(),
{
    if operations.len() > 0 {
        lemma_put_count(operations.drop_last());
    }
}

/// There are no more keys than operations, and at least one key if there is an operation.
pub proof fn lemma_key_count(operations: Seq<OperationView>)
    ensures
        key_set(operations).finite(),
        key_set(operations).len() <= operations.len(),
        operations.len() > 0 ==> key_set(operations).len() > 0,
    decreases operations.len(),
{
    if operations.len() == 0 {
        assert(key_set(operations) =~= Set::empty());
    } else {
        lemma_key_count(operations.drop_last());
        lemma_key_set_push(operations);
        assert(has_key_at(operations, operations.len() - 1, operations.last().key()));
        assert(key_set(operations).contains(operations.last().key()));
        if key_set(operations).len() == 0 {
            assert(key_set(operations) =~= Set::empty());
        }
    }
}

/// The keys of operations are those of all but the last, and the last one's.
pub proof fn lemma_key_set_push(operations: Seq<OperationView>)
    requires
        operations.len() > 0,
    ensures
        key_set(operations) == key_set(operations.drop_last()).insert(operations.last().key()),
{
    let front = operations.drop_last();
    assert forall|key: Seq<u8>|
        key_set(operations).contains(key) == key_set(front).insert(
            operations.last().key(),
        ).contains(key) by {
        if key_set(operations).contains(key) {
            let i = choose|i: int| has_key_at(operations, i, key);
            if i < front.len() {
                assert(has_key_at(front, i, key));
            }
        }
        if key_set(front).contains(key) {
            let i = choose|i: int| has_key_at(front, i, key);
            assert(has_key_at(operations, i, key));
        }
        if key == operations.last().key() {
            assert(has_key_at(operations, operations.len() - 1, key));
        }
    }
    assert(key_set(operations) =~= key_set(front).insert(operations.last().key()));
}

/// The placements of all records: the log only grows, and can go on behind the last.
pub proof fn lemma_planned_all(geometry: VLogGeometry, position: VLogPosition, lengths: Seq<u32>)
    requires
        geometry.valid(),
        can_go_on(geometry, position),
        planned_all(geometry, position, lengths) is Ok,
    ensures
        ({
            let (plans, end) = planned_all(geometry, position, lengths)->Ok_0;
            &&& plans.len() == lengths.len()
            &&& can_go_on(geometry, end)
            &&& lengths.len() == 0 ==> end == position
            &&& lengths.len() > 0 ==> position_before(position, end)
            &&& forall|i: int|
                0 <= i < plans.len() ==> {
                    &&& record_fits(lengths[i] as nat, (#[trigger] plans[i]).record_start, geometry)
                    &&& plans[i].encoded_len == lengths[i]
                    &&& record_may_end(plans[i].next, geometry)
                }
        }),
    decreases lengths.len(),
{
    if lengths.len() > 0 {
        let (plans, at) = planned_all(geometry, position, lengths.drop_last())->Ok_0;
        lemma_planned_all(geometry, position, lengths.drop_last());
        law_planned_record_stays_in_page(geometry, at, lengths.last());
    }
}

/// The first records are planned as they are alone.
pub proof fn lemma_planned_prefix(
    geometry: VLogGeometry,
    position: VLogPosition,
    lengths: Seq<u32>,
    count: int,
)
    requires
        0 <= count <= lengths.len(),
    ensures
        planned_all(geometry, position, lengths.take(count)) matches Err(refusal) ==> planned_all(
            geometry,
            position,
            lengths,
        ) == Err::<(Seq<PlanView>, VLogPosition), ErrorView>(refusal),
    decreases lengths.len() - count,
{
    if count == lengths.len() {
        assert(lengths.take(count) =~= lengths);
    } else {
        let longer = lengths.take(count + 1);
        assert(longer.drop_last() =~= lengths.take(count));
        lemma_planned_prefix(geometry, position, lengths, count + 1);
    }
}

/// The records of a writable transaction are valid, whatever checksum its end record stores.
pub proof fn lemma_records_valid(
    transaction: TransactionView,
    vlog_begin: VLogPosition,
    vlog_end: VLogPosition,
    stored: u32,
)
    requires
        transaction.writable(),
        transaction.operations.len() <= u64::MAX,
        vlog_begin.valid(),
        vlog_end.valid(),
        position_before(vlog_begin, vlog_end),
    ensures
        transaction.begin_record(vlog_begin).valid(),
        transaction.end_record(vlog_begin, vlog_end, stored).valid(),
        forall|i: int|
            0 <= i < transaction.operations.len() ==> (#[trigger] transaction.operation_record(
                i,
            )).valid(),
        transaction.begin_record(vlog_begin).length() == TX_BEGIN_ENCODED_LEN,
        forall|i: int|
            0 <= i < transaction.operations.len() ==> (#[trigger] transaction.operation_record(
                i,
            )).length() == operation_length(transaction.operations[i]),
{
    lemma_key_count(transaction.operations);
    lemma_put_count(transaction.operations);
    assert forall|i: int| 0 <= i < transaction.operations.len() implies {
        &&& (#[trigger] transaction.operation_record(i)).valid()
        &&& transaction.operation_record(i).length() == operation_length(transaction.operations[i])
    } by {
        assert(operation_fits(transaction.operations[i]));
    }
}

/// The counts of a transaction and the lengths of its records.
struct Measures {
    lengths: Vec<u32>,
    distinct_key_count: u64,
    kv_record_count: u64,
    delete_record_count: u64,
}

/// Checks the operations of a transaction and measures its records.
fn measure(memory: &mut Memory, operations: &[LogicalOperationRef<'_>]) -> (result: Result<
    Measures,
>)
    requires
        !old(memory).refused(),
    ensures
        final(memory).refused() ==> (result matches Err(error) && error@ == invalid_vlog_view(
            StorageErrorKind::ResourceExhausted,
        )),
        !final(memory).refused() ==> ({
            let views = operation_views(operations@);
            match result {
                Ok(measures) => {
                    &&& views.len() + 2 <= usize::MAX
                    &&& forall|i: int| 0 <= i < views.len() ==> operation_fits(#[trigger] views[i])
                    &&& measures.lengths@ == (TransactionView {
                        database_uuid: Seq::empty(),
                        commit_seq: 0,
                        tx_uuid: Seq::empty(),
                        operations: views,
                    }).lengths()
                    &&& measures.distinct_key_count == key_set(views).len()
                    &&& measures.kv_record_count == put_count(views)
                    &&& measures.delete_record_count == views.len() - put_count(views)
                },
                Err(error) => {
                    ||| views.len() + 2 > usize::MAX && error@ == invalid_vlog_view(
                        StorageErrorKind::CapacityExceeded,
                    )
                    ||| {
                        &&& views.len() + 2 <= usize::MAX
                        &&& error@ == invalid_vlog_view(StorageErrorKind::InvalidArgument)
                        &&& exists|i: int|
                            0 <= i < views.len() && !operation_fits(#[trigger] views[i])
                    }
                },
            }
        }),
        asked_within(*old(memory), *final(memory), 3, operations@.len() + 2),
        result is Ok ==> asked(*old(memory), *final(memory), 3, operations@.len() + 2),
        old(memory).due_within(3) ==> final(memory).refused() || operations@.len() + 2 > usize::MAX,
{
    let ghost views = operation_views(operations@);
    let ghost expected = (TransactionView {
        database_uuid: Seq::empty(),
        commit_seq: 0,
        tx_uuid: Seq::empty(),
        operations: views,
    }).lengths();
    let mut distinct: KeyIndex = match KeyIndex::reserved(memory, operations.len()) {
        Some(index) => index,
        None => return Err(invalid_vlog_error(StorageErrorKind::ResourceExhausted)),
    };
    let record_count: usize = match operations.len().checked_add(2) {
        Some(count) => count,
        None => return Err(invalid_vlog_error(StorageErrorKind::CapacityExceeded)),
    };
    let mut lengths: Vec<u32> = Vec::new();
    if !memory.reserve(&mut lengths, record_count) {
        return Err(invalid_vlog_error(StorageErrorKind::ResourceExhausted));
    }
    lengths.push(TX_BEGIN_ENCODED_LEN);
    let mut kv_record_count: u64 = 0;
    let mut i: usize = 0;
    proof {
        assert(views.take(0) =~= Seq::empty());
        assert(key_set(views.take(0)) =~= Set::empty());
        assert(lengths@ =~= expected.take(1));
        assert(distinct@.dom() =~= Set::empty());
    }
    while i < operations.len()
        invariant
            !old(memory).refused(),
            asked(*old(memory), *memory, 3, operations@.len() + 2),
            i <= operations@.len(),
            operations@.len() + 2 <= usize::MAX,
            !memory.refused(),
            views == operation_views(operations@),
            expected == (TransactionView {
                database_uuid: Seq::empty(),
                commit_seq: 0,
                tx_uuid: Seq::empty(),
                operations: views,
            }).lengths(),
            forall|k: int| 0 <= k < i ==> operation_fits(#[trigger] views[k]),
            lengths@ == expected.take(i + 1),
            distinct@.dom() == key_set(views.take(i as int)),
            kv_record_count == put_count(views.take(i as int)),
            kv_record_count <= i,
        decreases operations@.len() - i,
    {
        let operation = operations[i];
        proof {
            assert(views[i as int] == operation@);
            assert(views.take(i + 1).drop_last() =~= views.take(i as int));
            lemma_key_set_push(views.take(i + 1));
        }
        match operation {
            LogicalOperationRef::Put { key, value } => {
                if key.len() == 0 || key.len() > MAX_PAYLOAD_LEN as usize || value.len()
                    > MAX_PAYLOAD_LEN as usize || key.len() + value.len()
                    > MAX_PAYLOAD_LEN as usize {
                    proof {
                        assert(!operation_fits(views[i as int]));
                    }
                    return Err(invalid_vlog_error(StorageErrorKind::InvalidArgument));
                }
                lengths.push(
                    KV_RECORD_FIXED_LEN_WITH_CRC + key.len() as u32 + value.len() as u32,
                );
                kv_record_count = kv_record_count + 1;
                distinct.insert(key, i);
            },
            LogicalOperationRef::Delete { key } => {
                if key.len() == 0 || key.len() > MAX_PAYLOAD_LEN as usize {
                    proof {
                        assert(!operation_fits(views[i as int]));
                    }
                    return Err(invalid_vlog_error(StorageErrorKind::InvalidArgument));
                }
                lengths.push(DELETE_RECORD_FIXED_LEN + key.len() as u32);
                distinct.insert(key, i);
            },
        }
        proof {
            assert(distinct@.dom() =~= key_set(views.take(i + 1)));
            assert(expected.take(i + 2) =~= expected.take(i + 1).push(
                operation_length(views[i as int]),
            ));
        }
        i = i + 1;
    }
    lengths.push(TX_PREPARED_END_ENCODED_LEN);
    proof {
        assert(views.take(i as int) =~= views);
        assert(lengths@ =~= expected);
        lemma_put_count(views);
    }
    Ok(
        Measures {
            lengths,
            distinct_key_count: distinct.len() as u64,
            kv_record_count,
            delete_record_count: operations.len() as u64 - kv_record_count,
        },
    )
}


/// Placements as the planner hands them out for plans.
pub open spec fn hands_out_all(placements: Seq<RecordPlacement>, plans: Seq<PlanView>) -> bool {
    placements.len() == plans.len() && forall|i: int|
        0 <= i < plans.len() ==> hands_out(#[trigger] placements[i], plans[i])
}

/// Places records of some lengths, one behind the other.
fn plan_all(memory: &mut Memory, planner: &mut LayoutPlanner, lengths: &Vec<u32>) -> (result: Result<
    Vec<RecordPlacement>,
>)
    requires
        !old(memory).refused(),
    ensures
        final(planner).spec_geometry() == old(planner).spec_geometry(),
        final(memory).refused() ==> (result matches Err(error) && error@ == invalid_vlog_view(
            StorageErrorKind::ResourceExhausted,
        )),
        !final(memory).refused() ==> match planned_all(
            old(planner).spec_geometry(),
            old(planner).spec_position(),
            lengths@,
        ) {
            Ok((plans, end)) => {
                &&& result matches Ok(placements) && hands_out_all(placements@, plans)
                &&& final(planner).spec_position() == end
            },
            Err(refusal) => result matches Err(error) && error@ == refusal,
        },
        asked_within(*old(memory), *final(memory), 1 + lengths@.len(), lengths@.len() + 4),
        planned_all(
            old(planner).spec_geometry(),
            old(planner).spec_position(),
            lengths@,
        ) is Ok ==> asked(*old(memory), *final(memory), 1 + lengths@.len(), lengths@.len() + 4),
{
    let ghost geometry = planner.spec_geometry();
    let ghost position = planner.spec_position();
    let ghost mut plans: Seq<PlanView> = Seq::empty();
    let mut placements: Vec<RecordPlacement> = Vec::new();
    if !memory.reserve(&mut placements, lengths.len()) {
        return Err(invalid_vlog_error(StorageErrorKind::ResourceExhausted));
    }
    let mut i: usize = 0;
    while i < lengths.len()
        invariant
            !old(memory).refused(),
            asked(*old(memory), *memory, 1 + i as nat, lengths@.len() + 4),
            i <= lengths@.len(),
            !memory.refused(),
            planner.spec_geometry() == geometry,
            geometry == old(planner).spec_geometry(),
            position == old(planner).spec_position(),
            planned_all(geometry, position, lengths@.take(i as int)) == Ok::<
                (Seq<PlanView>, VLogPosition),
                ErrorView,
            >((plans, planner.spec_position())),
            hands_out_all(placements@, plans),
        decreases lengths@.len() - i,
    {
        proof {
            assert(lengths@.take(i + 1).drop_last() =~= lengths@.take(i as int));
            lemma_planned_prefix(geometry, position, lengths@, i + 1);
        }
        let ghost at = planner.spec_position();
        let placement = planner.plan_record(memory, lengths[i])?;
        proof {
            plans = plans.push(planned(geometry, at, lengths@[i as int])->Ok_0);
        }
        placements.push(placement);
        i = i + 1;
    }
    proof {
        assert(lengths@.take(i as int) =~= lengths@);
    }
    Ok(placements)
}

/// Something that precedes a record can be written: its numbers are in range, and a record
/// that closes a page fills it.
pub open spec fn prelude_writable(geometry: VLogGeometry, prelude: LayoutPrelude) -> bool {
    match prelude {
        LayoutPrelude::PageHeader { position, page_no } => position.file_id <= MAX_VLOG_FILE_ID
            && page_no <= MAX_PAGE_NO,
        LayoutPrelude::FileHeader { position } => position.file_id <= MAX_VLOG_FILE_ID,
        LayoutPrelude::PageEnd { position, encoded_len } => page_can_be_closed(position, geometry)
            && encoded_len == geometry.remaining(position.offset as int),
    }
}

proof fn lemma_area_writable(geometry: VLogGeometry, position: VLogPosition)
    requires
        geometry.valid(),
        can_go_on(geometry, position),
        record_area(geometry, position) is Some,
    ensures
        forall|i: int|
            0 <= i < (record_area(geometry, position)->0).0.len() ==> prelude_writable(
                geometry,
                #[trigger] (record_area(geometry, position)->0).0[i],
            ),
{
    if position.offset < geometry.max_file_size {
        lemma_page_number(geometry, position.offset as int);
    }
}

/// Whatever precedes a planned record can be written.
pub proof fn lemma_plan_writable(geometry: VLogGeometry, position: VLogPosition, encoded_len: u32)
    requires
        geometry.valid(),
        can_go_on(geometry, position),
        planned(geometry, position, encoded_len) is Ok,
    ensures
        forall|i: int|
            0 <= i < (planned(geometry, position, encoded_len)->Ok_0).preludes.len()
                ==> prelude_writable(
                geometry,
                #[trigger] (planned(geometry, position, encoded_len)->Ok_0).preludes[i],
            ),
{
    let (headers, start) = record_area(geometry, position)->0;
    lemma_area_writable(geometry, position);
    lemma_record_area(geometry, position);
    lemma_page_end(geometry, start.offset as int);
    let remaining = geometry.remaining(start.offset as int);
    if leaves_gap(remaining, encoded_len) {
        lemma_advance_to_page_end(geometry, start.offset as int);
        let page_end = VLogPosition {
            file_id: start.file_id,
            offset: (start.offset + remaining) as u64,
        };
        lemma_area_writable(geometry, page_end);
    }
}

/// Whatever precedes any of several planned records can be written.
proof fn lemma_plans_writable(geometry: VLogGeometry, position: VLogPosition, lengths: Seq<u32>)
    requires
        geometry.valid(),
        can_go_on(geometry, position),
        planned_all(geometry, position, lengths) is Ok,
    ensures
        forall|i: int, j: int|
            0 <= i < (planned_all(geometry, position, lengths)->Ok_0).0.len() && 0 <= j
                < (planned_all(geometry, position, lengths)->Ok_0).0[i].preludes.len()
                ==> prelude_writable(
                geometry,
                #[trigger] (planned_all(geometry, position, lengths)->Ok_0).0[i].preludes[j],
            ),
    decreases lengths.len(),
{
    if lengths.len() > 0 {
        let (plans, at) = planned_all(geometry, position, lengths.drop_last())->Ok_0;
        lemma_plans_writable(geometry, position, lengths.drop_last());
        lemma_planned_all(geometry, position, lengths.drop_last());
        lemma_plan_writable(geometry, at, lengths.last());
        let all = planned_all(geometry, position, lengths)->Ok_0;
        assert forall|i: int, j: int|
            0 <= i < all.0.len() && 0 <= j < all.0[i].preludes.len() implies prelude_writable(
            geometry,
            #[trigger] all.0[i].preludes[j],
        ) by {
            if i < plans.len() {
                assert(all.0[i].preludes[j] == plans[i].preludes[j]);
            }
        }
    }
}

/// An owned chunk of structure.
fn structural_chunk(memory: &mut Memory, position: VLogPosition, encoded: &[u8]) -> (result: Result<
    PhysicalChunk,
>)
    requires
        !old(memory).refused(),
    ensures
        match result {
            Ok(chunk) => !final(memory).refused() && chunk@ == (ChunkView {
                position,
                bytes: encoded@,
            }),
            Err(error) => final(memory).refused() && error@ == invalid_vlog_view(
                StorageErrorKind::ResourceExhausted,
            ),
        },
        asked(*old(memory), *final(memory), 1, encoded@.len()),
{
    match memory.copy(encoded) {
        Some(bytes) => Ok(PhysicalChunk { position, bytes }),
        None => Err(invalid_vlog_error(StorageErrorKind::ResourceExhausted)),
    }
}

/// The most bytes that are written at once: what fills a page, or a header.
pub open spec fn most_in_page(geometry: VLogGeometry) -> nat {
    geometry.page_size as nat + PAGE_HEADER_ENCODED_LEN as nat + FILE_HEADER_ENCODED_LEN as nat
}

/// Appends the chunks of one placement: what precedes the record, then the record. Where memory
/// is refused, what was appended before that stays.
pub fn append_placement(
    memory: &mut Memory,
    chunks: &mut Vec<PhysicalChunk>,
    placement: &RecordPlacement,
    record_bytes: Vec<u8>,
    database_uuid: [u8; 16],
    commit_seq: u64,
    tx_uuid: [u8; 16],
    geometry: VLogGeometry,
) -> (result: Result<()>)
    requires
        !old(memory).refused(),
        geometry.valid(),
        is_identifier(database_uuid@),
        is_transaction(commit_seq, tx_uuid@),
        forall|i: int|
            0 <= i < placement.preludes@.len() ==> prelude_writable(
                geometry,
                #[trigger] placement.preludes@[i],
            ),
    ensures
        if record_bytes@.len() != placement.encoded_len {
            &&& !final(memory).refused()
            &&& final(chunks)@ == old(chunks)@
            &&& result matches Err(error) && error@ == decode_view(StorageErrorKind::InvalidLayout)
        } else if final(memory).refused() {
            let count = final(chunks)@.len() - old(chunks)@.len();
            &&& result matches Err(error) && error@ == invalid_vlog_view(
                StorageErrorKind::ResourceExhausted,
            )
            &&& 0 <= count < placement.preludes@.len()
            &&& chunk_views(final(chunks)@) == chunk_views(old(chunks)@) + placement_prelude_chunks(
                database_uuid@,
                commit_seq,
                tx_uuid@,
                placement.preludes@,
            ).take(count)
        } else {
            &&& result is Ok
            &&& chunk_views(final(chunks)@) == chunk_views(old(chunks)@) + placement_prelude_chunks(
                database_uuid@,
                commit_seq,
                tx_uuid@,
                placement.preludes@,
            ).push(ChunkView { position: placement.record_start, bytes: record_bytes@ })
        },
        if record_bytes@.len() != placement.encoded_len {
            *final(memory) == *old(memory)
        } else {
            asked(
                *old(memory),
                *final(memory),
                placement.preludes@.len(),
                most_in_page(geometry),
            )
        },
{
    if record_bytes.len() != placement.encoded_len as usize {
        return Err(decode_error(StorageErrorKind::InvalidLayout));
    }
    let ghost before = chunk_views(chunks@);
    let ghost expected = placement_prelude_chunks(
        database_uuid@,
        commit_seq,
        tx_uuid@,
        placement.preludes@,
    );
    let mut i: usize = 0;
    proof {
        assert(chunk_views(chunks@) =~= before + expected.take(0));
    }
    while i < placement.preludes.len()
        invariant
            !old(memory).refused(),
            asked(*old(memory), *memory, i as nat, most_in_page(geometry)),
            i <= placement.preludes@.len(),
            !memory.refused(),
            geometry.valid(),
            is_identifier(database_uuid@),
            is_transaction(commit_seq, tx_uuid@),
            forall|k: int|
                0 <= k < placement.preludes@.len() ==> prelude_writable(
                    geometry,
                    #[trigger] placement.preludes@[k],
                ),
            record_bytes@.len() == placement.encoded_len,
            expected == placement_prelude_chunks(
                database_uuid@,
                commit_seq,
                tx_uuid@,
                placement.preludes@,
            ),
            before == chunk_views(old(chunks)@),
            expected.len() == placement.preludes@.len(),
            chunk_views(chunks@) == before + expected.take(i as int),
            chunks@.len() == old(chunks)@.len() + i,
        decreases placement.preludes@.len() - i,
    {
        let prelude = placement.preludes[i];
        proof {
            assert(prelude_writable(geometry, placement.preludes@[i as int]));
        }
        let chunk = match prelude {
            LayoutPrelude::PageHeader { position, page_no } => {
                let encoded = PageHeader { file_id: position.file_id, page_no }.encode()?;
                proof {
                    lemma_page_header_layout(PageHeader { file_id: position.file_id, page_no });
                }
                structural_chunk(memory, position, encoded.as_slice())?
            },
            LayoutPrelude::FileHeader { position } => {
                let header = VLogFileHeader::new(database_uuid, position.file_id);
                proof {
                    lemma_file_header_layout(header);
                }
                let encoded = header.encode()?;
                structural_chunk(memory, position, encoded.as_slice())?
            },
            LayoutPrelude::PageEnd { position, encoded_len } => {
                proof {
                    lemma_page_end(geometry, position.offset as int);
                }
                let bytes = encode_page_end(memory, commit_seq, tx_uuid, position, geometry)?;
                PhysicalChunk { position, bytes }
            },
        };
        let ghost held = chunks@;
        chunks.push(chunk);
        proof {
            assert(expected[i as int] == chunk@);
            assert(expected.take(i + 1) =~= expected.take(i as int).push(chunk@));
            assert(chunk_views(chunks@) =~= chunk_views(held).push(chunk@));
            assert(chunk_views(chunks@) =~= before + expected.take(i + 1));
        }
        i = i + 1;
    }
    let ghost held = chunks@;
    chunks.push(PhysicalChunk { position: placement.record_start, bytes: record_bytes });
    proof {
        let record = ChunkView { position: placement.record_start, bytes: record_bytes@ };
        assert(expected.take(i as int) =~= expected);
        assert(chunk_views(chunks@) =~= chunk_views(held).push(record));
        assert((before + expected).push(record) =~= before + expected.push(record));
    }
    Ok(())
}

/// The record of an operation, carried into the checksum of its envelope.
fn update_operation(
    crc: &mut EnvelopeCrc32c,
    commit_seq: u64,
    tx_uuid: [u8; 16],
    op_index: u64,
    operation: LogicalOperationRef<'_>,
) -> (result: Result<()>)
    requires
        is_transaction(commit_seq, tx_uuid@),
        operation_fits(operation@),
    ensures
        result is Ok,
        final(crc)@ == crc32c_appended(
            old(crc)@,
            canonical(record_of_operation(commit_seq, tx_uuid@, op_index, operation@)),
        ),
{
    match operation {
        LogicalOperationRef::Put { key, value } => crc.update_kv_record(
            KvRecordRef { commit_seq, tx_uuid, op_index, key, value },
        ),
        LogicalOperationRef::Delete { key } => crc.update_delete_record(
            DeleteRecordRef { commit_seq, tx_uuid, op_index, key },
        ),
    }
}

/// The checksum of an envelope.
fn compute_checksum(
    Ghost(transaction): Ghost<TransactionView>,
    begin: TxBegin,
    operations: &[LogicalOperationRef<'_>],
    footer: TxPreparedEnd,
) -> (result: Result<u32>)
    requires
        transaction.writable(),
        transaction.operations == operation_views(operations@),
        begin.record() == transaction.begin_record(begin.vlog_begin),
        footer.record() == transaction.end_record(begin.vlog_begin, footer.vlog_end, 0),
        begin.record().valid(),
        footer.record().valid(),
    ensures
        result == Ok::<u32, StorageError>(
            transaction.checksum(begin.vlog_begin, footer.vlog_end),
        ),
{
    let ghost at = begin.vlog_begin;
    let mut crc = EnvelopeCrc32c::new();
    crc.update_tx_begin(begin)?;
    proof {
        let records = transaction.records_before_end(at, 0);
        assert(records.drop_last() =~= Seq::empty());
        assert(records.last() == transaction.begin_record(at));
        assert(crc@ == envelope_checksum(records));
    }
    let mut i: usize = 0;
    while i < operations.len()
        invariant
            i <= operations@.len(),
            transaction.writable(),
            transaction.operations == operation_views(operations@),
            begin.record() == transaction.begin_record(at),
            crc@ == envelope_checksum(transaction.records_before_end(at, i as int)),
        decreases operations@.len() - i,
    {
        proof {
            assert(operation_fits(transaction.operations[i as int]));
            let records = transaction.records_before_end(at, i + 1);
            assert(records.drop_last() =~= transaction.records_before_end(at, i as int));
            assert(records.last() == transaction.operation_record(i as int));
        }
        update_operation(&mut crc, begin.commit_seq, begin.tx_uuid, i as u64, operations[i])?;
        i = i + 1;
    }
    proof {
        let records = transaction.records_before_end(at, i as int);
        let end = transaction.end_record(at, footer.vlog_end, 0);
        assert(records.push(end).drop_last() =~= records);
    }
    crc.finish_with_footer(footer)
}

/// The encoded record of an operation.
fn encode_operation(
    memory: &mut Memory,
    commit_seq: u64,
    tx_uuid: [u8; 16],
    op_index: u64,
    operation: LogicalOperationRef<'_>,
) -> (result: Result<Vec<u8>>)
    requires
        !old(memory).refused(),
        is_transaction(commit_seq, tx_uuid@),
        operation_fits(operation@),
    ensures
        encodes(
            result,
            true,
            record_of_operation(commit_seq, tx_uuid@, op_index, operation@).bytes(),
            final(memory).refused(),
        ),
        asked(
            *old(memory),
            *final(memory),
            1,
            record_of_operation(commit_seq, tx_uuid@, op_index, operation@).length(),
        ),
{
    match operation {
        LogicalOperationRef::Put { key, value } => encode_kv_record(
            memory,
            KvRecordRef { commit_seq, tx_uuid, op_index, key, value },
        ),
        LogicalOperationRef::Delete { key } => encode_delete_record(
            memory,
            DeleteRecordRef { commit_seq, tx_uuid, op_index, key },
        ),
    }
}

/// The number of chunks of several placements.
pub open spec fn chunk_total(plans: Seq<PlanView>) -> nat
    decreases plans.len(),
{
    if plans.len() == 0 {
        0
    } else {
        chunk_total(plans.drop_last()) + plans.last().preludes.len() + 1
    }
}

pub proof fn lemma_chunk_total(
    transaction: TransactionView,
    plans: Seq<PlanView>,
    records: Seq<RecordView>,
)
    requires
        plans.len() == records.len(),
    ensures
        envelope_chunks(transaction, plans, records).len() == chunk_total(plans),
    decreases plans.len(),
{
    if plans.len() > 0 {
        lemma_chunk_total(transaction, plans.drop_last(), records.drop_last());
    }
}

proof fn lemma_chunk_total_grows(plans: Seq<PlanView>, count: int)
    requires
        0 <= count <= plans.len(),
    ensures
        chunk_total(plans.take(count)) <= chunk_total(plans),
    decreases plans.len() - count,
{
    if count < plans.len() {
        lemma_chunk_total_grows(plans, count + 1);
        assert(plans.take(count + 1).drop_last() =~= plans.take(count));
    } else {
        assert(plans.take(count) =~= plans);
    }
}

/// The number of chunks of placements, or `None` where it does not fit a `usize`.
fn chunk_capacity(Ghost(plans): Ghost<Seq<PlanView>>, placements: &Vec<RecordPlacement>) -> (capacity:
    Option<usize>)
    requires
        hands_out_all(placements@, plans),
    ensures
        match capacity {
            Some(total) => total == chunk_total(plans),
            None => chunk_total(plans) > usize::MAX,
        },
{
    let mut total: usize = 0;
    let mut i: usize = 0;
    while i < placements.len()
        invariant
            i <= placements@.len(),
            hands_out_all(placements@, plans),
            total == chunk_total(plans.take(i as int)),
        decreases placements@.len() - i,
    {
        proof {
            assert(plans.take(i + 1).drop_last() =~= plans.take(i as int));
            assert(hands_out(placements@[i as int], plans[i as int]));
            lemma_chunk_total_grows(plans, i + 1);
        }
        let preludes: usize = placements[i].preludes.len();
        total = match total.checked_add(preludes) {
            Some(total) => total,
            None => return None,
        };
        total = match total.checked_add(1) {
            Some(total) => total,
            None => return None,
        };
        i = i + 1;
    }
    proof {
        assert(plans.take(i as int) =~= plans);
    }
    Some(total)
}

/// How many reservations the envelope of a transaction takes: two for its keys, one for the
/// lengths of its records, one for their placements and one for each of those, one for its
/// chunks and one for each of those, and one for its pointers.
pub open spec fn envelope_reservations(transaction: TransactionView, written: EnvelopeView) -> nat {
    transaction.operations.len() + 8 + written.chunks.len()
}

/// The most elements that a list is to have room for when an envelope is laid out: its chunks,
/// its records, or the bytes of a chunk.
pub open spec fn envelope_most(
    geometry: VLogGeometry,
    transaction: TransactionView,
    written: EnvelopeView,
) -> nat {
    written.chunks.len() + transaction.operations.len() + 6 + most_in_page(geometry)
}

/// What laying out an envelope asks of memory: nothing for a transaction that is not identified;
/// and no more than the measuring and the placing of its records take, where there is no
/// envelope.
pub open spec fn asked_for_envelope(
    before: Memory,
    after: Memory,
    geometry: VLogGeometry,
    position: VLogPosition,
    transaction: TransactionView,
) -> bool {
    let n = transaction.operations.len();
    if !transaction.identified() {
        after == before
    } else {
        match envelope(geometry, position, transaction) {
            Ok(written) => asked(
                before,
                after,
                envelope_reservations(transaction, written),
                envelope_most(geometry, transaction, written),
            ),
            Err(_) => asked_within(before, after, n + 6, n + 6),
        }
    }
}

/// Lays the envelope of a transaction out behind the planner's position and moves the planner
/// behind it. A refusal leaves the planner where it was.
#[verifier::rlimit(60)]
pub fn prepare_envelope(
    memory: &mut Memory,
    planner: &mut LayoutPlanner,
    database_uuid: [u8; 16],
    commit_seq: u64,
    tx_uuid: [u8; 16],
    operations: &[LogicalOperationRef<'_>],
) -> (result: Result<PreparedEnvelope>)
    requires
        !old(memory).refused(),
    ensures
        final(planner).spec_geometry() == old(planner).spec_geometry(),
        final(memory).refused() ==> {
            &&& result matches Err(error) && error@ == invalid_vlog_view(
                StorageErrorKind::ResourceExhausted,
            )
            &&& final(planner).spec_position() == old(planner).spec_position()
        },
        !final(memory).refused() ==> match envelope(
            old(planner).spec_geometry(),
            old(planner).spec_position(),
            TransactionView {
                database_uuid: database_uuid@,
                commit_seq,
                tx_uuid: tx_uuid@,
                operations: operation_views(operations@),
            },
        ) {
            Ok(expected) => {
                &&& result matches Ok(prepared) && prepared@ == expected
                &&& final(planner).spec_position() == expected.vlog_end
            },
            Err(refusal) => {
                &&& result matches Err(error) && error@ == refusal
                &&& final(planner).spec_position() == old(planner).spec_position()
            },
        },
        asked_for_envelope(
            *old(memory),
            *final(memory),
            old(planner).spec_geometry(),
            old(planner).spec_position(),
            TransactionView {
                database_uuid: database_uuid@,
                commit_seq,
                tx_uuid: tx_uuid@,
                operations: operation_views(operations@),
            },
        ),
{
    let ghost t = TransactionView {
        database_uuid: database_uuid@,
        commit_seq,
        tx_uuid: tx_uuid@,
        operations: operation_views(operations@),
    };
    if validate_identity(commit_seq, &tx_uuid).is_err() || !is_nonzero_uuid(&database_uuid)
        || operations.len() == 0 {
        return Err(invalid_vlog_error(StorageErrorKind::InvalidArgument));
    }
    let measures = measure(memory, operations)?;
    proof {
        assert(measures.lengths@ =~= t.lengths());
        assert(t.writable());
    }
    let geometry = planner.geometry();
    let vlog_begin = planner.position();
    let mut candidate = *planner;
    let placements = plan_all(memory, &mut candidate, &measures.lengths)?;
    let vlog_end = candidate.position();
    let ghost plans = (planned_all(geometry, vlog_begin, t.lengths())->Ok_0).0;
    proof {
        lemma_planned_all(geometry, vlog_begin, t.lengths());
        lemma_plans_writable(geometry, vlog_begin, t.lengths());
        lemma_records_valid(t, vlog_begin, vlog_end, 0);
        lemma_records_valid(t, vlog_begin, vlog_end, t.checksum(vlog_begin, vlog_end));
        lemma_chunk_total(t, plans, t.records(vlog_begin, vlog_end));
    }
    let begin = TxBegin {
        commit_seq,
        tx_uuid,
        vlog_begin,
        logical_op_count: operations.len() as u64,
        distinct_key_count: measures.distinct_key_count,
    };
    let unsealed = TxPreparedEnd {
        commit_seq,
        tx_uuid,
        vlog_begin,
        vlog_end,
        logical_op_count: operations.len() as u64,
        distinct_key_count: measures.distinct_key_count,
        kv_record_count: measures.kv_record_count,
        delete_record_count: measures.delete_record_count,
        envelope_crc32c: 0,
    };
    let envelope_crc32c: u32 = compute_checksum(Ghost(t), begin, operations, unsealed)?;
    let footer = TxPreparedEnd { envelope_crc32c, ..unsealed };
    let capacity: usize = match chunk_capacity(Ghost(plans), &placements) {
        Some(capacity) => capacity,
        None => return Err(invalid_vlog_error(StorageErrorKind::CapacityExceeded)),
    };
    let ghost written = envelope(geometry, vlog_begin, t)->Ok_0;
    let ghost most = envelope_most(geometry, t, written);
    proof {
        assert(written.chunks.len() == capacity);
    }
    let mut chunks: Vec<PhysicalChunk> = Vec::new();
    let mut value_pointers: Vec<Option<ValuePointer>> = Vec::new();
    if !memory.reserve(&mut chunks, capacity) || !memory.reserve(
        &mut value_pointers,
        operations.len(),
    ) {
        return Err(invalid_vlog_error(StorageErrorKind::ResourceExhausted));
    }
    let ghost records = t.records(vlog_begin, vlog_end);
    proof {
        assert(chunk_views(chunks@) =~= Seq::empty());
        assert(plans.take(1).drop_last() =~= Seq::empty());
        lemma_chunk_total_grows(plans, 1);
        assert(t.lengths()[0] == TX_BEGIN_ENCODED_LEN);
        lemma_page_end(geometry, plans[0].record_start.offset as int);
        assert(records[0] == begin.record());
        lemma_record_front(begin.record());
    }
    let begin_bytes = encode_tx_begin(memory, begin)?;
    proof {
        assert(hands_out(placements@[0], plans[0]));
        assert forall|j: int| 0 <= j < plans[0].preludes.len() implies prelude_writable(
            geometry,
            #[trigger] placements@[0].preludes@[j],
        ) by {
            assert(placements@[0].preludes@[j] == plans[0].preludes[j]);
        }
    }
    append_placement(
        memory,
        &mut chunks,
        &placements[0],
        begin_bytes,
        database_uuid,
        commit_seq,
        tx_uuid,
        geometry,
    )?;
    proof {
        lemma_chunks_step(t, plans, records, 0);
        assert(chunk_views(chunks@) =~= envelope_chunks(t, plans.take(1), records.take(1)));
    }
    let mut i: usize = 0;
    while i < operations.len()
        invariant
            !old(memory).refused(),
            geometry == old(planner).spec_geometry(),
            vlog_begin == old(planner).spec_position(),
            envelope(geometry, vlog_begin, t) == Ok::<EnvelopeView, ErrorView>(written),
            written.chunks.len() == chunk_total(plans),
            most == envelope_most(geometry, t, written),
            records.len() == plans.len(),
            asked(*old(memory), *memory, t.operations.len() + 8 + chunks@.len(), most),
            i <= operations@.len(),
            operations@.len() + 2 <= usize::MAX,
            !memory.refused(),
            geometry.valid(),
            t == (TransactionView {
                database_uuid: database_uuid@,
                commit_seq,
                tx_uuid: tx_uuid@,
                operations: operation_views(operations@),
            }),
            t.writable(),
            records == t.records(vlog_begin, vlog_end),
            hands_out_all(placements@, plans),
            plans.len() == operations@.len() + 2,
            forall|k: int|
                0 <= k < plans.len() ==> {
                    &&& record_fits(
                        t.lengths()[k] as nat,
                        (#[trigger] plans[k]).record_start,
                        geometry,
                    )
                    &&& plans[k].encoded_len == t.lengths()[k]
                },
            forall|k: int, j: int|
                0 <= k < plans.len() && 0 <= j < plans[k].preludes.len() ==> prelude_writable(
                    geometry,
                    #[trigger] plans[k].preludes[j],
                ),
            forall|k: int|
                0 <= k < t.operations.len() ==> {
                    &&& (#[trigger] t.operation_record(k)).valid()
                    &&& t.operation_record(k).length() == operation_length(t.operations[k])
                },
            chunk_views(chunks@) == envelope_chunks(t, plans.take(i + 1), records.take(i + 1)),
            value_pointers@ == Seq::new(
                i as nat,
                |k: int| value_pointer(plans[k + 1], t.operations[k]),
            ),
        decreases operations@.len() - i,
    {
        let operation = operations[i];
        let placement = &placements[i + 1];
        proof {
            assert(chunk_views(chunks@).len() == chunks@.len());
            lemma_chunk_total(t, plans.take(i + 1), records.take(i + 1));
            assert(plans.take(i + 2).drop_last() =~= plans.take(i + 1));
            lemma_chunk_total_grows(plans, i + 2);
            assert(operation_fits(t.operations[i as int]));
            assert(hands_out(placements@[i + 1], plans[i + 1]));
            assert(t.lengths()[i + 1] == operation_length(t.operations[i as int]));
            lemma_page_end(geometry, plans[i + 1].record_start.offset as int);
            assert(records[i + 1] == t.operation_record(i as int));
            lemma_record_front(t.operation_record(i as int));
            assert forall|j: int| 0 <= j < plans[i + 1].preludes.len() implies prelude_writable(
                geometry,
                #[trigger] placement.preludes@[j],
            ) by {
                assert(placement.preludes@[j] == plans[i + 1].preludes[j]);
            }
        }
        let bytes = encode_operation(memory, commit_seq, tx_uuid, i as u64, operation)?;
        let pointer = match operation {
            LogicalOperationRef::Put { key, value } => Some(
                ValuePointer {
                    format_version: VALUE_POINTER_FORMAT_VERSION,
                    file_id: placement.record_start.file_id,
                    record_offset: placement.record_start.offset as u32,
                    record_len: placement.encoded_len,
                    value_len: value.len() as u16,
                },
            ),
            LogicalOperationRef::Delete { key } => None,
        };
        append_placement(
            memory,
            &mut chunks,
            placement,
            bytes,
            database_uuid,
            commit_seq,
            tx_uuid,
            geometry,
        )?;
        value_pointers.push(pointer);
        proof {
            assert(chunk_views(chunks@).len() == chunks@.len());
            lemma_chunks_step(t, plans, records, i + 1);
            assert(value_pointers@ =~= Seq::new(
                (i + 1) as nat,
                |k: int| value_pointer(plans[k + 1], t.operations[k]),
            ));
        }
        i = i + 1;
    }
    proof {
        assert(chunk_views(chunks@).len() == chunks@.len());
        lemma_chunk_total(t, plans.take(i + 1), records.take(i + 1));
        assert(plans.take(i + 2).drop_last() =~= plans.take(i + 1));
        lemma_chunk_total_grows(plans, i + 2);
        assert(hands_out(placements@[i + 1], plans[i + 1]));
        assert(records[i + 1] == footer.record());
        assert(t.lengths()[i + 1] == TX_PREPARED_END_ENCODED_LEN);
        lemma_page_end(geometry, plans[i + 1].record_start.offset as int);
        lemma_record_front(footer.record());
        assert forall|j: int| 0 <= j < plans[i + 1].preludes.len() implies prelude_writable(
            geometry,
            #[trigger] placements@[i + 1].preludes@[j],
        ) by {
            assert(placements@[i + 1].preludes@[j] == plans[i + 1].preludes[j]);
        }
    }
    let footer_bytes = encode_tx_prepared_end(memory, footer)?;
    append_placement(
        memory,
        &mut chunks,
        &placements[i + 1],
        footer_bytes,
        database_uuid,
        commit_seq,
        tx_uuid,
        geometry,
    )?;
    proof {
        lemma_chunks_step(t, plans, records, i + 1);
        assert(plans.take(i + 2) =~= plans);
        assert(records.take(i + 2) =~= records);
    }
    *planner = candidate;
    Ok(
        PreparedEnvelope {
            commit_seq,
            tx_uuid,
            vlog_begin,
            vlog_end,
            envelope_crc32c,
            chunks,
            value_pointers,
        },
    )
}

/// The chunks of one more placement.
proof fn lemma_chunks_step(
    transaction: TransactionView,
    plans: Seq<PlanView>,
    records: Seq<RecordView>,
    i: int,
)
    requires
        0 <= i < plans.len(),
        plans.len() == records.len(),
    ensures
        envelope_chunks(transaction, plans.take(i + 1), records.take(i + 1)) == envelope_chunks(
            transaction,
            plans.take(i),
            records.take(i),
        ) + placement_chunks(transaction, plans[i], records[i]),
{
    assert(plans.take(i + 1).drop_last() =~= plans.take(i));
    assert(records.take(i + 1).drop_last() =~= records.take(i));
}

/// Every operation that a batch takes fits a record: a key of at least one byte and a value,
/// together at most sixty thousand bytes.
pub proof fn law_every_operation_fits_a_record(operation: OperationView)
    ensures
        operation_fits(operation) <==> match operation {
            OperationView::Put { key, value } => 1 <= key.len() && key.len() + value.len()
                <= 60_000,
            OperationView::Delete { key } => 1 <= key.len() <= 60_000,
        },
{
}

} // verus!
