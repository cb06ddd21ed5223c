//! Scanning an envelope: from the chunks of the log back to the transaction.

use vstd::prelude::*;

use crate::batch::OperationView;
use crate::bytes::lemma_le_bytes_len;
use crate::error::{Result, StorageErrorKind};
use crate::key_index::KeyIndex;
use crate::memory::{asked, Memory};
use crate::vlog::decode::{decode_record_at, record_error, law_record_round_trip, lemma_record_front};
use crate::vlog::envelope::{
    key_set, lemma_key_count, lemma_key_set_push, lemma_put_count, operation_fits, put_count, record_of_operation, TransactionView,
};
use crate::vlog::envelope_crc::{canonical, envelope_checksum, EnvelopeCrc32c};
use crate::vlog::geometry::{
    chunk_end, chunk_views, decode_error, decode_view, end_of_chunk, lemma_first_page,
    lemma_page_end, lemma_page_number, next_chunk_position, next_position, position_before,
    record_may_end, validate_transaction_record_end, ChunkView, PhysicalChunk, VLogGeometry,
    VLogPosition, MAX_VLOG_FILE_ID, MAX_VLOG_FILE_SIZE, VLOG_PAGE_SIZE,
};
use crate::vlog::header::{
    file_header_body, file_header_of_other_version, is_identifier, is_nonzero_uuid, lemma_file_header_layout,
    lemma_page_header_layout, lemma_sealed, new_file_header, same_uuid, PageHeader, VLogFileHeader,
    FILE_FORMAT_VERSION, FILE_HEADER_ENCODED_LEN, FILE_HEADER_MAGIC, PAGE_HEADER_ENCODED_LEN,
};
use crate::vlog::record::{record_at, DecodedRecord, RecordView, TxBegin, TxPreparedEnd};

verus! {

/// What an envelope says of its transaction.
#[derive(Clone, Copy, Debug)]
pub struct ScannedEnvelope {
    pub commit_seq: u64,
    pub tx_uuid: [u8; 16],
    pub vlog_begin: VLogPosition,
    pub vlog_end: VLogPosition,
    pub logical_op_count: u64,
    pub distinct_key_count: u64,
    pub kv_record_count: u64,
    pub delete_record_count: u64,
    pub envelope_crc32c: u32,
}

/// Where an envelope is looked for, and what is known of it beforehand.
#[verifier::ext_equal]
pub struct ScanView {
    pub geometry: VLogGeometry,
    pub database_uuid: Seq<u8>,
    pub vlog_begin: VLogPosition,
    pub vlog_end: VLogPosition,
    pub expected_checksum: Option<u32>,
}

/// The records of a transaction among the records of the log: all but those that close pages.
pub open spec fn without_page_ends(records: Seq<RecordView>) -> Seq<RecordView>
    decreases records.len(),
{
    if records.len() == 0 {
        Seq::empty()
    } else {
        let front = without_page_ends(records.drop_last());
        if records.last() is PageEnd {
            front
        } else {
            front.push(records.last())
        }
    }
}

/// The operation that a record holds.
pub open spec fn operation_of(record: RecordView) -> OperationView {
    match record {
        RecordView::Put { key, value, .. } => OperationView::Put { key, value },
        RecordView::Delete { key, .. } => OperationView::Delete { key },
        _ => arbitrary(),
    }
}

/// The transaction whose begin record and operation records these are.
pub open spec fn transaction_of(scan: ScanView, records: Seq<RecordView>) -> TransactionView {
    TransactionView {
        database_uuid: scan.database_uuid,
        commit_seq: records[0].commit_seq(),
        tx_uuid: records[0].tx_uuid(),
        operations: Seq::new(
            (records.len() - 1) as nat,
            |i: int| operation_of(records[i + 1]),
        ),
    }
}

/// An end record closes the transaction whose other records these are: the begin record and
/// the end record agree with the operations, with the bounds and with the checksum.
pub open spec fn closes(
    scan: ScanView,
    records: Seq<RecordView>,
    end: RecordView,
) -> bool {
    let transaction = transaction_of(scan, records);
    let checksum = transaction.checksum(scan.vlog_begin, scan.vlog_end);
    &&& records[0] == transaction.begin_record(scan.vlog_begin)
    &&& end == transaction.end_record(scan.vlog_begin, scan.vlog_end, checksum)
    &&& scan.expected_checksum matches Some(expected) ==> expected == checksum
}

/// A record may follow the records found so far: it belongs to the same transaction, and is in
/// its turn. A page is not closed twice in a row, and nothing follows the end record, which is
/// the last chunk.
pub open spec fn may_follow(
    scan: ScanView,
    found: Seq<RecordView>,
    record: RecordView,
    is_last_chunk: bool,
) -> bool {
    let records = without_page_ends(found);
    &&& found.len() > 0 ==> record.commit_seq() == found[0].commit_seq() && record.tx_uuid()
        == found[0].tx_uuid()
    &&& records.len() > 0 ==> !(records.last() is End)
    &&& match record {
        RecordView::PageEnd { .. } => found.len() == 0 || !(found.last() is PageEnd),
        RecordView::Begin { vlog_begin, .. } => records.len() == 0 && vlog_begin
            == scan.vlog_begin,
        RecordView::Put { op_index, .. } => records.len() > 0 && op_index == records.len() - 1,
        RecordView::Delete { op_index, .. } => records.len() > 0 && op_index == records.len() - 1,
        RecordView::End { .. } => records.len() > 0 && is_last_chunk && closes(
            scan,
            records,
            record,
        ),
    }
}

/// The record that lies in a chunk.
pub open spec fn is_record(chunk: ChunkView, record: RecordView, geometry: VLogGeometry) -> bool {
    record_at(record, chunk.position, geometry) && chunk.bytes == record.bytes()
}

/// What one more chunk adds to the records found so far, or why it is refused. Headers add
/// nothing; every chunk lies where the one before it ended.
pub open spec fn scan_chunk(
    scan: ScanView,
    found: Seq<RecordView>,
    previous_end: VLogPosition,
    chunk: ChunkView,
    is_first_chunk: bool,
    is_last_chunk: bool,
) -> std::result::Result<Seq<RecordView>, StorageErrorKind> {
    let geometry = scan.geometry;
    let at = chunk.position;
    if chunk.bytes.len() == 0 || next_position(previous_end, geometry) != Some(at) {
        Err(StorageErrorKind::Corruption)
    } else if at.offset % geometry.page_size == 0 {
        if at.file_id <= geometry.max_file_id && chunk.bytes == (PageHeader {
            file_id: at.file_id,
            page_no: (at.offset / geometry.page_size) as u32,
        }).encoded() {
            Ok(found)
        } else {
            Err(StorageErrorKind::Corruption)
        }
    } else if at.offset == PAGE_HEADER_ENCODED_LEN {
        if !is_first_chunk && chunk.bytes == new_file_header(scan.database_uuid, at.file_id) {
            Ok(found)
        } else if !is_first_chunk && file_header_of_other_version(chunk.bytes) {
            Err(StorageErrorKind::IncompatibleFormat)
        } else {
            Err(StorageErrorKind::Corruption)
        }
    } else if exists|record: RecordView| is_record(chunk, record, geometry) {
        let record = choose|record: RecordView| is_record(chunk, record, geometry);
        if may_follow(scan, found, record, is_last_chunk) && (record is PageEnd || record_may_end(
            end_of_chunk(chunk),
            geometry,
        )) {
            Ok(found.push(record))
        } else {
            Err(StorageErrorKind::Corruption)
        }
    } else {
        Err(record_error(chunk.bytes, at, geometry))
    }
}

/// The position behind the first `count` chunks.
pub open spec fn end_of_chunks(scan: ScanView, chunks: Seq<ChunkView>, count: int) -> VLogPosition {
    if count == 0 {
        scan.vlog_begin
    } else {
        end_of_chunk(chunks[count - 1])
    }
}

/// The records in the first `count` chunks, or why the scan stops there.
pub open spec fn scan_chunks(scan: ScanView, chunks: Seq<ChunkView>, count: int) -> std::result::Result<
    Seq<RecordView>,
    StorageErrorKind,
>
    decreases count,
{
    if count <= 0 {
        Ok(Seq::empty())
    } else {
        match scan_chunks(scan, chunks, count - 1) {
            Err(kind) => Err(kind),
            Ok(found) => scan_chunk(
                scan,
                found,
                end_of_chunks(scan, chunks, count - 1),
                chunks[count - 1],
                count == 1,
                count == chunks.len(),
            ),
        }
    }
}

/// The request itself makes sense: the geometry, the database and the bounds do.
pub open spec fn scan_makes_sense(scan: ScanView, chunks: Seq<ChunkView>) -> bool {
    &&& scan.geometry.valid()
    &&& chunks.len() > 0
    &&& is_identifier(scan.database_uuid)
    &&& position_before(scan.vlog_begin, scan.vlog_end)
    &&& next_position(scan.vlog_begin, scan.geometry) == Some(chunks[0].position)
}

/// The transaction whose envelope the chunks are, or why they are none.
pub open spec fn scanned(scan: ScanView, chunks: Seq<ChunkView>) -> std::result::Result<
    TransactionView,
    StorageErrorKind,
> {
    if !scan_makes_sense(scan, chunks) {
        Err(StorageErrorKind::Corruption)
    } else {
        match scan_chunks(scan, chunks, chunks.len() as int) {
            Err(kind) => Err(kind),
            Ok(found) => {
                let records = without_page_ends(found);
                if end_of_chunks(scan, chunks, chunks.len() as int) != scan.vlog_end || records.len()
                    == 0 || !(records.last() is End) {
                    Err(StorageErrorKind::Corruption)
                } else {
                    Ok(transaction_of(scan, records.drop_last()))
                }
            },
        }
    }
}

/// What the scan reports of a transaction.
pub open spec fn reports(
    envelope: ScannedEnvelope,
    scan: ScanView,
    transaction: TransactionView,
) -> bool {
    &&& envelope.commit_seq == transaction.commit_seq
    &&& envelope.tx_uuid@ == transaction.tx_uuid
    &&& envelope.vlog_begin == scan.vlog_begin
    &&& envelope.vlog_end == scan.vlog_end
    &&& envelope.logical_op_count == transaction.operations.len()
    &&& envelope.distinct_key_count == key_set(transaction.operations).len()
    &&& envelope.kv_record_count == put_count(transaction.operations)
    &&& envelope.delete_record_count == transaction.operations.len() - put_count(
        transaction.operations,
    )
    &&& envelope.envelope_crc32c == transaction.checksum(scan.vlog_begin, scan.vlog_end)
}

/// The records found so far are in the order of a transaction: a begin record, then operations
/// in the order of their numbers, then possibly the end record.
pub open spec fn in_order(records: Seq<RecordView>) -> bool {
    &&& records.len() > 0 ==> records[0] is Begin
    &&& forall|i: int|
        0 < i < records.len() ==> (#[trigger] records[i]) is Put || records[i] is Delete || (
        records[i] is End && i == records.len() - 1)
    &&& forall|i: int|
        0 < i < records.len() && !(records[i] is End) ==> #[trigger] records[i]
            == record_of_operation(
            records[0].commit_seq(),
            records[0].tx_uuid(),
            (i - 1) as u64,
            operation_of(records[i]),
        )
    &&& forall|i: int|
        0 <= i < records.len() ==> (#[trigger] records[i]).commit_seq() == records[0].commit_seq()
            && records[i].tx_uuid() == records[0].tx_uuid()
}

/// What a scan finds is in the order of a transaction, and an end record closes it.
pub proof fn lemma_found_in_order(scan: ScanView, chunks: Seq<ChunkView>, count: int)
    requires
        0 <= count <= chunks.len(),
        scan_chunks(scan, chunks, count) is Ok,
    ensures
        ({
            let found = scan_chunks(scan, chunks, count)->Ok_0;
            let records = without_page_ends(found);
            &&& in_order(records)
            &&& found.len() <= count
            &&& records.len() <= found.len()
            &&& forall|i: int|
                0 <= i < found.len() ==> (#[trigger] found[i]).commit_seq() == found[0].commit_seq()
                    && found[i].tx_uuid() == found[0].tx_uuid()
            &&& records.len() > 0 ==> records[0].commit_seq() == found[0].commit_seq()
                && records[0].tx_uuid() == found[0].tx_uuid()
            &&& records.len() > 0 && records.last() is End ==> {
                &&& records.len() > 1
                &&& count == chunks.len()
                &&& closes(scan, records.drop_last(), records.last())
            }
            &&& forall|i: int| 0 <= i < records.len() ==> (#[trigger] records[i]).valid()
        }),
    decreases count,
{
    if count > 0 {
        lemma_found_in_order(scan, chunks, count - 1);
        let before = scan_chunks(scan, chunks, count - 1)->Ok_0;
        let found = scan_chunks(scan, chunks, count)->Ok_0;
        if found != before {
            let record = found.last();
            assert(found.drop_last() =~= before);
            let records = without_page_ends(found);
            let old_records = without_page_ends(before);
            if !(record is PageEnd) {
                assert(records == old_records.push(record));
                assert(records.drop_last() =~= old_records);
            }
        }
    }
}

/// What a scan accepts is the envelope of a transaction: apart from the headers and the
/// records that close pages, the chunks hold exactly its records.
pub proof fn law_scanned_envelope_holds_transaction(scan: ScanView, chunks: Seq<ChunkView>)
    requires
        scanned(scan, chunks) is Ok,
        chunks.len() <= u64::MAX,
    ensures
        ({
            let transaction = scanned(scan, chunks)->Ok_0;
            let found = scan_chunks(scan, chunks, chunks.len() as int)->Ok_0;
            &&& transaction.writable()
            &&& without_page_ends(found) == transaction.records(scan.vlog_begin, scan.vlog_end)
        }),
{
    let found = scan_chunks(scan, chunks, chunks.len() as int)->Ok_0;
    let records = without_page_ends(found);
    lemma_found_in_order(scan, chunks, chunks.len() as int);
    let transaction = transaction_of(scan, records.drop_last());
    let front = records.drop_last();
    assert(front =~= transaction.records_before_end(
        scan.vlog_begin,
        transaction.operations.len() as int,
    ));
    assert(records =~= transaction.records(scan.vlog_begin, scan.vlog_end));
    assert(records[0].valid());
    assert(transaction.operations.len() > 0);
    assert forall|i: int| 0 <= i < transaction.operations.len() implies operation_fits(
        #[trigger] transaction.operations[i],
    ) by {
        assert(records[i + 1].valid());
    }
}

/// The operations of a transaction whose end record is not found yet.
pub open spec fn open_operations(records: Seq<RecordView>) -> Seq<OperationView> {
    if records.len() == 0 {
        Seq::empty()
    } else {
        Seq::new((records.len() - 1) as nat, |i: int| operation_of(records[i + 1]))
    }
}

/// What a scan keeps of the records found so far.
struct Scanner<'a> {
    vlog_begin: VLogPosition,
    vlog_end: VLogPosition,
    expected_checksum: Option<u32>,
    identity: Option<(u64, [u8; 16])>,
    begin: Option<TxBegin>,
    footer: Option<TxPreparedEnd>,
    checksum: EnvelopeCrc32c,
    logical_op_count: u64,
    kv_record_count: u64,
    delete_record_count: u64,
    distinct_keys: KeyIndex<'a>,
    previous_was_page_end: bool,
}

impl<'a> Scanner<'a> {
    /// The scanner has seen these records.
    spec fn tracks(&self, scan: ScanView, found: Seq<RecordView>) -> bool {
        let records = without_page_ends(found);
        &&& self.vlog_begin == scan.vlog_begin
        &&& self.vlog_end == scan.vlog_end
        &&& self.expected_checksum == scan.expected_checksum
        &&& in_order(records)
        &&& records.len() <= found.len()
        &&& found.len() == 0 ==> self.identity is None
        &&& found.len() > 0 ==> (self.identity matches Some(identity) && identity.0
            == found[0].commit_seq() && identity.1@ == found[0].tx_uuid())
        &&& records.len() > 0 ==> records[0].commit_seq() == found[0].commit_seq()
            && records[0].tx_uuid() == found[0].tx_uuid()
        &&& self.previous_was_page_end == (found.len() > 0 && found.last() is PageEnd)
        &&& match self.begin {
            Some(begin) => records.len() > 0 && records[0] == begin.record(),
            None => records.len() == 0,
        }
        &&& match self.footer {
            Some(footer) => {
                &&& records.len() > 1
                &&& records.last() == footer.record()
                &&& self.counts(open_operations(records.drop_last()))
            },
            None => {
                &&& records.len() > 0 ==> !(records.last() is End)
                &&& self.counts(open_operations(records))
                &&& self.checksum@ == envelope_checksum(records)
            },
        }
    }

    /// The counters are those of these operations.
    spec fn counts(&self, operations: Seq<OperationView>) -> bool {
        &&& self.logical_op_count == operations.len()
        &&& self.kv_record_count == put_count(operations)
        &&& self.delete_record_count == operations.len() - put_count(operations)
        &&& self.distinct_keys@.dom() == key_set(operations)
    }

    /// Whether a record belongs to the transaction found so far.
    fn same_transaction(&self, commit_seq: u64, tx_uuid: &[u8; 16]) -> (same: bool)
        ensures
            same == (self.identity matches Some(identity) ==> identity.0 == commit_seq
                && identity.1@ == tx_uuid@),
    {
        match &self.identity {
            None => true,
            Some(identity) => identity.0 == commit_seq && same_uuid(&identity.1, tx_uuid),
        }
    }

    /// Whether an end record closes the transaction found so far.
    fn is_closed_by(
        &self,
        Ghost(scan): Ghost<ScanView>,
        Ghost(found): Ghost<Seq<RecordView>>,
        footer: &TxPreparedEnd,
    ) -> (result: Result<bool>)
        requires
            self.tracks(scan, found),
            self.footer is None,
            self.begin is Some,
            footer.record().valid(),
            footer.commit_seq == found[0].commit_seq(),
            footer.tx_uuid@ == found[0].tx_uuid(),
        ensures
            result matches Ok(closed) && closed == closes(
                scan,
                without_page_ends(found),
                footer.record(),
            ),
    {
        let begin = match &self.begin {
            Some(begin) => begin,
            None => return Ok(false),
        };
        let ghost records = without_page_ends(found);
        let ghost t = transaction_of(scan, records);
        proof {
            assert(t.operations =~= open_operations(records));
        }
        let distinct_key_count: u64 = self.distinct_keys.len() as u64;
        if begin.vlog_begin != self.vlog_begin || footer.vlog_begin != begin.vlog_begin
            || footer.vlog_end != self.vlog_end || footer.logical_op_count
            != begin.logical_op_count || footer.distinct_key_count != begin.distinct_key_count
            || footer.logical_op_count != self.logical_op_count || footer.distinct_key_count
            != distinct_key_count || footer.kv_record_count != self.kv_record_count
            || footer.delete_record_count != self.delete_record_count {
            return Ok(false);
        }
        let calculated: u32 = self.checksum.finish_with_footer(*footer)?;
        proof {
            assert(records[0] == t.begin_record(scan.vlog_begin));
            assert(records =~= t.records_before_end(
                scan.vlog_begin,
                t.operations.len() as int,
            ));
            let end = t.end_record(scan.vlog_begin, scan.vlog_end, 0);
            assert(records.push(end).drop_last() =~= records);
            assert(canonical(end) == canonical(footer.record()));
            assert(calculated == t.checksum(scan.vlog_begin, scan.vlog_end));
        }
        if calculated != footer.envelope_crc32c {
            return Ok(false);
        }
        match self.expected_checksum {
            Some(expected) => Ok(expected == calculated),
            None => Ok(true),
        }
    }

    /// Counts an operation.
    fn count_operation(&mut self, key: &'a [u8], is_put: bool) -> (result: Result<()>)
        requires
            old(self).logical_op_count < u64::MAX,
            old(self).kv_record_count <= old(self).logical_op_count,
            old(self).delete_record_count <= old(self).logical_op_count,
        ensures
            result is Ok,
            *final(self) == (Scanner {
                logical_op_count: (old(self).logical_op_count + 1) as u64,
                kv_record_count: final(self).kv_record_count,
                delete_record_count: final(self).delete_record_count,
                distinct_keys: final(self).distinct_keys,
                ..*old(self)
            }),
            final(self).kv_record_count == old(self).kv_record_count + (if is_put {
                1int
            } else {
                0
            }),
            final(self).delete_record_count == old(self).delete_record_count + (if is_put {
                0int
            } else {
                1
            }),
            final(self).distinct_keys@.dom() == old(self).distinct_keys@.dom().insert(key@),
    {
        let slot: usize = self.distinct_keys.len();
        self.distinct_keys.insert(key, slot);
        proof {
            assert(self.distinct_keys@.dom() =~= old(self).distinct_keys@.dom().insert(key@));
        }
        self.logical_op_count = self.logical_op_count + 1;
        if is_put {
            self.kv_record_count = self.kv_record_count + 1;
        } else {
            self.delete_record_count = self.delete_record_count + 1;
        }
        Ok(())
    }

    /// Takes one more record, unless it may not follow. Says whether it belongs to the
    /// transaction, rather than to the pages.
    fn accept(
        &mut self,
        Ghost(scan): Ghost<ScanView>,
        Ghost(found): Ghost<Seq<RecordView>>,
        decoded: DecodedRecord<'a>,
        is_last_chunk: bool,
    ) -> (result: Result<bool>)
        requires
            old(self).tracks(scan, found),
            decoded.record().valid(),
            found.len() < u64::MAX,
        ensures
            match result {
                Ok(in_transaction) => {
                    &&& may_follow(scan, found, decoded.record(), is_last_chunk)
                    &&& final(self).tracks(scan, found.push(decoded.record()))
                    &&& in_transaction == !(decoded.record() is PageEnd)
                },
                Err(error) => {
                    &&& !may_follow(scan, found, decoded.record(), is_last_chunk)
                    &&& error@ == decode_view(StorageErrorKind::Corruption)
                },
            },
    {
        let ghost records = without_page_ends(found);
        let ghost record = decoded.record();
        proof {
            assert(found.push(record).drop_last() =~= found);
            lemma_put_count(open_operations(records));
        }
        let identity = decoded.identity();
        if !self.same_transaction(identity.0, &identity.1) || self.footer.is_some() {
            return Err(decode_error(StorageErrorKind::Corruption));
        }
        match decoded {
            DecodedRecord::PageEnd(_) => {
                if self.previous_was_page_end {
                    return Err(decode_error(StorageErrorKind::Corruption));
                }
                self.previous_was_page_end = true;
                self.identity = Some(identity);
                Ok(false)
            },
            DecodedRecord::TxBegin(begin) => {
                if self.begin.is_some() || begin.vlog_begin != self.vlog_begin {
                    return Err(decode_error(StorageErrorKind::Corruption));
                }
                self.checksum.update_tx_begin(begin)?;
                self.begin = Some(begin);
                self.identity = Some(identity);
                self.previous_was_page_end = false;
                proof {
                    assert(records =~= Seq::empty());
                    assert(records.push(record).drop_last() =~= records);
                    assert(open_operations(records.push(record)) =~= open_operations(records));
                }
                Ok(true)
            },
            DecodedRecord::KvRecord(kv) => {
                if self.begin.is_none() || kv.op_index != self.logical_op_count {
                    return Err(decode_error(StorageErrorKind::Corruption));
                }
                self.checksum.update_kv_record(kv)?;
                self.count_operation(kv.key, true)?;
                self.identity = Some(identity);
                self.previous_was_page_end = false;
                proof {
                    lemma_one_more_operation(records, record);
                }
                Ok(true)
            },
            DecodedRecord::DeleteRecord(delete) => {
                if self.begin.is_none() || delete.op_index != self.logical_op_count {
                    return Err(decode_error(StorageErrorKind::Corruption));
                }
                self.checksum.update_delete_record(delete)?;
                self.count_operation(delete.key, false)?;
                self.identity = Some(identity);
                self.previous_was_page_end = false;
                proof {
                    lemma_one_more_operation(records, record);
                }
                Ok(true)
            },
            DecodedRecord::TxPreparedEnd(footer) => {
                if self.begin.is_none() || !is_last_chunk || !self.is_closed_by(
                    Ghost(scan),
                    Ghost(found),
                    &footer,
                )? {
                    return Err(decode_error(StorageErrorKind::Corruption));
                }
                self.footer = Some(footer);
                self.identity = Some(identity);
                self.previous_was_page_end = false;
                proof {
                    assert(records.push(record).drop_last() =~= records);
                    let t = transaction_of(scan, records);
                    assert(t.operations =~= open_operations(records));
                    if records.len() == 1 {
                        assert(record.valid());
                        assert(t.operations.len() == 0);
                    }
                }
                Ok(true)
            },
        }
    }
}

/// What one more operation record adds.
proof fn lemma_one_more_operation(records: Seq<RecordView>, record: RecordView)
    requires
        in_order(records),
        records.len() > 0,
        !(records.last() is End),
        record is Put || record is Delete,
        record.commit_seq() == records[0].commit_seq(),
        record.tx_uuid() == records[0].tx_uuid(),
        record is Put ==> record->Put_op_index == records.len() - 1,
        record is Delete ==> record->Delete_op_index == records.len() - 1,
    ensures
        in_order(records.push(record)),
        open_operations(records.push(record)) == open_operations(records).push(
            operation_of(record),
        ),
        key_set(open_operations(records.push(record))) == key_set(open_operations(records)).insert(
            operation_of(record).key(),
        ),
        put_count(open_operations(records.push(record))) == put_count(open_operations(records)) + (
        if record is Put {
            1nat
        } else {
            0
        }),
        records.push(record).drop_last() == records,
{
    let before = open_operations(records);
    let after = open_operations(records.push(record));
    assert(after =~= before.push(operation_of(record)));
    assert(after.drop_last() =~= before);
    assert(records.push(record).drop_last() =~= records);
    lemma_key_set_push(after);
}

/// A scan that stops at some chunk stops there whatever follows.
proof fn lemma_scan_stops(scan: ScanView, chunks: Seq<ChunkView>, count: int, upto: int)
    requires
        0 <= count <= upto <= chunks.len(),
        scan_chunks(scan, chunks, count) is Err,
    ensures
        scan_chunks(scan, chunks, upto) == scan_chunks(scan, chunks, count),
    decreases upto,
{
    if count < upto {
        lemma_scan_stops(scan, chunks, count, upto - 1);
    }
}

/// A chunk holds one record only.
pub proof fn lemma_one_record(chunk: ChunkView, record: RecordView, geometry: VLogGeometry)
    requires
        is_record(chunk, record, geometry),
    ensures
        (choose|r: RecordView| is_record(chunk, r, geometry)) == record,
{
    let chosen = choose|r: RecordView| is_record(chunk, r, geometry);
    law_record_round_trip(chosen, record);
}

/// Whether a chunk at the start of a page is the header of that page.
fn is_page_header(chunk: &PhysicalChunk, geometry: VLogGeometry) -> (is_header: bool)
    requires
        geometry.valid(),
        chunk.position.offset < geometry.max_file_size,
    ensures
        is_header == (chunk.position.file_id <= geometry.max_file_id && chunk.bytes@ == (PageHeader {
            file_id: chunk.position.file_id,
            page_no: (chunk.position.offset / geometry.page_size) as u32,
        }).encoded()),
{
    let page_no: u64 = chunk.position.offset / geometry.page_size;
    proof {
        lemma_page_number(geometry, chunk.position.offset as int);
        lemma_page_header_layout(
            PageHeader { file_id: chunk.position.file_id, page_no: page_no as u32 },
        );
    }
    match PageHeader::decode(chunk.bytes.as_slice()) {
        Ok(header) => {
            proof {
                lemma_page_header_layout(header);
            }
            chunk.position.file_id <= geometry.max_file_id && header.file_id
                == chunk.position.file_id && header.page_no == page_no as u32
        },
        Err(_) => false,
    }
}

/// Checks that a chunk is the header of a file of a database.
fn check_file_header(chunk: &PhysicalChunk, database_uuid: &[u8; 16]) -> (result: Result<()>)
    requires
        is_identifier(database_uuid@),
        chunk.position.file_id <= MAX_VLOG_FILE_ID,
    ensures
        match result {
            Ok(_) => chunk.bytes@ == new_file_header(database_uuid@, chunk.position.file_id),
            Err(error) => {
                &&& chunk.bytes@ != new_file_header(database_uuid@, chunk.position.file_id)
                &&& error@ == decode_view(
                    if file_header_of_other_version(chunk.bytes@) {
                        StorageErrorKind::IncompatibleFormat
                    } else {
                        StorageErrorKind::Corruption
                    },
                )
            },
        },
{
    let wanted = VLogFileHeader::new(*database_uuid, chunk.position.file_id);
    proof {
        lemma_file_header_layout(wanted);
        assert(wanted.encoded() == new_file_header(database_uuid@, chunk.position.file_id));
        assert(wanted.valid());
    }
    let header = VLogFileHeader::decode(chunk.bytes.as_slice())?;
    proof {
        lemma_file_header_layout(header);
    }
    if !same_uuid(&header.database_uuid, database_uuid) || header.file_id
        != chunk.position.file_id {
        return Err(decode_error(StorageErrorKind::Corruption));
    }
    Ok(())
}

/// Scans the chunks between two positions of the log for the envelope of a transaction.
pub fn scan_prepared_envelope(
    memory: &mut Memory,
    chunks: &[PhysicalChunk],
    geometry: VLogGeometry,
    database_uuid: [u8; 16],
    vlog_begin: VLogPosition,
    vlog_end: VLogPosition,
    expected_envelope_crc32c: Option<u32>,
) -> (result: Result<ScannedEnvelope>)
    requires
        !old(memory).refused(),
    ensures
        final(memory).refused() ==> (result matches Err(error) && error@ == decode_view(
            StorageErrorKind::ResourceExhausted,
        )),
        !final(memory).refused() ==> ({
            let scan = ScanView {
                geometry,
                database_uuid: database_uuid@,
                vlog_begin,
                vlog_end,
                expected_checksum: expected_envelope_crc32c,
            };
            match scanned(scan, chunk_views(chunks@)) {
                Ok(transaction) => result matches Ok(envelope) && reports(
                    envelope,
                    scan,
                    transaction,
                ),
                Err(kind) => result matches Err(error) && error@ == decode_view(kind),
            }
        }),
        ({
            let scan = ScanView {
                geometry,
                database_uuid: database_uuid@,
                vlog_begin,
                vlog_end,
                expected_checksum: expected_envelope_crc32c,
            };
            if scan_makes_sense(scan, chunk_views(chunks@)) {
                asked(*old(memory), *final(memory), 2, chunks@.len())
            } else {
                *final(memory) == *old(memory)
            }
        }),
{
    let ghost scan = ScanView {
        geometry,
        database_uuid: database_uuid@,
        vlog_begin,
        vlog_end,
        expected_checksum: expected_envelope_crc32c,
    };
    let ghost views = chunk_views(chunks@);
    geometry.validate_for_decode()?;
    let first_chunk_position = next_chunk_position(vlog_begin, geometry)?;
    if chunks.len() == 0 || !is_nonzero_uuid(&database_uuid) || !vlog_begin.before(vlog_end)
        || chunks[0].position != first_chunk_position {
        return Err(decode_error(StorageErrorKind::Corruption));
    }
    let distinct_keys: KeyIndex = match KeyIndex::reserved(memory, chunks.len()) {
        Some(index) => index,
        None => return Err(decode_error(StorageErrorKind::ResourceExhausted)),
    };
    let ghost mut found: Seq<RecordView> = Seq::empty();
    let mut scanner = Scanner {
        vlog_begin,
        vlog_end,
        expected_checksum: expected_envelope_crc32c,
        identity: None,
        begin: None,
        footer: None,
        checksum: EnvelopeCrc32c::new(),
        logical_op_count: 0,
        kv_record_count: 0,
        delete_record_count: 0,
        distinct_keys,
        previous_was_page_end: false,
    };
    let mut physical_end = vlog_begin;
    let mut expecting_file_header = false;
    let mut i: usize = 0;
    proof {
        assert(key_set(Seq::empty()) =~= Set::empty());
        assert(scanner.distinct_keys@.dom() =~= Set::empty());
        assert(scanner.tracks(scan, found));
    }
    while i < chunks.len()
        invariant
            !old(memory).refused(),
            asked(*old(memory), *memory, 2, chunks@.len()),
            i <= chunks@.len(),
            views == chunk_views(chunks@),
            !memory.refused(),
            scan == (ScanView {
                geometry,
                database_uuid: database_uuid@,
                vlog_begin,
                vlog_end,
                expected_checksum: expected_envelope_crc32c,
            }),
            scan_makes_sense(scan, views),
            scan_chunks(scan, views, i as int) == Ok::<Seq<RecordView>, StorageErrorKind>(found),
            scanner.tracks(scan, found),
            found.len() <= i,
            physical_end == end_of_chunks(scan, views, i as int),
            i > 0 ==> physical_end.file_id <= geometry.max_file_id,
            expecting_file_header == (i > 0 && physical_end.offset == PAGE_HEADER_ENCODED_LEN),
        decreases chunks@.len() - i,
    {
        let chunk = &chunks[i];
        let ghost step = scan_chunk(
            scan,
            found,
            physical_end,
            chunk@,
            i == 0,
            i + 1 == chunks@.len(),
        );
        proof {
            assert(views[i as int] == chunk@);
            assert(scan_chunks(scan, views, i + 1) == step);
            if step is Err {
                lemma_scan_stops(scan, views, i + 1, views.len() as int);
            }
        }
        if chunk.bytes.len() == 0 {
            return Err(decode_error(StorageErrorKind::Corruption));
        }
        let expected_start = next_chunk_position(physical_end, geometry)?;
        if chunk.position != expected_start {
            return Err(decode_error(StorageErrorKind::Corruption));
        }
        proof {
            lemma_first_page(geometry, chunk.position.offset as int);
            lemma_page_number(geometry, chunk.position.offset as int);
            lemma_page_end(geometry, chunk.position.offset as int);
        }
        let mut in_transaction = false;
        if chunk.position.offset % geometry.page_size == 0 {
            if !is_page_header(chunk, geometry) {
                return Err(decode_error(StorageErrorKind::Corruption));
            }
            proof {
                lemma_page_header_layout(
                    PageHeader {
                        file_id: chunk.position.file_id,
                        page_no: (chunk.position.offset / geometry.page_size) as u32,
                    },
                );
            }
            expecting_file_header = chunk.position.offset == 0;
        } else if chunk.position.offset == PAGE_HEADER_ENCODED_LEN as u64 {
            if !expecting_file_header {
                return Err(decode_error(StorageErrorKind::Corruption));
            }
            check_file_header(chunk, &database_uuid)?;
            proof {
                lemma_file_header_length(database_uuid@, chunk.position.file_id);
            }
            expecting_file_header = false;
        } else {
            let decoded = decode_record_at(chunk.bytes.as_slice(), chunk.position, geometry);
            let decoded = match decoded {
                Ok(decoded) => decoded,
                Err(error) => {
                    proof {
                        assert(forall|r: RecordView| !is_record(chunk@, r, geometry));
                    }
                    return Err(error);
                },
            };
            let ghost record = decoded.record();
            proof {
                assert(is_record(chunk@, record, geometry));
                lemma_one_record(chunk@, record, geometry);
                lemma_record_front(record);
            }
            in_transaction = scanner.accept(
                Ghost(scan),
                Ghost(found),
                decoded,
                i + 1 == chunks.len(),
            )?;
            proof {
                found = found.push(record);
            }
        }
        physical_end = chunk_end(chunk, geometry)?;
        if in_transaction {
            validate_transaction_record_end(physical_end, geometry)?;
        }
        i = i + 1;
    }
    proof {
        lemma_found_in_order(scan, views, views.len() as int);
    }
    if physical_end != vlog_end {
        return Err(decode_error(StorageErrorKind::Corruption));
    }
    let ghost records = without_page_ends(found);
    match (scanner.begin, scanner.footer) {
        (Some(begin), Some(footer)) => {
            proof {
                let t = transaction_of(scan, records.drop_last());
                assert(t.operations =~= open_operations(records.drop_last()));
                lemma_key_count(t.operations);
            }
            Ok(
                ScannedEnvelope {
                    commit_seq: begin.commit_seq,
                    tx_uuid: begin.tx_uuid,
                    vlog_begin,
                    vlog_end,
                    logical_op_count: scanner.logical_op_count,
                    distinct_key_count: footer.distinct_key_count,
                    kv_record_count: scanner.kv_record_count,
                    delete_record_count: scanner.delete_record_count,
                    envelope_crc32c: footer.envelope_crc32c,
                },
            )
        },
        _ => Err(decode_error(StorageErrorKind::Corruption)),
    }
}

/// The length of a file header.
pub proof fn lemma_file_header_length(database_uuid: Seq<u8>, file_id: u32)
    requires
        database_uuid.len() == 16,
    ensures
        new_file_header(database_uuid, file_id).len() == FILE_HEADER_ENCODED_LEN,
{
    lemma_le_bytes_len(FILE_HEADER_MAGIC as nat, 8);
    lemma_le_bytes_len(FILE_FORMAT_VERSION as nat, 4);
    lemma_le_bytes_len(file_id as nat, 4);
    lemma_le_bytes_len(VLOG_PAGE_SIZE as nat, 4);
    lemma_le_bytes_len(MAX_VLOG_FILE_SIZE as nat, 8);
    lemma_sealed(
        file_header_body(
            FILE_FORMAT_VERSION,
            database_uuid,
            file_id,
            VLOG_PAGE_SIZE as u32,
            MAX_VLOG_FILE_SIZE,
        ),
    );
}

} // verus!
