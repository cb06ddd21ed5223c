//! The records of an envelope: the begin record, one record for each operation, the end record
//! and the records that close pages.

use vstd::prelude::*;

use crate::bytes::{append_bytes, append_le, append_zeros, le_bytes, zeros};
use crate::checksum::{checksum, crc32c_appended, crc32c_extend, crc32c_of};
use crate::error::{Result, StorageErrorKind};
use crate::memory::{asked, Memory};
use crate::vlog::geometry::{
    decode_error, decode_view, invalid_vlog_error, invalid_vlog_view, is_record_start,
    lemma_page_end, position_before, record_fits, remaining_in_page, VLogGeometry, VLogPosition,
    PAGE_END_MIN_SIZE,
};
use crate::vlog::header::{
    append_checksum, is_transaction, record_header_bytes, sealed, validate_identity, RecordHeader,
    RecordType, VLOG_FORMAT_VERSION,
};
use crate::vlog::pointer::{KV_RECORD_FIXED_LEN_WITH_CRC, MAX_PAYLOAD_LEN};

verus! {

pub const TX_BEGIN_ENCODED_LEN: u32 = 71;

pub const MIN_DELETE_RECORD_LEN: u32 = 54;

pub const MAX_DELETE_RECORD_LEN: u32 = 60_053;

/// The length of a delete record without its key.
pub const DELETE_RECORD_FIXED_LEN: u32 = 53;

pub const TX_PREPARED_END_ENCODED_LEN: u32 = 111;

/// `RKTE`
pub const END_TRAILER_MAGIC: u32 = 0x4554_4b52;

#[derive(Clone, Copy, Debug)]
pub struct TxBegin {
    pub commit_seq: u64,
    pub tx_uuid: [u8; 16],
    pub vlog_begin: VLogPosition,
    pub logical_op_count: u64,
    pub distinct_key_count: u64,
}

#[derive(Clone, Copy, Debug)]
pub struct TxPreparedEnd {
    pub commit_seq: u64,
    pub tx_uuid: [u8; 16],
    pub vlog_begin: VLogPosition,
    pub vlog_end: VLogPosition,
    pub logical_op_count: u64,
    pub distinct_key_count: u64,
    pub kv_record_count: u64,
    pub delete_record_count: u64,
    pub envelope_crc32c: u32,
}

#[derive(Clone, Copy, Debug)]
pub struct KvRecordRef<'a> {
    pub commit_seq: u64,
    pub tx_uuid: [u8; 16],
    pub op_index: u64,
    pub key: &'a [u8],
    pub value: &'a [u8],
}

#[derive(Clone, Copy, Debug)]
pub struct DeleteRecordRef<'a> {
    pub commit_seq: u64,
    pub tx_uuid: [u8; 16],
    pub op_index: u64,
    pub key: &'a [u8],
}

#[derive(Clone, Copy, Debug)]
pub enum DecodedRecord<'a> {
    TxBegin(TxBegin),
    KvRecord(KvRecordRef<'a>),
    DeleteRecord(DeleteRecordRef<'a>),
    TxPreparedEnd(TxPreparedEnd),
    PageEnd(RecordHeader),
}

/// A record as a mathematical value.
#[verifier::ext_equal]
pub enum RecordView {
    Begin {
        commit_seq: u64,
        tx_uuid: Seq<u8>,
        vlog_begin: VLogPosition,
        logical_op_count: u64,
        distinct_key_count: u64,
    },
    Put { commit_seq: u64, tx_uuid: Seq<u8>, op_index: u64, key: Seq<u8>, value: Seq<u8> },
    Delete { commit_seq: u64, tx_uuid: Seq<u8>, op_index: u64, key: Seq<u8> },
    End {
        commit_seq: u64,
        tx_uuid: Seq<u8>,
        vlog_begin: VLogPosition,
        vlog_end: VLogPosition,
        logical_op_count: u64,
        distinct_key_count: u64,
        kv_record_count: u64,
        delete_record_count: u64,
        envelope_crc32c: u32,
    },
    PageEnd { commit_seq: u64, tx_uuid: Seq<u8>, length: u32 },
}

/// The bytes of a position.
pub open spec fn position_bytes(position: VLogPosition) -> Seq<u8> {
    le_bytes(position.file_id as nat, 4) + le_bytes(position.offset as nat, 8)
}

/// The counts of a transaction agree: there is an operation, and no more keys than operations.
pub open spec fn counts_agree(logical_op_count: u64, distinct_key_count: u64) -> bool {
    0 < distinct_key_count <= logical_op_count
}

impl RecordView {
    pub open spec fn commit_seq(self) -> u64 {
        match self {
            RecordView::Begin { commit_seq, .. } => commit_seq,
            RecordView::Put { commit_seq, .. } => commit_seq,
            RecordView::Delete { commit_seq, .. } => commit_seq,
            RecordView::End { commit_seq, .. } => commit_seq,
            RecordView::PageEnd { commit_seq, .. } => commit_seq,
        }
    }

    pub open spec fn tx_uuid(self) -> Seq<u8> {
        match self {
            RecordView::Begin { tx_uuid, .. } => tx_uuid,
            RecordView::Put { tx_uuid, .. } => tx_uuid,
            RecordView::Delete { tx_uuid, .. } => tx_uuid,
            RecordView::End { tx_uuid, .. } => tx_uuid,
            RecordView::PageEnd { tx_uuid, .. } => tx_uuid,
        }
    }

    pub open spec fn record_type(self) -> RecordType {
        match self {
            RecordView::Begin { .. } => RecordType::TxBegin,
            RecordView::Put { .. } => RecordType::KvRecord,
            RecordView::Delete { .. } => RecordType::DeleteRecord,
            RecordView::End { .. } => RecordType::TxPreparedEnd,
            RecordView::PageEnd { .. } => RecordType::PageEnd,
        }
    }

    /// The length of the encoded record.
    pub open spec fn length(self) -> nat {
        match self {
            RecordView::Begin { .. } => TX_BEGIN_ENCODED_LEN as nat,
            RecordView::Put { key, value, .. } => (KV_RECORD_FIXED_LEN_WITH_CRC + key.len()
                + value.len()) as nat,
            RecordView::Delete { key, .. } => (DELETE_RECORD_FIXED_LEN + key.len()) as nat,
            RecordView::End { .. } => TX_PREPARED_END_ENCODED_LEN as nat,
            RecordView::PageEnd { length, .. } => length as nat,
        }
    }

    /// The fields of the record are such as a transaction can have.
    pub open spec fn valid(self) -> bool {
        &&& is_transaction(self.commit_seq(), self.tx_uuid())
        &&& match self {
            RecordView::Begin { vlog_begin, logical_op_count, distinct_key_count, .. } => {
                vlog_begin.valid() && counts_agree(logical_op_count, distinct_key_count)
            },
            RecordView::Put { key, value, .. } => 0 < key.len() && key.len() + value.len()
                <= MAX_PAYLOAD_LEN,
            RecordView::Delete { key, .. } => 0 < key.len() <= MAX_PAYLOAD_LEN,
            RecordView::End {
                vlog_begin,
                vlog_end,
                logical_op_count,
                distinct_key_count,
                kv_record_count,
                delete_record_count,
                ..
            } => {
                &&& vlog_begin.valid()
                &&& vlog_end.valid()
                &&& position_before(vlog_begin, vlog_end)
                &&& counts_agree(logical_op_count, distinct_key_count)
                &&& kv_record_count + delete_record_count == logical_op_count
            },
            RecordView::PageEnd { length, .. } => length >= PAGE_END_MIN_SIZE,
        }
    }

    /// The header at the front of the record.
    pub open spec fn header(self) -> Seq<u8> {
        record_header_bytes(
            VLOG_FORMAT_VERSION,
            self.record_type(),
            self.length() as u32,
            self.commit_seq(),
            self.tx_uuid(),
        )
    }

    /// What stands between the header and the checksum.
    pub open spec fn payload(self) -> Seq<u8> {
        match self {
            RecordView::Begin { vlog_begin, logical_op_count, distinct_key_count, .. } => {
                le_bytes(vlog_begin.file_id as nat, 4) + le_bytes(vlog_begin.offset as nat, 8)
                    + le_bytes(logical_op_count as nat, 8) + le_bytes(distinct_key_count as nat, 8)
            },
            RecordView::Put { op_index, key, value, .. } => {
                le_bytes(op_index as nat, 8) + le_bytes(key.len(), 2) + le_bytes(value.len(), 2)
                    + key + value
            },
            RecordView::Delete { op_index, key, .. } => {
                le_bytes(op_index as nat, 8) + le_bytes(key.len(), 2) + key
            },
            RecordView::End {
                vlog_begin,
                vlog_end,
                logical_op_count,
                distinct_key_count,
                kv_record_count,
                delete_record_count,
                envelope_crc32c,
                ..
            } => {
                le_bytes(vlog_begin.file_id as nat, 4) + le_bytes(vlog_begin.offset as nat, 8)
                    + le_bytes(vlog_end.file_id as nat, 4) + le_bytes(vlog_end.offset as nat, 8)
                    + le_bytes(logical_op_count as nat, 8) + le_bytes(distinct_key_count as nat, 8)
                    + le_bytes(kv_record_count as nat, 8) + le_bytes(delete_record_count as nat, 8)
                    + le_bytes(envelope_crc32c as nat, 4)
            },
            RecordView::PageEnd { length, .. } => zeros((length - PAGE_END_MIN_SIZE) as nat),
        }
    }

    /// The encoded record. All but the end record close with the checksum of what precedes it;
    /// the end record has its checksum before a trailer, so that its length and its mark are
    /// found from behind, and its checksum covers the trailer too.
    pub open spec fn bytes(self) -> Seq<u8> {
        let front = self.header() + self.payload();
        match self {
            RecordView::End { .. } => {
                front + le_bytes(crc32c_appended(crc32c_of(front), end_trailer()) as nat, 4)
                    + end_trailer()
            },
            _ => sealed(front),
        }
    }
}

/// What an end record ends with: its length and its mark.
pub open spec fn end_trailer() -> Seq<u8> {
    le_bytes(TX_PREPARED_END_ENCODED_LEN as nat, 4) + le_bytes(END_TRAILER_MAGIC as nat, 4)
}

/// A record may stand at a position of the log: it has valid fields and stays inside its page;
/// an end record names the position behind it, and a record that closes a page ends with it.
pub open spec fn record_at(
    record: RecordView,
    start: VLogPosition,
    geometry: VLogGeometry,
) -> bool {
    &&& record.valid()
    &&& record_fits(record.length(), start, geometry)
    &&& match record {
        RecordView::End { vlog_end, .. } => vlog_end == (VLogPosition {
            file_id: start.file_id,
            offset: (start.offset + TX_PREPARED_END_ENCODED_LEN) as u64,
        }),
        RecordView::PageEnd { length, .. } => length == geometry.remaining(start.offset as int),
        _ => true,
    }
}

impl TxBegin {
    pub open spec fn record(self) -> RecordView {
        RecordView::Begin {
            commit_seq: self.commit_seq,
            tx_uuid: self.tx_uuid@,
            vlog_begin: self.vlog_begin,
            logical_op_count: self.logical_op_count,
            distinct_key_count: self.distinct_key_count,
        }
    }
}

impl TxPreparedEnd {
    pub open spec fn record(self) -> RecordView {
        RecordView::End {
            commit_seq: self.commit_seq,
            tx_uuid: self.tx_uuid@,
            vlog_begin: self.vlog_begin,
            vlog_end: self.vlog_end,
            logical_op_count: self.logical_op_count,
            distinct_key_count: self.distinct_key_count,
            kv_record_count: self.kv_record_count,
            delete_record_count: self.delete_record_count,
            envelope_crc32c: self.envelope_crc32c,
        }
    }
}

impl KvRecordRef<'_> {
    pub open spec fn record(self) -> RecordView {
        RecordView::Put {
            commit_seq: self.commit_seq,
            tx_uuid: self.tx_uuid@,
            op_index: self.op_index,
            key: self.key@,
            value: self.value@,
        }
    }
}

impl DeleteRecordRef<'_> {
    pub open spec fn record(self) -> RecordView {
        RecordView::Delete {
            commit_seq: self.commit_seq,
            tx_uuid: self.tx_uuid@,
            op_index: self.op_index,
            key: self.key@,
        }
    }
}

impl DecodedRecord<'_> {
    pub open spec fn record(self) -> RecordView {
        match self {
            DecodedRecord::TxBegin(begin) => begin.record(),
            DecodedRecord::KvRecord(record) => record.record(),
            DecodedRecord::DeleteRecord(record) => record.record(),
            DecodedRecord::TxPreparedEnd(footer) => footer.record(),
            DecodedRecord::PageEnd(header) => RecordView::PageEnd {
                commit_seq: header.commit_seq,
                tx_uuid: header.tx_uuid@,
                length: header.encoded_len,
            },
        }
    }

    /// The transaction that a record belongs to.
    pub fn identity(&self) -> (identity: (u64, [u8; 16]))
        ensures
            identity.0 == self.record().commit_seq(),
            identity.1@ == self.record().tx_uuid(),
    {
        match self {
            DecodedRecord::TxBegin(begin) => (begin.commit_seq, begin.tx_uuid),
            DecodedRecord::KvRecord(record) => (record.commit_seq, record.tx_uuid),
            DecodedRecord::DeleteRecord(record) => (record.commit_seq, record.tx_uuid),
            DecodedRecord::TxPreparedEnd(footer) => (footer.commit_seq, footer.tx_uuid),
            DecodedRecord::PageEnd(header) => (header.commit_seq, header.tx_uuid),
        }
    }
}

/// What encoding a record answers: a refusal where it is not valid, that memory is exhausted
/// where it was refused, and else its bytes.
pub open spec fn encodes(
    result: Result<Vec<u8>>,
    valid: bool,
    bytes: Seq<u8>,
    refused: bool,
) -> bool {
    if !valid {
        !refused && (result matches Err(error) && error@ == invalid_vlog_view(
            StorageErrorKind::InvalidArgument,
        ))
    } else if refused {
        result matches Err(error) && error@ == invalid_vlog_view(
            StorageErrorKind::ResourceExhausted,
        )
    } else {
        result matches Ok(encoded) && encoded@ == bytes
    }
}

/// An empty buffer with room for a record.
fn record_buffer(memory: &mut Memory, length: usize) -> (result: Result<Vec<u8>>)
    requires
        !old(memory).refused(),
    ensures
        match result {
            Ok(buffer) => !final(memory).refused() && buffer@.len() == 0,
            Err(error) => final(memory).refused() && error@ == invalid_vlog_view(
                StorageErrorKind::ResourceExhausted,
            ),
        },
        asked(*old(memory), *final(memory), 1, length as nat),
{
    let mut buffer: Vec<u8> = Vec::new();
    if memory.reserve_exact(&mut buffer, length) {
        Ok(buffer)
    } else {
        Err(invalid_vlog_error(StorageErrorKind::ResourceExhausted))
    }
}

pub fn encode_tx_begin(memory: &mut Memory, begin: TxBegin) -> (result: Result<Vec<u8>>)
    requires
        !old(memory).refused(),
    ensures
        encodes(result, begin.record().valid(), begin.record().bytes(), final(memory).refused()),
        if begin.record().valid() {
            asked(*old(memory), *final(memory), 1, begin.record().length())
        } else {
            *final(memory) == *old(memory)
        },
{
    if validate_tx_begin(begin).is_err() {
        return Err(invalid_vlog_error(StorageErrorKind::InvalidArgument));
    }
    let buffer = record_buffer(memory, TX_BEGIN_ENCODED_LEN as usize)?;
    Ok(tx_begin_bytes(begin, buffer))
}

/// Fills an empty buffer with a begin record.
fn tx_begin_bytes(begin: TxBegin, buffer: Vec<u8>) -> (encoded: Vec<u8>)
    requires
        buffer@.len() == 0,
    ensures
        encoded@ == begin.record().bytes(),
{
    let mut out: Vec<u8> = buffer;
    RecordHeader::new(
        RecordType::TxBegin,
        TX_BEGIN_ENCODED_LEN,
        begin.commit_seq,
        begin.tx_uuid,
    ).append_to(&mut out);
    append_le(&mut out, begin.vlog_begin.file_id as u64, 4);
    append_le(&mut out, begin.vlog_begin.offset, 8);
    append_le(&mut out, begin.logical_op_count, 8);
    append_le(&mut out, begin.distinct_key_count, 8);
    proof {
        assert(out@ =~= begin.record().header() + begin.record().payload());
    }
    append_checksum(&mut out);
    out
}

pub fn encode_kv_record(memory: &mut Memory, record: KvRecordRef<'_>) -> (result: Result<Vec<u8>>)
    requires
        !old(memory).refused(),
    ensures
        encodes(result, record.record().valid(), record.record().bytes(), final(memory).refused()),
        if record.record().valid() {
            asked(*old(memory), *final(memory), 1, record.record().length())
        } else {
            *final(memory) == *old(memory)
        },
{
    if validate_identity(record.commit_seq, &record.tx_uuid).is_err() || record.key.len() == 0
        || record.key.len() > MAX_PAYLOAD_LEN as usize || record.value.len()
        > MAX_PAYLOAD_LEN as usize || record.key.len() + record.value.len()
        > MAX_PAYLOAD_LEN as usize {
        return Err(invalid_vlog_error(StorageErrorKind::InvalidArgument));
    }
    let length: usize = KV_RECORD_FIXED_LEN_WITH_CRC as usize + record.key.len()
        + record.value.len();
    let buffer = record_buffer(memory, length)?;
    Ok(kv_record_bytes(record, buffer))
}

/// Fills an empty buffer with a key-value record.
fn kv_record_bytes(record: KvRecordRef<'_>, buffer: Vec<u8>) -> (encoded: Vec<u8>)
    requires
        buffer@.len() == 0,
        record.record().valid(),
    ensures
        encoded@ == record.record().bytes(),
{
    let mut out: Vec<u8> = buffer;
    let length: u32 = KV_RECORD_FIXED_LEN_WITH_CRC + record.key.len() as u32
        + record.value.len() as u32;
    RecordHeader::new(RecordType::KvRecord, length, record.commit_seq, record.tx_uuid).append_to(
        &mut out,
    );
    append_le(&mut out, record.op_index, 8);
    append_le(&mut out, record.key.len() as u64, 2);
    append_le(&mut out, record.value.len() as u64, 2);
    append_bytes(&mut out, record.key);
    append_bytes(&mut out, record.value);
    proof {
        assert(out@ =~= record.record().header() + record.record().payload());
    }
    append_checksum(&mut out);
    out
}

pub fn encode_delete_record(memory: &mut Memory, record: DeleteRecordRef<'_>) -> (result: Result<Vec<u8>>)
    requires
        !old(memory).refused(),
    ensures
        encodes(result, record.record().valid(), record.record().bytes(), final(memory).refused()),
        if record.record().valid() {
            asked(*old(memory), *final(memory), 1, record.record().length())
        } else {
            *final(memory) == *old(memory)
        },
{
    if validate_identity(record.commit_seq, &record.tx_uuid).is_err() || record.key.len() == 0
        || record.key.len() > MAX_PAYLOAD_LEN as usize {
        return Err(invalid_vlog_error(StorageErrorKind::InvalidArgument));
    }
    let buffer = record_buffer(memory, DELETE_RECORD_FIXED_LEN as usize + record.key.len())?;
    Ok(delete_record_bytes(record, buffer))
}

/// Fills an empty buffer with a delete record.
fn delete_record_bytes(record: DeleteRecordRef<'_>, buffer: Vec<u8>) -> (encoded: Vec<u8>)
    requires
        buffer@.len() == 0,
        record.record().valid(),
    ensures
        encoded@ == record.record().bytes(),
{
    let mut out: Vec<u8> = buffer;
    let length: u32 = DELETE_RECORD_FIXED_LEN + record.key.len() as u32;
    RecordHeader::new(
        RecordType::DeleteRecord,
        length,
        record.commit_seq,
        record.tx_uuid,
    ).append_to(&mut out);
    append_le(&mut out, record.op_index, 8);
    append_le(&mut out, record.key.len() as u64, 2);
    append_bytes(&mut out, record.key);
    proof {
        assert(out@ =~= record.record().header() + record.record().payload());
    }
    append_checksum(&mut out);
    out
}

pub fn encode_tx_prepared_end(memory: &mut Memory, footer: TxPreparedEnd) -> (result: Result<Vec<u8>>)
    requires
        !old(memory).refused(),
    ensures
        encodes(result, footer.record().valid(), footer.record().bytes(), final(memory).refused()),
        if footer.record().valid() {
            asked(*old(memory), *final(memory), 1, footer.record().length())
        } else {
            *final(memory) == *old(memory)
        },
{
    if validate_tx_prepared_end(footer).is_err() {
        return Err(invalid_vlog_error(StorageErrorKind::InvalidArgument));
    }
    let buffer = record_buffer(memory, TX_PREPARED_END_ENCODED_LEN as usize)?;
    Ok(tx_prepared_end_bytes(footer, buffer))
}

/// The checksum of a front part, carried on over the trailer of an end record.
fn end_checksum(front: &[u8], trailer: &[u8]) -> (value: u32)
    ensures
        value == crc32c_appended(crc32c_of(front@), trailer@),
{
    crc32c_extend(checksum(front), trailer)
}

/// Fills an empty buffer with an end record.
fn tx_prepared_end_bytes(footer: TxPreparedEnd, buffer: Vec<u8>) -> (encoded: Vec<u8>)
    requires
        buffer@.len() == 0,
    ensures
        encoded@ == footer.record().bytes(),
{
    let mut out: Vec<u8> = buffer;
    RecordHeader::new(
        RecordType::TxPreparedEnd,
        TX_PREPARED_END_ENCODED_LEN,
        footer.commit_seq,
        footer.tx_uuid,
    ).append_to(&mut out);
    append_le(&mut out, footer.vlog_begin.file_id as u64, 4);
    append_le(&mut out, footer.vlog_begin.offset, 8);
    append_le(&mut out, footer.vlog_end.file_id as u64, 4);
    append_le(&mut out, footer.vlog_end.offset, 8);
    append_le(&mut out, footer.logical_op_count, 8);
    append_le(&mut out, footer.distinct_key_count, 8);
    append_le(&mut out, footer.kv_record_count, 8);
    append_le(&mut out, footer.delete_record_count, 8);
    append_le(&mut out, footer.envelope_crc32c as u64, 4);
    let ghost front = footer.record().header() + footer.record().payload();
    proof {
        assert(out@ =~= front);
    }
    let mut trailer: Vec<u8> = Vec::new();
    append_le(&mut trailer, TX_PREPARED_END_ENCODED_LEN as u64, 4);
    append_le(&mut trailer, END_TRAILER_MAGIC as u64, 4);
    proof {
        assert(trailer@ =~= end_trailer());
    }
    let value: u32 = end_checksum(out.as_slice(), trailer.as_slice());
    append_le(&mut out, value as u64, 4);
    append_bytes(&mut out, trailer.as_slice());
    out
}

/// A page may be closed from a position on: the rest of the page has room for a record.
pub open spec fn page_can_be_closed(start: VLogPosition, geometry: VLogGeometry) -> bool {
    geometry.valid() && geometry.record_may_start(start) && geometry.remaining(start.offset as int)
        >= PAGE_END_MIN_SIZE
}

pub open spec fn page_end_record(
    commit_seq: u64,
    tx_uuid: Seq<u8>,
    start: VLogPosition,
    geometry: VLogGeometry,
) -> RecordView {
    RecordView::PageEnd {
        commit_seq,
        tx_uuid,
        length: geometry.remaining(start.offset as int) as u32,
    }
}

/// Encodes the record that fills the rest of a page.
pub fn encode_page_end(
    memory: &mut Memory,
    commit_seq: u64,
    tx_uuid: [u8; 16],
    record_start: VLogPosition,
    geometry: VLogGeometry,
) -> (result: Result<Vec<u8>>)
    requires
        !old(memory).refused(),
    ensures
        encodes(
            result,
            is_transaction(commit_seq, tx_uuid@) && page_can_be_closed(record_start, geometry),
            page_end_record(commit_seq, tx_uuid@, record_start, geometry).bytes(),
            final(memory).refused(),
        ),
        if is_transaction(commit_seq, tx_uuid@) && page_can_be_closed(record_start, geometry) {
            asked(
                *old(memory),
                *final(memory),
                1,
                geometry.remaining(record_start.offset as int) as nat,
            )
        } else {
            *final(memory) == *old(memory)
        },
{
    if validate_identity(commit_seq, &tx_uuid).is_err() || !geometry.is_valid() || !is_record_start(
        record_start,
        geometry,
    ) {
        return Err(invalid_vlog_error(StorageErrorKind::InvalidArgument));
    }
    proof {
        lemma_page_end(geometry, record_start.offset as int);
    }
    let remaining: u64 = match remaining_in_page(record_start.offset, geometry) {
        Ok(remaining) => remaining,
        Err(error) => return Err(error),
    };
    if remaining < PAGE_END_MIN_SIZE as u64 {
        return Err(invalid_vlog_error(StorageErrorKind::InvalidArgument));
    }
    let buffer = record_buffer(memory, remaining as usize)?;
    Ok(page_end_bytes(commit_seq, tx_uuid, remaining as u32, buffer))
}

/// Fills an empty buffer with a record that closes a page.
fn page_end_bytes(commit_seq: u64, tx_uuid: [u8; 16], length: u32, buffer: Vec<u8>) -> (encoded:
    Vec<u8>)
    requires
        buffer@.len() == 0,
        length >= PAGE_END_MIN_SIZE,
    ensures
        encoded@ == (RecordView::PageEnd { commit_seq, tx_uuid: tx_uuid@, length }).bytes(),
{
    let ghost record = RecordView::PageEnd { commit_seq, tx_uuid: tx_uuid@, length };
    let mut out: Vec<u8> = buffer;
    RecordHeader::new(RecordType::PageEnd, length, commit_seq, tx_uuid).append_to(&mut out);
    append_zeros(&mut out, (length - PAGE_END_MIN_SIZE) as usize);
    proof {
        assert(out@ =~= record.header() + record.payload());
    }
    append_checksum(&mut out);
    out
}

pub fn validate_tx_begin(begin: TxBegin) -> (result: Result<()>)
    ensures
        match result {
            Ok(_) => begin.record().valid(),
            Err(error) => !begin.record().valid() && error@ == decode_view(
                StorageErrorKind::Corruption,
            ),
        },
{
    validate_identity(begin.commit_seq, &begin.tx_uuid)?;
    begin.vlog_begin.validate()?;
    if begin.logical_op_count == 0 || begin.distinct_key_count == 0 || begin.distinct_key_count
        > begin.logical_op_count {
        return Err(decode_error(StorageErrorKind::Corruption));
    }
    Ok(())
}

pub fn validate_tx_prepared_end(footer: TxPreparedEnd) -> (result: Result<()>)
    ensures
        match result {
            Ok(_) => footer.record().valid(),
            Err(error) => !footer.record().valid() && error@ == decode_view(
                StorageErrorKind::Corruption,
            ),
        },
{
    validate_identity(footer.commit_seq, &footer.tx_uuid)?;
    footer.vlog_begin.validate()?;
    footer.vlog_end.validate()?;
    let actual_count: u64 = match footer.kv_record_count.checked_add(footer.delete_record_count) {
        Some(count) => count,
        None => return Err(decode_error(StorageErrorKind::Corruption)),
    };
    if !footer.vlog_begin.before(footer.vlog_end) || footer.logical_op_count == 0
        || footer.distinct_key_count == 0 || footer.distinct_key_count > footer.logical_op_count
        || actual_count != footer.logical_op_count {
        return Err(decode_error(StorageErrorKind::Corruption));
    }
    Ok(())
}

/// Every operation has a record: a key of at least one byte and a value, together at most sixty
/// thousand bytes. A transaction has an operation and a key, and no more keys than operations, and
/// lies between two places of the log. A record that closes a page has at least its own parts.
pub proof fn law_records_of_every_operation(
    record: RecordView,
    commit_seq: u64,
    tx_uuid: Seq<u8>,
    op_index: u64,
    key: Seq<u8>,
    value: Seq<u8>,
    length: u32,
)
    requires
        is_transaction(commit_seq, tx_uuid),
    ensures
        (RecordView::Put { commit_seq, tx_uuid, op_index, key, value }).valid() <==> key.len() >= 1
            && key.len() + value.len() <= 60_000,
        (RecordView::Delete { commit_seq, tx_uuid, op_index, key }).valid() <==> 1 <= key.len()
            <= 60_000,
        (RecordView::PageEnd { commit_seq, tx_uuid, length }).valid() <==> length >= 43,
        record.valid() ==> is_transaction(record.commit_seq(), record.tx_uuid()),
        record is Begin && record.valid() ==> record->Begin_distinct_key_count >= 1
            && record->Begin_logical_op_count >= record->Begin_distinct_key_count,
        record is End && record.valid() ==> record->End_distinct_key_count >= 1
            && record->End_logical_op_count >= record->End_distinct_key_count
            && record->End_logical_op_count == record->End_kv_record_count
            + record->End_delete_record_count && position_before(
            record->End_vlog_begin,
            record->End_vlog_end,
        ),
{
}

/// A transaction whose counts agree, and that lies between two places, has its two records.
pub proof fn law_records_of_every_transaction(
    commit_seq: u64,
    tx_uuid: Seq<u8>,
    vlog_begin: VLogPosition,
    vlog_end: VLogPosition,
    puts: u64,
    deletes: u64,
    keys: u64,
    envelope_crc32c: u32,
)
    requires
        is_transaction(commit_seq, tx_uuid),
        vlog_begin.file_id <= 999_999 && vlog_begin.offset <= 4_294_967_296,
        vlog_end.file_id <= 999_999 && vlog_end.offset <= 4_294_967_296,
        position_before(vlog_begin, vlog_end),
        puts + deletes <= u64::MAX,
        1 <= keys <= puts + deletes,
    ensures
        (RecordView::Begin {
            commit_seq,
            tx_uuid,
            vlog_begin,
            logical_op_count: (puts + deletes) as u64,
            distinct_key_count: keys,
        }).valid(),
        (RecordView::End {
            commit_seq,
            tx_uuid,
            vlog_begin,
            vlog_end,
            logical_op_count: (puts + deletes) as u64,
            distinct_key_count: keys,
            kv_record_count: puts,
            delete_record_count: deletes,
            envelope_crc32c,
        }).valid(),
{
}

/// The record that closes a page reaches from where it begins to the end of the page, and stands
/// there as a record of its transaction. A page can be closed wherever a record may begin and 43
/// bytes are left.
pub proof fn law_page_is_closed_to_its_end(
    commit_seq: u64,
    tx_uuid: Seq<u8>,
    start: VLogPosition,
    geometry: VLogGeometry,
)
    requires
        geometry.valid(),
        is_transaction(commit_seq, tx_uuid),
        geometry.record_may_start(start),
    ensures
        page_can_be_closed(start, geometry) <==> geometry.page_end(start.offset as int)
            - start.offset >= 43,
        page_can_be_closed(start, geometry) ==> ({
            let record = page_end_record(commit_seq, tx_uuid, start, geometry);
            &&& record is PageEnd
            &&& record.commit_seq() == commit_seq && record.tx_uuid() == tx_uuid
            &&& record_at(record, start, geometry)
            &&& start.offset + record.length() == geometry.page_end(start.offset as int)
        }),
{
    lemma_page_end(geometry, start.offset as int);
}

/// What a record answers when it is encoded: nothing is encoded that is not valid, and something
/// valid fails only for want of memory.
pub proof fn law_only_valid_records_are_encoded(
    result: Result<Vec<u8>>,
    valid: bool,
    bytes: Seq<u8>,
    refused: bool,
)
    requires
        encodes(result, valid, bytes, refused),
    ensures
        result is Ok <==> valid && !refused,
        result matches Ok(encoded) ==> encoded@ == bytes,
        result matches Err(error) ==> (error@.kind == StorageErrorKind::InvalidArgument <==>
            !valid) && (error@.kind == StorageErrorKind::ResourceExhausted <==> valid),
{
}

} // verus!
