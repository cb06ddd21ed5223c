//! Decoding of records.

use vstd::prelude::*;
use vstd::slice::slice_subrange;

use crate::bytes::{
    all_zero, le_bytes, lemma_byte_limits, lemma_fixed_widths, lemma_le_bytes_len,
    lemma_written_number, read_u16, read_u32, read_u64, u16_at, u32_at, u64_at,
};
use crate::checksum::{checksum, crc32c_appended, crc32c_extend, crc32c_of};
use crate::error::{Result, StorageErrorKind};
use crate::vlog::geometry::{
    decode_error, decode_view, lemma_page_end, record_fits, remaining_in_page,
    validate_record_bounds, VLogGeometry, VLogPosition, PAGE_END_MIN_SIZE,
};
use crate::vlog::header::{
    checksum_matches, is_sealed, is_transaction, lemma_record_header_layout, lemma_sealed,
    lemma_unsealed, record_header_error, RecordHeader, RecordType, RECORD_HEADER_ENCODED_LEN,
    VLOG_FORMAT_VERSION,
};
use crate::vlog::pointer::{MAX_KV_RECORD_LEN, MAX_PAYLOAD_LEN, MIN_KV_RECORD_LEN};
use crate::vlog::record::{
    end_trailer, record_at, validate_tx_begin, validate_tx_prepared_end, DecodedRecord,
    DeleteRecordRef, KvRecordRef, RecordView, TxBegin, TxPreparedEnd, END_TRAILER_MAGIC,
    MAX_DELETE_RECORD_LEN, MIN_DELETE_RECORD_LEN, TX_BEGIN_ENCODED_LEN, TX_PREPARED_END_ENCODED_LEN,
};

verus! {

/// The header of a valid record, and what follows from it for every record.
pub proof fn lemma_record_front(record: RecordView)
    requires
        record.valid(),
    ensures
        record.bytes().len() == record.length(),
        record.length() >= PAGE_END_MIN_SIZE,
        record.length() <= u32::MAX,
        record.bytes().take(RECORD_HEADER_ENCODED_LEN as int) == record.header(),
        record.header().len() == RECORD_HEADER_ENCODED_LEN,
        record.payload().len() == record.length() - PAGE_END_MIN_SIZE - (if record is End {
            8int
        } else {
            0
        }),
        !(record is End) ==> is_sealed(record.bytes(), record.length() - 4) && record.bytes().take(
            record.length() - 4,
        ) == record.header() + record.payload(),
{
    lemma_record_header_layout(
        VLOG_FORMAT_VERSION,
        record.record_type(),
        record.length() as u32,
        record.commit_seq(),
        record.tx_uuid(),
    );
    let front = record.header() + record.payload();
    match record {
        RecordView::Begin { vlog_begin, logical_op_count, distinct_key_count, .. } => {
            lemma_le_bytes_len(vlog_begin.file_id as nat, 4);
            lemma_le_bytes_len(vlog_begin.offset as nat, 8);
            lemma_le_bytes_len(logical_op_count as nat, 8);
            lemma_le_bytes_len(distinct_key_count as nat, 8);
        },
        RecordView::Put { op_index, key, value, .. } => {
            lemma_le_bytes_len(op_index as nat, 8);
            lemma_le_bytes_len(key.len(), 2);
            lemma_le_bytes_len(value.len(), 2);
        },
        RecordView::Delete { op_index, key, .. } => {
            lemma_le_bytes_len(op_index as nat, 8);
            lemma_le_bytes_len(key.len(), 2);
        },
        RecordView::End {
            vlog_begin,
            vlog_end,
            logical_op_count,
            distinct_key_count,
            kv_record_count,
            delete_record_count,
            envelope_crc32c,
            ..
        } => {
            lemma_le_bytes_len(vlog_begin.file_id as nat, 4);
            lemma_le_bytes_len(vlog_begin.offset as nat, 8);
            lemma_le_bytes_len(vlog_end.file_id as nat, 4);
            lemma_le_bytes_len(vlog_end.offset as nat, 8);
            lemma_le_bytes_len(logical_op_count as nat, 8);
            lemma_le_bytes_len(distinct_key_count as nat, 8);
            lemma_le_bytes_len(kv_record_count as nat, 8);
            lemma_le_bytes_len(delete_record_count as nat, 8);
            lemma_le_bytes_len(envelope_crc32c as nat, 4);
            lemma_le_bytes_len(TX_PREPARED_END_ENCODED_LEN as nat, 4);
            lemma_le_bytes_len(END_TRAILER_MAGIC as nat, 4);
            lemma_le_bytes_len(
                crc32c_appended(crc32c_of(front), end_trailer()) as nat,
                4,
            );
        },
        RecordView::PageEnd { .. } => {},
    }
    if !(record is End) {
        lemma_sealed(front);
    }
    assert(record.bytes().take(RECORD_HEADER_ENCODED_LEN as int) =~= record.header());
}

/// The fields of a begin record lie where its decoder looks for them.
proof fn lemma_begin_fields(record: RecordView)
    requires
        record is Begin,
        record.valid(),
    ensures
        ({
            let b = record.bytes();
            &&& u32_at(b, 39) == record->Begin_vlog_begin.file_id
            &&& u64_at(b, 43) == record->Begin_vlog_begin.offset
            &&& u64_at(b, 51) == record->Begin_logical_op_count
            &&& u64_at(b, 59) == record->Begin_distinct_key_count
        }),
{
    lemma_record_front(record);
    lemma_byte_limits();
    let b = record.bytes();
    let p = record.payload();
    assert(forall|i: int| 0 <= i < p.len() ==> b[39 + i] == p[i]) by {
        assert(forall|i: int|
            0 <= i < p.len() ==> b.take(record.length() - 4)[39 + i] == p[i]);
    }
    lemma_le_bytes_len(record->Begin_vlog_begin.file_id as nat, 4);
    lemma_le_bytes_len(record->Begin_vlog_begin.offset as nat, 8);
    lemma_le_bytes_len(record->Begin_logical_op_count as nat, 8);
    lemma_le_bytes_len(record->Begin_distinct_key_count as nat, 8);
    assert(b.subrange(39, 43) =~= le_bytes(record->Begin_vlog_begin.file_id as nat, 4));
    assert(b.subrange(43, 51) =~= le_bytes(record->Begin_vlog_begin.offset as nat, 8));
    assert(b.subrange(51, 59) =~= le_bytes(record->Begin_logical_op_count as nat, 8));
    assert(b.subrange(59, 67) =~= le_bytes(record->Begin_distinct_key_count as nat, 8));
    lemma_written_number(b, 39, record->Begin_vlog_begin.file_id as nat, 4);
    lemma_written_number(b, 43, record->Begin_vlog_begin.offset as nat, 8);
    lemma_written_number(b, 51, record->Begin_logical_op_count as nat, 8);
    lemma_written_number(b, 59, record->Begin_distinct_key_count as nat, 8);
}

/// The fields of a key-value record lie where its decoder looks for them.
proof fn lemma_put_fields(record: RecordView)
    requires
        record is Put,
        record.valid(),
    ensures
        ({
            let b = record.bytes();
            let key = record->Put_key;
            let value = record->Put_value;
            &&& u64_at(b, 39) == record->Put_op_index
            &&& u16_at(b, 47) == key.len()
            &&& u16_at(b, 49) == value.len()
            &&& b.subrange(51, 51int + key.len()) == key
            &&& b.subrange(51int + key.len(), 51int + key.len() + value.len()) == value
        }),
{
    lemma_record_front(record);
    lemma_byte_limits();
    let b = record.bytes();
    let p = record.payload();
    let key = record->Put_key;
    let value = record->Put_value;
    assert(forall|i: int| 0 <= i < p.len() ==> b[39 + i] == p[i]) by {
        assert(forall|i: int|
            0 <= i < p.len() ==> b.take(record.length() - 4)[39 + i] == p[i]);
    }
    lemma_le_bytes_len(record->Put_op_index as nat, 8);
    lemma_le_bytes_len(key.len(), 2);
    lemma_le_bytes_len(value.len(), 2);
    assert(b.subrange(39, 47) =~= le_bytes(record->Put_op_index as nat, 8));
    assert(b.subrange(47, 49) =~= le_bytes(key.len(), 2));
    assert(b.subrange(49, 51) =~= le_bytes(value.len(), 2));
    assert(b.subrange(51, 51int + key.len()) =~= key);
    assert(b.subrange(51int + key.len(), 51int + key.len() + value.len()) =~= value);
    lemma_written_number(b, 39, record->Put_op_index as nat, 8);
    lemma_written_number(b, 47, key.len(), 2);
    lemma_written_number(b, 49, value.len(), 2);
}

/// The fields of a delete record lie where its decoder looks for them.
proof fn lemma_delete_fields(record: RecordView)
    requires
        record is Delete,
        record.valid(),
    ensures
        ({
            let b = record.bytes();
            let key = record->Delete_key;
            &&& u64_at(b, 39) == record->Delete_op_index
            &&& u16_at(b, 47) == key.len()
            &&& b.subrange(49, 49int + key.len()) == key
        }),
{
    lemma_record_front(record);
    lemma_byte_limits();
    let b = record.bytes();
    let p = record.payload();
    let key = record->Delete_key;
    assert(forall|i: int| 0 <= i < p.len() ==> b[39 + i] == p[i]) by {
        assert(forall|i: int|
            0 <= i < p.len() ==> b.take(record.length() - 4)[39 + i] == p[i]);
    }
    lemma_le_bytes_len(record->Delete_op_index as nat, 8);
    lemma_le_bytes_len(key.len(), 2);
    assert(b.subrange(39, 47) =~= le_bytes(record->Delete_op_index as nat, 8));
    assert(b.subrange(47, 49) =~= le_bytes(key.len(), 2));
    assert(b.subrange(49, 49int + key.len()) =~= key);
    lemma_written_number(b, 39, record->Delete_op_index as nat, 8);
    lemma_written_number(b, 47, key.len(), 2);
}

/// The fields of an end record lie where its decoder looks for them.
proof fn lemma_end_fields(record: RecordView)
    requires
        record is End,
        record.valid(),
    ensures
        ({
            let b = record.bytes();
            &&& u32_at(b, 39) == record->End_vlog_begin.file_id
            &&& u64_at(b, 43) == record->End_vlog_begin.offset
            &&& u32_at(b, 51) == record->End_vlog_end.file_id
            &&& u64_at(b, 55) == record->End_vlog_end.offset
            &&& u64_at(b, 63) == record->End_logical_op_count
            &&& u64_at(b, 71) == record->End_distinct_key_count
            &&& u64_at(b, 79) == record->End_kv_record_count
            &&& u64_at(b, 87) == record->End_delete_record_count
            &&& u32_at(b, 95) == record->End_envelope_crc32c
            &&& u32_at(b, 99) == crc32c_appended(crc32c_of(b.take(99)), b.subrange(103, 111))
            &&& u32_at(b, 103) == TX_PREPARED_END_ENCODED_LEN
            &&& u32_at(b, 107) == END_TRAILER_MAGIC
        }),
{
    lemma_record_front(record);
    lemma_byte_limits();
    let b = record.bytes();
    let p = record.payload();
    let front = record.header() + p;
    let crc = crc32c_appended(crc32c_of(front), end_trailer());
    lemma_le_bytes_len(record->End_vlog_begin.file_id as nat, 4);
    lemma_le_bytes_len(record->End_vlog_begin.offset as nat, 8);
    lemma_le_bytes_len(record->End_vlog_end.file_id as nat, 4);
    lemma_le_bytes_len(record->End_vlog_end.offset as nat, 8);
    lemma_le_bytes_len(record->End_logical_op_count as nat, 8);
    lemma_le_bytes_len(record->End_distinct_key_count as nat, 8);
    lemma_le_bytes_len(record->End_kv_record_count as nat, 8);
    lemma_le_bytes_len(record->End_delete_record_count as nat, 8);
    lemma_le_bytes_len(record->End_envelope_crc32c as nat, 4);
    lemma_le_bytes_len(crc as nat, 4);
    lemma_le_bytes_len(TX_PREPARED_END_ENCODED_LEN as nat, 4);
    lemma_le_bytes_len(END_TRAILER_MAGIC as nat, 4);
    assert(forall|i: int| 0 <= i < p.len() ==> b[39 + i] == p[i]);
    assert(b.subrange(39, 43) =~= le_bytes(record->End_vlog_begin.file_id as nat, 4));
    assert(b.subrange(43, 51) =~= le_bytes(record->End_vlog_begin.offset as nat, 8));
    assert(b.subrange(51, 55) =~= le_bytes(record->End_vlog_end.file_id as nat, 4));
    assert(b.subrange(55, 63) =~= le_bytes(record->End_vlog_end.offset as nat, 8));
    assert(b.subrange(63, 71) =~= le_bytes(record->End_logical_op_count as nat, 8));
    assert(b.subrange(71, 79) =~= le_bytes(record->End_distinct_key_count as nat, 8));
    assert(b.subrange(79, 87) =~= le_bytes(record->End_kv_record_count as nat, 8));
    assert(b.subrange(87, 95) =~= le_bytes(record->End_delete_record_count as nat, 8));
    assert(b.subrange(95, 99) =~= le_bytes(record->End_envelope_crc32c as nat, 4));
    assert(b.subrange(99, 103) =~= le_bytes(crc as nat, 4));
    assert(b.subrange(103, 107) =~= le_bytes(TX_PREPARED_END_ENCODED_LEN as nat, 4));
    assert(b.subrange(107, 111) =~= le_bytes(END_TRAILER_MAGIC as nat, 4));
    assert(b.take(99) =~= front);
    assert(b.subrange(103, 111) =~= end_trailer());
    lemma_written_number(b, 39, record->End_vlog_begin.file_id as nat, 4);
    lemma_written_number(b, 43, record->End_vlog_begin.offset as nat, 8);
    lemma_written_number(b, 51, record->End_vlog_end.file_id as nat, 4);
    lemma_written_number(b, 55, record->End_vlog_end.offset as nat, 8);
    lemma_written_number(b, 63, record->End_logical_op_count as nat, 8);
    lemma_written_number(b, 71, record->End_distinct_key_count as nat, 8);
    lemma_written_number(b, 79, record->End_kv_record_count as nat, 8);
    lemma_written_number(b, 87, record->End_delete_record_count as nat, 8);
    lemma_written_number(b, 95, record->End_envelope_crc32c as nat, 4);
    lemma_written_number(b, 99, crc as nat, 4);
    lemma_written_number(b, 103, TX_PREPARED_END_ENCODED_LEN as nat, 4);
    lemma_written_number(b, 107, END_TRAILER_MAGIC as nat, 4);
}

/// An end record ends with its length and its mark.
pub proof fn lemma_end_trailer(record: RecordView)
    requires
        record is End,
        record.valid(),
    ensures
        u32_at(record.bytes(), 103) == TX_PREPARED_END_ENCODED_LEN,
        u32_at(record.bytes(), 107) == END_TRAILER_MAGIC,
{
    lemma_end_fields(record);
}

/// Two valid records with the same bytes are the same record.
pub proof fn law_record_round_trip(a: RecordView, b: RecordView)
    requires
        a.valid(),
        b.valid(),
        a.bytes() == b.bytes(),
    ensures
        a == b,
{
    lemma_record_front(a);
    lemma_record_front(b);
    lemma_record_header_layout(
        VLOG_FORMAT_VERSION,
        a.record_type(),
        a.length() as u32,
        a.commit_seq(),
        a.tx_uuid(),
    );
    lemma_record_header_layout(
        VLOG_FORMAT_VERSION,
        b.record_type(),
        b.length() as u32,
        b.commit_seq(),
        b.tx_uuid(),
    );
    assert(a.record_type() == b.record_type());
    match a {
        RecordView::Begin { .. } => {
            lemma_begin_fields(a);
            lemma_begin_fields(b);
        },
        RecordView::Put { .. } => {
            lemma_put_fields(a);
            lemma_put_fields(b);
        },
        RecordView::Delete { .. } => {
            lemma_delete_fields(a);
            lemma_delete_fields(b);
        },
        RecordView::End { .. } => {
            lemma_end_fields(a);
            lemma_end_fields(b);
        },
        RecordView::PageEnd { .. } => {},
    }
}

/// What decoding the body of a record of one type answers: the record whose bytes these are,
/// or, where there is none, that the bytes are corrupt.
pub open spec fn decodes_body(
    encoded: Seq<u8>,
    record_type: RecordType,
    result: Result<RecordView>,
) -> bool {
    match result {
        Ok(record) => record.valid() && record.record_type() == record_type && encoded
            == record.bytes(),
        Err(error) => {
            &&& error@ == decode_view(StorageErrorKind::Corruption)
            &&& forall|record: RecordView|
                record.valid() && record.record_type() == record_type ==> encoded
                    != #[trigger] record.bytes()
        },
    }
}

/// The header that a decoder of a record body is handed: the one at the front of the record,
/// with the length of the record.
pub open spec fn header_of(encoded: Seq<u8>, header: RecordHeader, record_type: RecordType) -> bool {
    &&& header.valid()
    &&& header.record_type == record_type
    &&& encoded.len() >= RECORD_HEADER_ENCODED_LEN
    &&& encoded.take(RECORD_HEADER_ENCODED_LEN as int) == header.encoded()
    &&& header.encoded_len == encoded.len()
}

/// A record with the type, length and transaction of a header begins with that header.
proof fn lemma_front_of(encoded: Seq<u8>, header: RecordHeader, record: RecordView)
    requires
        header_of(encoded, header, record.record_type()),
        record.length() == encoded.len(),
        record.commit_seq() == header.commit_seq,
        record.tx_uuid() == header.tx_uuid@,
    ensures
        encoded.take(RECORD_HEADER_ENCODED_LEN as int) == record.header(),
{
}

pub fn decode_tx_begin(encoded: &[u8], header: RecordHeader) -> (result: Result<TxBegin>)
    requires
        header_of(encoded@, header, RecordType::TxBegin),
    ensures
        decodes_body(
            encoded@,
            RecordType::TxBegin,
            match result {
                Ok(begin) => Ok(begin.record()),
                Err(error) => Err(error),
            },
        ),
{
    proof {
        assert forall|record: RecordView|
            record.valid() && record.record_type() == RecordType::TxBegin && encoded@
                == #[trigger] record.bytes() implies {
            &&& encoded@.len() == TX_BEGIN_ENCODED_LEN
            &&& is_sealed(encoded@, 67)
            &&& record == (RecordView::Begin {
                commit_seq: header.commit_seq,
                tx_uuid: header.tx_uuid@,
                vlog_begin: VLogPosition {
                    file_id: u32_at(encoded@, 39),
                    offset: u64_at(encoded@, 43),
                },
                logical_op_count: u64_at(encoded@, 51),
                distinct_key_count: u64_at(encoded@, 59),
            })
        } by {
            lemma_record_front(record);
            lemma_begin_fields(record);
            lemma_header_of_record(encoded@, header, record);
        }
    }
    if encoded.len() != TX_BEGIN_ENCODED_LEN as usize || !checksum_matches(encoded, 67) {
        return Err(decode_error(StorageErrorKind::Corruption));
    }
    let begin = TxBegin {
        commit_seq: header.commit_seq,
        tx_uuid: header.tx_uuid,
        vlog_begin: VLogPosition { file_id: read_u32(encoded, 39), offset: read_u64(encoded, 43) },
        logical_op_count: read_u64(encoded, 51),
        distinct_key_count: read_u64(encoded, 59),
    };
    validate_tx_begin(begin)?;
    proof {
        let b = encoded@;
        lemma_fixed_widths(b, 39);
        lemma_fixed_widths(b, 43);
        lemma_fixed_widths(b, 51);
        lemma_fixed_widths(b, 59);
        lemma_unsealed(b, 67);
        lemma_front_of(b, header, begin.record());
        assert(b.take(67) =~= b.take(39) + (b.subrange(39, 43) + b.subrange(43, 51) + b.subrange(
            51,
            59,
        ) + b.subrange(59, 67)));
    }
    Ok(begin)
}

/// A record with a header at its front has the type, the length and the transaction of it.
proof fn lemma_header_of_record(encoded: Seq<u8>, header: RecordHeader, record: RecordView)
    requires
        record.valid(),
        encoded == record.bytes(),
        header.valid(),
        encoded.take(RECORD_HEADER_ENCODED_LEN as int) == header.encoded(),
    ensures
        record.record_type() == header.record_type,
        record.length() == header.encoded_len,
        record.commit_seq() == header.commit_seq,
        record.tx_uuid() == header.tx_uuid@,
{
    lemma_record_front(record);
    lemma_record_header_layout(
        VLOG_FORMAT_VERSION,
        record.record_type(),
        record.length() as u32,
        record.commit_seq(),
        record.tx_uuid(),
    );
    lemma_record_header_layout(
        header.format_version,
        header.record_type,
        header.encoded_len,
        header.commit_seq,
        header.tx_uuid@,
    );
}

pub fn decode_kv_record<'a>(encoded: &'a [u8], header: RecordHeader) -> (result: Result<
    KvRecordRef<'a>,
>)
    requires
        header_of(encoded@, header, RecordType::KvRecord),
    ensures
        decodes_body(
            encoded@,
            RecordType::KvRecord,
            match result {
                Ok(record) => Ok(record.record()),
                Err(error) => Err(error),
            },
        ),
{
    proof {
        assert forall|record: RecordView|
            record.valid() && record.record_type() == RecordType::KvRecord && encoded@
                == #[trigger] record.bytes() implies {
            let key_len = u16_at(encoded@, 47) as int;
            let value_len = u16_at(encoded@, 49) as int;
            &&& MIN_KV_RECORD_LEN <= encoded@.len() <= MAX_KV_RECORD_LEN
            &&& 0 < key_len
            &&& key_len + value_len <= MAX_PAYLOAD_LEN
            &&& 55 + key_len + value_len == encoded@.len()
            &&& is_sealed(encoded@, encoded@.len() - 4)
        } by {
            lemma_record_front(record);
            lemma_put_fields(record);
        }
    }
    if encoded.len() < MIN_KV_RECORD_LEN as usize || encoded.len() > MAX_KV_RECORD_LEN as usize {
        return Err(decode_error(StorageErrorKind::Corruption));
    }
    let key_len: usize = read_u16(encoded, 47) as usize;
    let value_len: usize = read_u16(encoded, 49) as usize;
    if key_len == 0 || key_len + value_len > MAX_PAYLOAD_LEN as usize || 55 + key_len + value_len
        != encoded.len() || !checksum_matches(encoded, encoded.len() - 4) {
        return Err(decode_error(StorageErrorKind::Corruption));
    }
    let record = KvRecordRef {
        commit_seq: header.commit_seq,
        tx_uuid: header.tx_uuid,
        op_index: read_u64(encoded, 39),
        key: slice_subrange(encoded, 51, 51 + key_len),
        value: slice_subrange(encoded, 51 + key_len, 51 + key_len + value_len),
    };
    proof {
        let b = encoded@;
        lemma_fixed_widths(b, 39);
        lemma_fixed_widths(b, 47);
        lemma_fixed_widths(b, 49);
        lemma_unsealed(b, b.len() - 4);
        lemma_front_of(b, header, record.record());
        assert(b.take(b.len() - 4) =~= b.take(39) + (b.subrange(39, 47) + b.subrange(47, 49)
            + b.subrange(49, 51) + record.key@ + record.value@));
    }
    Ok(record)
}

pub fn decode_delete_record<'a>(encoded: &'a [u8], header: RecordHeader) -> (result: Result<
    DeleteRecordRef<'a>,
>)
    requires
        header_of(encoded@, header, RecordType::DeleteRecord),
    ensures
        decodes_body(
            encoded@,
            RecordType::DeleteRecord,
            match result {
                Ok(record) => Ok(record.record()),
                Err(error) => Err(error),
            },
        ),
{
    proof {
        assert forall|record: RecordView|
            record.valid() && record.record_type() == RecordType::DeleteRecord && encoded@
                == #[trigger] record.bytes() implies {
            let key_len = u16_at(encoded@, 47) as int;
            &&& MIN_DELETE_RECORD_LEN <= encoded@.len() <= MAX_DELETE_RECORD_LEN
            &&& 0 < key_len <= MAX_PAYLOAD_LEN
            &&& 53 + key_len == encoded@.len()
            &&& is_sealed(encoded@, encoded@.len() - 4)
        } by {
            lemma_record_front(record);
            lemma_delete_fields(record);
        }
    }
    if encoded.len() < MIN_DELETE_RECORD_LEN as usize || encoded.len()
        > MAX_DELETE_RECORD_LEN as usize {
        return Err(decode_error(StorageErrorKind::Corruption));
    }
    let key_len: usize = read_u16(encoded, 47) as usize;
    if key_len == 0 || key_len > MAX_PAYLOAD_LEN as usize || 53 + key_len != encoded.len()
        || !checksum_matches(encoded, encoded.len() - 4) {
        return Err(decode_error(StorageErrorKind::Corruption));
    }
    let record = DeleteRecordRef {
        commit_seq: header.commit_seq,
        tx_uuid: header.tx_uuid,
        op_index: read_u64(encoded, 39),
        key: slice_subrange(encoded, 49, 49 + key_len),
    };
    proof {
        let b = encoded@;
        lemma_fixed_widths(b, 39);
        lemma_fixed_widths(b, 47);
        lemma_unsealed(b, b.len() - 4);
        lemma_front_of(b, header, record.record());
        assert(b.take(b.len() - 4) =~= b.take(39) + (b.subrange(39, 47) + b.subrange(47, 49)
            + record.key@));
    }
    Ok(record)
}

pub fn decode_tx_prepared_end(encoded: &[u8], header: RecordHeader) -> (result: Result<
    TxPreparedEnd,
>)
    requires
        header_of(encoded@, header, RecordType::TxPreparedEnd),
    ensures
        decodes_body(
            encoded@,
            RecordType::TxPreparedEnd,
            match result {
                Ok(footer) => Ok(footer.record()),
                Err(error) => Err(error),
            },
        ),
{
    proof {
        assert forall|record: RecordView|
            record.valid() && record.record_type() == RecordType::TxPreparedEnd && encoded@
                == #[trigger] record.bytes() implies {
            let b = encoded@;
            &&& b.len() == TX_PREPARED_END_ENCODED_LEN
            &&& u32_at(b, 99) == crc32c_appended(crc32c_of(b.take(99)), b.subrange(103, 111))
            &&& u32_at(b, 103) == TX_PREPARED_END_ENCODED_LEN
            &&& u32_at(b, 107) == END_TRAILER_MAGIC
            &&& record == (RecordView::End {
                commit_seq: header.commit_seq,
                tx_uuid: header.tx_uuid@,
                vlog_begin: VLogPosition { file_id: u32_at(b, 39), offset: u64_at(b, 43) },
                vlog_end: VLogPosition { file_id: u32_at(b, 51), offset: u64_at(b, 55) },
                logical_op_count: u64_at(b, 63),
                distinct_key_count: u64_at(b, 71),
                kv_record_count: u64_at(b, 79),
                delete_record_count: u64_at(b, 87),
                envelope_crc32c: u32_at(b, 95),
            })
        } by {
            lemma_record_front(record);
            lemma_end_fields(record);
            lemma_header_of_record(encoded@, header, record);
        }
    }
    if encoded.len() != TX_PREPARED_END_ENCODED_LEN as usize || read_u32(encoded, 107)
        != END_TRAILER_MAGIC || read_u32(encoded, 103) != TX_PREPARED_END_ENCODED_LEN {
        return Err(decode_error(StorageErrorKind::Corruption));
    }
    let front = slice_subrange(encoded, 0, 99);
    let trailer = slice_subrange(encoded, 103, 111);
    proof {
        assert(front@ =~= encoded@.take(99));
    }
    let calculated_crc: u32 = crc32c_extend(checksum(front), trailer);
    if read_u32(encoded, 99) != calculated_crc {
        return Err(decode_error(StorageErrorKind::Corruption));
    }
    let footer = TxPreparedEnd {
        commit_seq: header.commit_seq,
        tx_uuid: header.tx_uuid,
        vlog_begin: VLogPosition { file_id: read_u32(encoded, 39), offset: read_u64(encoded, 43) },
        vlog_end: VLogPosition { file_id: read_u32(encoded, 51), offset: read_u64(encoded, 55) },
        logical_op_count: read_u64(encoded, 63),
        distinct_key_count: read_u64(encoded, 71),
        kv_record_count: read_u64(encoded, 79),
        delete_record_count: read_u64(encoded, 87),
        envelope_crc32c: read_u32(encoded, 95),
    };
    validate_tx_prepared_end(footer)?;
    proof {
        let b = encoded@;
        lemma_fixed_widths(b, 39);
        lemma_fixed_widths(b, 43);
        lemma_fixed_widths(b, 51);
        lemma_fixed_widths(b, 55);
        lemma_fixed_widths(b, 63);
        lemma_fixed_widths(b, 71);
        lemma_fixed_widths(b, 79);
        lemma_fixed_widths(b, 87);
        lemma_fixed_widths(b, 95);
        lemma_fixed_widths(b, 99);
        lemma_fixed_widths(b, 103);
        lemma_fixed_widths(b, 107);
        lemma_front_of(b, header, footer.record());
        assert(b.take(99) =~= b.take(39) + (b.subrange(39, 43) + b.subrange(43, 51) + b.subrange(
            51,
            55,
        ) + b.subrange(55, 63) + b.subrange(63, 71) + b.subrange(71, 79) + b.subrange(79, 87)
            + b.subrange(87, 95) + b.subrange(95, 99)));
        assert(b.subrange(103, 111) =~= b.subrange(103, 107) + b.subrange(107, 111));
        assert(b =~= b.take(99) + b.subrange(99, 103) + b.subrange(103, 111));
    }
    Ok(footer)
}

pub fn decode_page_end(
    encoded: &[u8],
    header: RecordHeader,
    record_start: VLogPosition,
    geometry: VLogGeometry,
) -> (result: Result<()>)
    requires
        geometry.valid(),
        record_start.offset < geometry.max_file_size,
        header_of(encoded@, header, RecordType::PageEnd),
    ensures
        ({
            let record = RecordView::PageEnd {
                commit_seq: header.commit_seq,
                tx_uuid: header.tx_uuid@,
                length: header.encoded_len,
            };
            match result {
                Ok(_) => record.valid() && encoded@ == record.bytes() && header.encoded_len
                    == geometry.remaining(record_start.offset as int),
                Err(error) => {
                    &&& error@ == decode_view(StorageErrorKind::Corruption)
                    &&& !(record.valid() && encoded@ == record.bytes() && header.encoded_len
                        == geometry.remaining(record_start.offset as int))
                },
            }
        }),
{
    let ghost record = RecordView::PageEnd {
        commit_seq: header.commit_seq,
        tx_uuid: header.tx_uuid@,
        length: header.encoded_len,
    };
    let ghost b = encoded@;
    proof {
        if record.valid() && b == record.bytes() {
            lemma_record_front(record);
            assert(b.subrange(39, b.len() - 4) =~= b.take(b.len() - 4).subrange(39, b.len() - 4));
            assert(b.subrange(39, b.len() - 4) =~= record.payload());
        }
    }
    if header.encoded_len < PAGE_END_MIN_SIZE {
        return Err(decode_error(StorageErrorKind::Corruption));
    }
    let remaining: u64 = remaining_in_page(record_start.offset, geometry)?;
    if header.encoded_len as u64 != remaining {
        return Err(decode_error(StorageErrorKind::Corruption));
    }
    if !all_zero(encoded, 39, encoded.len() - 4) || !checksum_matches(encoded, encoded.len() - 4) {
        return Err(decode_error(StorageErrorKind::Corruption));
    }
    proof {
        lemma_unsealed(b, b.len() - 4);
        lemma_front_of(b, header, record);
        assert(b.take(b.len() - 4) =~= b.take(39) + b.subrange(39, b.len() - 4));
    }
    Ok(())
}

/// The kind of error that bytes without a record at a position decode to.
pub open spec fn record_error(
    encoded: Seq<u8>,
    start: VLogPosition,
    geometry: VLogGeometry,
) -> StorageErrorKind {
    if geometry.valid() && record_fits(encoded.len(), start, geometry) {
        record_header_error(encoded)
    } else {
        StorageErrorKind::Corruption
    }
}

/// Decodes the record that lies at a position.
#[verifier::rlimit(30)]
pub fn decode_record_at<'a>(
    encoded: &'a [u8],
    record_start: VLogPosition,
    geometry: VLogGeometry,
) -> (result: Result<DecodedRecord<'a>>)
    ensures
        match result {
            Ok(decoded) => {
                &&& geometry.valid()
                &&& record_at(decoded.record(), record_start, geometry)
                &&& encoded@ == decoded.record().bytes()
            },
            Err(error) => {
                &&& error@ == decode_view(record_error(encoded@, record_start, geometry))
                &&& geometry.valid() ==> forall|record: RecordView|
                    record_at(record, record_start, geometry) ==> encoded@
                        != #[trigger] record.bytes()
            },
        },
{
    geometry.validate_for_decode()?;
    proof {
        assert forall|record: RecordView| record.valid() && encoded@ == #[trigger] record.bytes() implies {
            &&& record.length() == encoded@.len()
            &&& encoded@.len() >= RECORD_HEADER_ENCODED_LEN
            &&& encoded@.take(RECORD_HEADER_ENCODED_LEN as int) == record.header()
            &&& is_transaction(record.commit_seq(), record.tx_uuid())
        } by {
            lemma_record_front(record);
        }
    }
    validate_record_bounds(encoded, record_start, geometry)?;
    let header = RecordHeader::decode(encoded)?;
    proof {
        lemma_record_header_layout(
            header.format_version,
            header.record_type,
            header.encoded_len,
            header.commit_seq,
            header.tx_uuid@,
        );
        assert(record_header_error(encoded@) == StorageErrorKind::Corruption);
        lemma_page_end(geometry, record_start.offset as int);
        assert forall|record: RecordView| record.valid() && encoded@ == #[trigger] record.bytes() implies {
            &&& record.record_type() == header.record_type
            &&& record.length() == header.encoded_len
            &&& record.commit_seq() == header.commit_seq
            &&& record.tx_uuid() == header.tx_uuid@
        } by {
            lemma_header_of_record(encoded@, header, record);
        }
    }
    if header.encoded_len as usize != encoded.len() {
        return Err(decode_error(StorageErrorKind::Corruption));
    }
    match header.record_type {
        RecordType::TxBegin => {
            let begin = decode_tx_begin(encoded, header)?;
            proof {
                lemma_record_front(begin.record());
            }
            Ok(DecodedRecord::TxBegin(begin))
        },
        RecordType::KvRecord => {
            let record = decode_kv_record(encoded, header)?;
            proof {
                lemma_record_front(record.record());
            }
            Ok(DecodedRecord::KvRecord(record))
        },
        RecordType::DeleteRecord => {
            let record = decode_delete_record(encoded, header)?;
            proof {
                lemma_record_front(record.record());
            }
            Ok(DecodedRecord::DeleteRecord(record))
        },
        RecordType::TxPreparedEnd => {
            let footer = decode_tx_prepared_end(encoded, header)?;
            proof {
                lemma_record_front(footer.record());
                assert forall|record: RecordView|
                    record.valid() && encoded@ == #[trigger] record.bytes() implies record
                    == footer.record() by {
                    law_record_round_trip(record, footer.record());
                }
            }
            let physical_end: u64 = record_start.offset + header.encoded_len as u64;
            if footer.vlog_end.file_id != record_start.file_id || footer.vlog_end.offset
                != physical_end {
                return Err(decode_error(StorageErrorKind::Corruption));
            }
            Ok(DecodedRecord::TxPreparedEnd(footer))
        },
        RecordType::PageEnd => {
            decode_page_end(encoded, header, record_start, geometry)?;
            Ok(DecodedRecord::PageEnd(header))
        },
    }
}

} // verus!
