//! What is stored, byte for byte.

use rustkv::checksum::checksum;
use rustkv::commit::descriptor::{
    decode_descriptor, decode_tx_mutation, encode_descriptor, encode_tx_meta, encode_tx_mutation,
    TransactionDescriptor, TxMeta, TxMutation, ValueState,
};
use rustkv::commit::metadata::{
    check_identity, decode_head_seq, decode_tx_meta_key, decode_tx_mutation_key, encode_head_seq,
    encode_tx_meta_key, encode_tx_mutation_key, next_commit_seq, DatabaseIdentity,
    DurableFrontier, DurableVLogEnd, RecoveryPhase, RecoveryState,
};
use rustkv::format::FormatMetadataV0;
use rustkv::memory::Memory;
use rustkv::vlog::file_set::{parse_vlog_file_name, vlog_file_name};
use rustkv::vlog::geometry::{VLogGeometry, VLogPosition};
use rustkv::vlog::header::{PageHeader, RecordHeader, RecordType, VLogFileHeader};
use rustkv::vlog::pointer::ValuePointer;
use rustkv::vlog::record::{
    encode_delete_record, encode_kv_record, encode_page_end, encode_tx_begin,
    encode_tx_prepared_end, DecodedRecord, DeleteRecordRef, KvRecordRef, TxBegin, TxPreparedEnd,
};
use rustkv::vlog::decode::decode_record_at;
use rustkv::vlog::chunks::{next_chunk, record_chunk_length};
use rustkv::{RetryAdvice, StorageErrorKind};

const UUID: [u8; 16] = [1, 2, 3, 4, 5, 6, 7, 8, 9, 10, 11, 12, 13, 14, 15, 16];

/// Puts the checksum of what stands before it at the end.
fn seal(bytes: &mut Vec<u8>) {
    let body = bytes.len() - 4;
    let sum = checksum(&bytes[..body]).to_le_bytes();
    bytes[body..].copy_from_slice(&sum);
}

fn position(file_id: u32, offset: u64) -> VLogPosition {
    VLogPosition { file_id, offset }
}

#[test]
fn the_checksum_is_castagnoli() {
    assert_eq!(checksum(b"123456789"), 0xe306_9283);
    assert_eq!(checksum(b""), 0);
}

#[test]
fn format_file_round_trip() {
    let format = FormatMetadataV0::new(UUID).unwrap();
    let bytes = format.encode().unwrap();
    let mut expected = b"RUSTKV00".to_vec();
    expected.extend_from_slice(&0u32.to_le_bytes());
    expected.extend_from_slice(&UUID);
    expected.extend_from_slice(&65_536u32.to_le_bytes());
    expected.extend_from_slice(&60_000u32.to_le_bytes());
    assert_eq!(bytes, expected);
    let back = FormatMetadataV0::decode(&bytes).unwrap();
    assert_eq!(back.database_uuid, UUID);
    assert_eq!((back.page_size, back.max_key_value_size), (65_536, 60_000));
}

#[test]
fn format_file_refusals() {
    assert_eq!(
        FormatMetadataV0::new([0; 16]).unwrap_err().kind,
        StorageErrorKind::InvalidArgument
    );
    let bytes = FormatMetadataV0::new(UUID).unwrap().encode().unwrap();
    let mut other_version = bytes.clone();
    other_version[8] = 1;
    let error = FormatMetadataV0::decode(&other_version).unwrap_err();
    assert_eq!(error.kind, StorageErrorKind::IncompatibleFormat);
    assert_eq!(error.retry_advice, RetryAdvice::DoNotRetry);
    for at in [0, 29, 33] {
        let mut broken = bytes.clone();
        broken[at] ^= 1;
        let error = FormatMetadataV0::decode(&broken).unwrap_err();
        assert_eq!(error.kind, StorageErrorKind::Corruption);
        assert_eq!(error.retry_advice, RetryAdvice::RestoreOrRepair);
    }
    assert!(FormatMetadataV0::decode(&bytes[1..]).is_err());
}

#[test]
fn page_header_bytes() {
    let header = PageHeader { file_id: 7, page_no: 3 };
    let bytes = header.encode().unwrap();
    assert_eq!(bytes.len(), 16);
    assert_eq!(&bytes[..4], b"RKVP");
    assert_eq!(bytes[4..8], 7u32.to_le_bytes());
    assert_eq!(bytes[8..12], 3u32.to_le_bytes());
    assert_eq!(bytes[12..], checksum(&bytes[..12]).to_le_bytes());
    assert_eq!(PageHeader::decode(&bytes).unwrap(), header);
    let mut broken = bytes.clone();
    broken[5] ^= 1;
    assert_eq!(PageHeader::decode(&broken).unwrap_err().kind, StorageErrorKind::Corruption);
    assert!(PageHeader { file_id: 0, page_no: 65_536 }.encode().is_err());
    assert!(PageHeader { file_id: 1_000_000, page_no: 0 }.encode().is_err());
}

#[test]
fn file_header_bytes() {
    let header = VLogFileHeader::new(UUID, 12);
    let bytes = header.encode().unwrap();
    assert_eq!(bytes.len(), 48);
    assert_eq!(&bytes[..8], b"RKVLOG00");
    let back = VLogFileHeader::decode(&bytes).unwrap();
    assert_eq!((back.file_id, back.database_uuid), (12, UUID));
    let mut other = bytes.clone();
    other[8] = 9;
    seal(&mut other);
    assert_eq!(
        VLogFileHeader::decode(&other).unwrap_err().kind,
        StorageErrorKind::IncompatibleFormat
    );
    let mut broken = bytes;
    broken[20] ^= 1;
    assert_eq!(VLogFileHeader::decode(&broken).unwrap_err().kind, StorageErrorKind::Corruption);
}

#[test]
fn record_header_bytes() {
    let header = RecordHeader::new(RecordType::KvRecord, 100, 5, UUID);
    let bytes = header.encode().unwrap();
    assert_eq!(bytes.len(), 39);
    assert_eq!(&bytes[..4], b"RKVR");
    let back = RecordHeader::decode(&bytes).unwrap();
    assert_eq!(back.record_type, RecordType::KvRecord);
    assert_eq!((back.encoded_len, back.commit_seq, back.tx_uuid), (100, 5, UUID));
    assert!(RecordHeader::new(RecordType::KvRecord, 100, 0, UUID).encode().is_err());
    assert!(RecordHeader::new(RecordType::KvRecord, 100, 1, [0; 16]).encode().is_err());
    let mut other = bytes;
    other[4] = 1;
    seal(&mut other);
    assert_eq!(
        RecordHeader::decode(&other).unwrap_err().kind,
        StorageErrorKind::IncompatibleFormat
    );
}

#[test]
fn record_types_have_codes() {
    for record_type in [
        RecordType::TxBegin,
        RecordType::KvRecord,
        RecordType::DeleteRecord,
        RecordType::TxPreparedEnd,
        RecordType::PageEnd,
    ] {
        assert_eq!(RecordType::decode(record_type.encode()).unwrap(), record_type);
    }
    assert!(RecordType::decode(0xff).is_err());
}

#[test]
fn pointer_bytes_and_layout() {
    let pointer = ValuePointer {
        format_version: 0,
        file_id: 3,
        record_offset: 64,
        record_len: 55 + 2 + 5,
        value_len: 5,
    };
    let bytes = pointer.encode().unwrap();
    let mut expected = 0u16.to_le_bytes().to_vec();
    expected.extend_from_slice(&3u32.to_le_bytes());
    expected.extend_from_slice(&64u32.to_le_bytes());
    expected.extend_from_slice(&62u32.to_le_bytes());
    expected.extend_from_slice(&5u16.to_le_bytes());
    assert_eq!(bytes, expected);
    assert_eq!(ValuePointer::decode(&bytes).unwrap(), pointer);
    let layout = pointer.layout().unwrap();
    assert_eq!(layout.key_len, 2);
    assert_eq!(layout.value_relative_offset, 53);
    assert_eq!((layout.value_start, layout.value_end, layout.record_end), (117, 122, 126));
    assert!(pointer.validate_file_bounds(126).is_ok());
    assert_eq!(
        pointer.validate_file_bounds(125).unwrap_err().kind,
        StorageErrorKind::Corruption
    );
    let mut other = bytes.clone();
    other[0] = 1;
    assert_eq!(
        ValuePointer::decode(&other).unwrap_err().kind,
        StorageErrorKind::IncompatibleFormat
    );
    assert_eq!(
        ValuePointer::decode(&bytes[..15]).unwrap_err().kind,
        StorageErrorKind::Corruption
    );
}

#[test]
fn records_round_trip_at_their_places() {
    let geometry = VLogGeometry::production();
    let mut memory = Memory::new();
    let start = position(0, 64);
    let begin = TxBegin {
        commit_seq: 9,
        tx_uuid: UUID,
        vlog_begin: start,
        logical_op_count: 2,
        distinct_key_count: 2,
    };
    let bytes = encode_tx_begin(&mut memory, begin).unwrap();
    assert_eq!(bytes.len(), 71);
    match decode_record_at(&bytes, start, geometry).unwrap() {
        DecodedRecord::TxBegin(back) => assert_eq!(back.logical_op_count, 2),
        other => panic!("{:?}", other),
    }
    let put = KvRecordRef { commit_seq: 9, tx_uuid: UUID, op_index: 0, key: b"k", value: b"vv" };
    let bytes = encode_kv_record(&mut memory, put).unwrap();
    assert_eq!(bytes.len(), 58);
    match decode_record_at(&bytes, position(0, 135), geometry).unwrap() {
        DecodedRecord::KvRecord(back) => {
            assert_eq!((back.key, back.value), (&b"k"[..], &b"vv"[..]));
            assert_eq!(back.op_index, 0);
        }
        other => panic!("{:?}", other),
    }
    let delete = DeleteRecordRef { commit_seq: 9, tx_uuid: UUID, op_index: 1, key: b"k" };
    let bytes = encode_delete_record(&mut memory, delete).unwrap();
    assert_eq!(bytes.len(), 54);
    match decode_record_at(&bytes, position(0, 193), geometry).unwrap() {
        DecodedRecord::DeleteRecord(back) => assert_eq!(back.key, b"k"),
        other => panic!("{:?}", other),
    }
    let end = encode_page_end(&mut memory, 9, UUID, position(0, 60_000), geometry).unwrap();
    assert_eq!(end.len(), 5_536);
    assert!(end[39..5_532].iter().all(|byte| *byte == 0));
    assert!(matches!(
        decode_record_at(&end, position(0, 60_000), geometry).unwrap(),
        DecodedRecord::PageEnd(_)
    ));
    // A record that would leave its page is not one.
    assert!(decode_record_at(&bytes, position(0, 65_500), geometry).is_err());
}

#[test]
fn footer_round_trip() {
    let mut memory = Memory::new();
    let geometry = VLogGeometry::production();
    let mut footer = TxPreparedEnd {
        commit_seq: 4,
        tx_uuid: UUID,
        vlog_begin: position(0, 64),
        vlog_end: position(0, 1_111),
        logical_op_count: 3,
        distinct_key_count: 2,
        kv_record_count: 2,
        delete_record_count: 1,
        envelope_crc32c: 77,
    };
    let bytes = encode_tx_prepared_end(&mut memory, footer).unwrap();
    assert_eq!(bytes.len(), 111);
    match decode_record_at(&bytes, position(0, 1_000), geometry).unwrap() {
        DecodedRecord::TxPreparedEnd(back) => {
            assert_eq!(back.envelope_crc32c, 77);
            assert_eq!(back.vlog_end, position(0, 1_111));
        }
        other => panic!("{:?}", other),
    }
    footer.delete_record_count = 2;
    assert!(encode_tx_prepared_end(&mut memory, footer).is_err());
}

#[test]
fn a_record_says_how_long_it_is() {
    let geometry = VLogGeometry::production();
    let mut memory = Memory::new();
    let put = KvRecordRef { commit_seq: 1, tx_uuid: UUID, op_index: 0, key: b"k", value: b"v" };
    let bytes = encode_kv_record(&mut memory, put).unwrap();
    let at = position(0, 64);
    assert_eq!(record_chunk_length(&bytes[..39], at, geometry).unwrap(), bytes.len());
    assert!(record_chunk_length(&bytes[..38], at, geometry).is_err());

    // A file starts with a page header and a file header, and a page with its header.
    let end = position(0, 70_000);
    let first = next_chunk(position(0, 0), end, geometry).unwrap().unwrap();
    assert_eq!((first.position, first.known_len, first.is_record), (position(0, 0), 16, false));
    let second = next_chunk(position(0, 16), end, geometry).unwrap().unwrap();
    assert_eq!((second.known_len, second.is_record), (48, false));
    let third = next_chunk(position(0, 64), end, geometry).unwrap().unwrap();
    assert_eq!((third.position.offset, third.is_record), (64, true));
    let page = next_chunk(position(0, 65_536), end, geometry).unwrap().unwrap();
    assert_eq!((page.known_len, page.is_record), (16, false));
    assert!(next_chunk(end, end, geometry).unwrap().is_none());
}

#[test]
fn metadata_keys() {
    let key = encode_tx_meta_key(0x0102).unwrap();
    assert_eq!(key, [b'T', b'X', 0, 0, 0, 0, 0, 0, 1, 2, 0]);
    assert_eq!(decode_tx_meta_key(&key).unwrap(), 0x0102);
    let mutation = encode_tx_mutation_key(0x0102, 3).unwrap();
    assert_eq!(
        mutation,
        [b'T', b'X', 0, 0, 0, 0, 0, 0, 1, 2, 1, 0, 0, 0, 0, 0, 0, 0, 3]
    );
    assert_eq!(decode_tx_mutation_key(&mutation).unwrap(), (0x0102, 3));
    // The head of a transaction comes before its mutations, and transactions come in order.
    assert!(key < mutation);
    assert!(mutation < encode_tx_meta_key(0x0103).unwrap());
    assert!(encode_tx_meta_key(0).is_err());
    assert!(decode_tx_meta_key(&mutation).is_err());
    assert!(decode_tx_mutation_key(&key).is_err());
}

#[test]
fn identity_round_trip() {
    let identity = DatabaseIdentity {
        identity_format_version: 0,
        database_format_version: 0,
        database_uuid: UUID,
        keyspace_layout_version: 0,
    };
    let bytes = identity.encode().unwrap();
    assert_eq!(bytes.len(), 32);
    assert_eq!(&bytes[..4], b"RKDI");
    assert_eq!(DatabaseIdentity::decode(&bytes).unwrap().database_uuid, UUID);
    assert!(check_identity(&bytes, 0, &UUID).is_ok());
    assert_eq!(
        check_identity(&bytes, 0, &[9; 16]).unwrap_err().kind,
        StorageErrorKind::InvalidLayout
    );
    let mut other = bytes.clone();
    other[4] = 1;
    seal(&mut other);
    assert_eq!(
        check_identity(&other, 0, &UUID).unwrap_err().kind,
        StorageErrorKind::IncompatibleFormat
    );
    let mut broken = bytes;
    broken[12] ^= 1;
    assert_eq!(
        check_identity(&broken, 0, &UUID).unwrap_err().kind,
        StorageErrorKind::Corruption
    );
}

#[test]
fn head_sequence_numbers() {
    assert_eq!(encode_head_seq(513), vec![1, 2, 0, 0, 0, 0, 0, 0]);
    assert_eq!(decode_head_seq(&[1, 2, 0, 0, 0, 0, 0, 0]).unwrap(), 513);
    assert!(decode_head_seq(&[1, 2, 0]).is_err());
    assert_eq!(next_commit_seq(4).unwrap(), 5);
    assert_eq!(
        next_commit_seq(u64::MAX).unwrap_err().kind,
        StorageErrorKind::CapacityExceeded
    );
}

#[test]
fn frontier_round_trip() {
    let frontier = DurableFrontier {
        durable_seq: 8,
        durable_vlog_end: DurableVLogEnd::Position(position(1, 500)),
    };
    let bytes = frontier.encode().unwrap();
    assert_eq!(bytes.len(), 31);
    assert_eq!(&bytes[..4], b"RKDF");
    assert_eq!(DurableFrontier::decode(&bytes).unwrap(), frontier);
    assert!(frontier.validate_against_head(8).is_ok());
    assert_eq!(
        frontier.validate_against_head(7).unwrap_err().kind,
        StorageErrorKind::Corruption
    );
    let empty = DurableFrontier { durable_seq: 0, durable_vlog_end: DurableVLogEnd::Empty };
    let bytes = empty.encode().unwrap();
    assert_eq!(DurableFrontier::decode(&bytes).unwrap(), empty);
    // Only the frontier of nothing has no end.
    let odd = DurableFrontier { durable_seq: 1, durable_vlog_end: DurableVLogEnd::Empty };
    assert!(odd.encode().is_err());
}

#[test]
fn recovery_state_round_trip() {
    let state = RecoveryState {
        phase: RecoveryPhase::Undo,
        original_head: 9,
        target_seq: 4,
        target_vlog_end: DurableVLogEnd::Position(position(0, 777)),
        next_undo_seq: 7,
        trim_required: true,
    };
    let bytes = state.encode().unwrap();
    assert_eq!(bytes.len(), 49);
    assert_eq!(RecoveryState::decode(&bytes).unwrap(), state);
    let odd = RecoveryState { next_undo_seq: 3, ..state };
    assert!(!odd.is_valid());
    assert!(odd.encode().is_err());
    let early_trim = RecoveryState { phase: RecoveryPhase::Trim, ..state };
    assert!(early_trim.encode().is_err());
}

fn descriptor() -> TransactionDescriptor {
    let before = ValuePointer {
        format_version: 0,
        file_id: 0,
        record_offset: 64,
        record_len: 57,
        value_len: 1,
    };
    TransactionDescriptor {
        meta: TxMeta {
            commit_seq: 5,
            tx_uuid: UUID,
            prev_seq: 4,
            vlog_begin: position(0, 1_000),
            vlog_end: position(0, 2_000),
            logical_op_count: 2,
            distinct_key_count: 2,
            envelope_crc32c: 42,
            descriptor_crc32c: 0,
        },
        mutations: vec![
            TxMutation {
                user_key: b"a".to_vec(),
                before_state: ValueState::Absent,
                after_state: ValueState::Present(before),
            },
            TxMutation {
                user_key: b"b".to_vec(),
                before_state: ValueState::Present(before),
                after_state: ValueState::Absent,
            },
        ],
    }
}

#[test]
fn mutations_round_trip() {
    let mut memory = Memory::new();
    for mutation in &descriptor().mutations {
        let bytes = encode_tx_mutation(&mut memory, mutation).unwrap();
        let back = decode_tx_mutation(&mut memory, &bytes).unwrap();
        assert_eq!(back.user_key, mutation.user_key);
        assert_eq!(back.before_state, mutation.before_state);
        assert_eq!(back.after_state, mutation.after_state);
        assert!(decode_tx_mutation(&mut memory, &bytes[1..]).is_err());
    }
}

#[test]
fn descriptors_round_trip() {
    let mut memory = Memory::new();
    let encoded = encode_descriptor(&mut memory, &descriptor()).unwrap();
    assert_eq!(encoded.mutations.len(), 2);
    let back = decode_descriptor(
        &mut memory,
        &encoded.meta_key,
        &encoded.meta_value,
        &encoded.mutations,
    )
    .unwrap();
    assert_eq!(back.meta.commit_seq, 5);
    assert_eq!(back.meta.envelope_crc32c, 42);
    assert_eq!(back.mutations.len(), 2);

    let missing = decode_descriptor(
        &mut memory,
        &encoded.meta_key,
        &encoded.meta_value,
        &encoded.mutations[..1],
    );
    assert_eq!(missing.unwrap_err().kind, StorageErrorKind::Corruption);
    let mut swapped = encoded.mutations.clone();
    swapped.swap(0, 1);
    assert!(decode_descriptor(&mut memory, &encoded.meta_key, &encoded.meta_value, &swapped)
        .is_err());
    let mut changed = encoded.mutations.clone();
    let last = changed[0].value.len() - 1;
    changed[0].value[last] ^= 1;
    assert!(decode_descriptor(&mut memory, &encoded.meta_key, &encoded.meta_value, &changed)
        .is_err());
}

#[test]
fn file_names() {
    assert_eq!(vlog_file_name(0).unwrap(), b"D000000.data".to_vec());
    assert_eq!(vlog_file_name(999_999).unwrap(), b"D999999.data".to_vec());
    assert!(vlog_file_name(1_000_000).is_err());
    assert_eq!(parse_vlog_file_name(b"D000042.data"), Some(42));
    for name in [&b"D00042.data"[..], b"d000042.data", b"D000042.dat", b"D00004x.data", b""] {
        assert_eq!(parse_vlog_file_name(name), None);
    }
}

#[test]
fn refused_memory_is_told() {
    let put = KvRecordRef { commit_seq: 1, tx_uuid: UUID, op_index: 0, key: b"k", value: b"v" };
    let mut memory = Memory::rehearsal(Some(0));
    let error = encode_kv_record(&mut memory, put).unwrap_err();
    assert_eq!(error.kind, StorageErrorKind::ResourceExhausted);
    assert!(memory.is_refused());
}

#[test]
fn head_of_a_transaction_byte_for_byte() {
    let meta = TxMeta {
        commit_seq: 2,
        tx_uuid: UUID,
        prev_seq: 1,
        vlog_begin: position(0, 64),
        vlog_end: position(1, 200),
        logical_op_count: 3,
        distinct_key_count: 2,
        envelope_crc32c: 0x0a0b0c0d,
        descriptor_crc32c: 0x01020304,
    };
    let encoded = encode_tx_meta(&meta).unwrap();
    assert_eq!(encoded.len(), 86);
    assert_eq!(encoded[6..14], 2u64.to_le_bytes());
    assert_eq!(encoded[14..30], UUID);
    assert_eq!(encoded[30..38], 1u64.to_le_bytes());
    assert_eq!(encoded[78..82], [0x0d, 0x0c, 0x0b, 0x0a]);
    assert_eq!(encoded[82..86], [4, 3, 2, 1]);
    let unchained = TxMeta { prev_seq: 2, ..meta };
    assert_eq!(encode_tx_meta(&unchained).err().unwrap().kind, StorageErrorKind::InvalidArgument);
}
