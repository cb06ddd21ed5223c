//! The checksum of an envelope: carried over the canonical form of its records, so that it does
//! not depend on how the records are divided into pages.

use vstd::prelude::*;

use crate::bytes::{append_bytes, append_le, le_bytes};
use crate::checksum::{checksum, crc32c_appended, crc32c_extend, crc32c_of};
use crate::error::{Result, StorageErrorKind};
use crate::vlog::geometry::{decode_error, decode_view, VLogPosition};
use crate::vlog::header::{append_uuid, validate_identity, RecordType};
use crate::vlog::pointer::MAX_PAYLOAD_LEN;
use crate::vlog::record::{
    validate_tx_begin, validate_tx_prepared_end, DeleteRecordRef, KvRecordRef, RecordView, TxBegin,
    TxPreparedEnd,
};

verus! {

/// `RKENV0`
pub const ENVELOPE_CRC_MAGIC: u64 = 0x3056_4e45_4b52;

/// The number of bytes of [`ENVELOPE_CRC_MAGIC`].
pub const ENVELOPE_CRC_MAGIC_LEN: usize = 6;

/// The fields of a record that the envelope's checksum covers: all but the lengths, the
/// checksums and the padding.
pub open spec fn canonical_fields(record: RecordView) -> Seq<u8> {
    match record {
        RecordView::End {
            vlog_begin,
            vlog_end,
            logical_op_count,
            distinct_key_count,
            kv_record_count,
            delete_record_count,
            ..
        } => {
            le_bytes(vlog_begin.file_id as nat, 4) + le_bytes(vlog_begin.offset as nat, 8)
                + le_bytes(vlog_end.file_id as nat, 4) + le_bytes(vlog_end.offset as nat, 8)
                + le_bytes(logical_op_count as nat, 8) + le_bytes(distinct_key_count as nat, 8)
                + le_bytes(kv_record_count as nat, 8) + le_bytes(delete_record_count as nat, 8)
        },
        _ => record.payload(),
    }
}

/// The length of the canonical form of a record behind its prefix.
pub open spec fn canonical_length(record: RecordView) -> nat {
    match record {
        RecordView::Begin { .. } => 52,
        RecordView::Put { key, value, .. } => 36 + key.len() + value.len(),
        RecordView::Delete { key, .. } => 34 + key.len(),
        RecordView::End { .. } => 80,
        RecordView::PageEnd { .. } => 0,
    }
}

/// The canonical form of a record: its type, the length of what follows, its transaction and
/// its fields.
pub open spec fn canonical(record: RecordView) -> Seq<u8> {
    le_bytes(record.record_type().code() as nat, 1) + le_bytes(canonical_length(record), 4)
        + le_bytes(record.commit_seq() as nat, 8) + record.tx_uuid() + canonical_fields(record)
}

/// The checksum of the records of an envelope so far.
pub open spec fn envelope_checksum(records: Seq<RecordView>) -> u32
    decreases records.len(),
{
    if records.len() == 0 {
        crc32c_of(le_bytes(ENVELOPE_CRC_MAGIC as nat, ENVELOPE_CRC_MAGIC_LEN as nat))
    } else {
        crc32c_appended(envelope_checksum(records.drop_last()), canonical(records.last()))
    }
}

#[derive(Clone, Copy, Debug, PartialEq, Eq, Structural)]
pub struct EnvelopeCrc32c {
    checksum: u32,
}

impl View for EnvelopeCrc32c {
    type V = u32;

    closed spec fn view(&self) -> u32 {
        self.checksum
    }
}

/// What carrying a checksum on over a record answers.
pub open spec fn carried_on(
    before: u32,
    after: u32,
    record: RecordView,
    result: Result<()>,
) -> bool {
    match result {
        Ok(_) => record.valid() && after == crc32c_appended(before, canonical(record)),
        Err(error) => !record.valid() && after == before && error@ == decode_view(
            StorageErrorKind::Corruption,
        ),
    }
}

impl EnvelopeCrc32c {
    pub fn new() -> (crc: Self)
        ensures
            crc@ == envelope_checksum(Seq::empty()),
    {
        let mut magic: Vec<u8> = Vec::new();
        append_le(&mut magic, ENVELOPE_CRC_MAGIC, ENVELOPE_CRC_MAGIC_LEN);
        proof {
            assert(magic@ =~= le_bytes(ENVELOPE_CRC_MAGIC as nat, ENVELOPE_CRC_MAGIC_LEN as nat));
        }
        EnvelopeCrc32c { checksum: checksum(magic.as_slice()) }
    }

    pub fn update_tx_begin(&mut self, begin: TxBegin) -> (result: Result<()>)
        ensures
            carried_on(old(self)@, final(self)@, begin.record(), result),
    {
        validate_tx_begin(begin)?;
        let mut form: Vec<u8> = canonical_prefix(
            RecordType::TxBegin,
            52,
            begin.commit_seq,
            &begin.tx_uuid,
        );
        append_position(&mut form, begin.vlog_begin);
        append_le(&mut form, begin.logical_op_count, 8);
        append_le(&mut form, begin.distinct_key_count, 8);
        proof {
            assert(form@ =~= canonical(begin.record()));
        }
        self.update(form.as_slice());
        Ok(())
    }

    pub fn update_kv_record(&mut self, record: KvRecordRef<'_>) -> (result: Result<()>)
        ensures
            carried_on(old(self)@, final(self)@, record.record(), result),
    {
        validate_identity(record.commit_seq, &record.tx_uuid)?;
        if record.key.len() == 0 || record.key.len() > MAX_PAYLOAD_LEN as usize
            || record.value.len() > MAX_PAYLOAD_LEN as usize || record.key.len()
            + record.value.len() > MAX_PAYLOAD_LEN as usize {
            return Err(decode_error(StorageErrorKind::Corruption));
        }
        let length: u32 = 36 + record.key.len() as u32 + record.value.len() as u32;
        let mut form: Vec<u8> = canonical_prefix(
            RecordType::KvRecord,
            length,
            record.commit_seq,
            &record.tx_uuid,
        );
        append_le(&mut form, record.op_index, 8);
        append_le(&mut form, record.key.len() as u64, 2);
        append_le(&mut form, record.value.len() as u64, 2);
        append_bytes(&mut form, record.key);
        append_bytes(&mut form, record.value);
        proof {
            assert(form@ =~= canonical(record.record()));
        }
        self.update(form.as_slice());
        Ok(())
    }

    pub fn update_delete_record(&mut self, record: DeleteRecordRef<'_>) -> (result: Result<()>)
        ensures
            carried_on(old(self)@, final(self)@, record.record(), result),
    {
        validate_identity(record.commit_seq, &record.tx_uuid)?;
        if record.key.len() == 0 || record.key.len() > MAX_PAYLOAD_LEN as usize {
            return Err(decode_error(StorageErrorKind::Corruption));
        }
        let length: u32 = 34 + record.key.len() as u32;
        let mut form: Vec<u8> = canonical_prefix(
            RecordType::DeleteRecord,
            length,
            record.commit_seq,
            &record.tx_uuid,
        );
        append_le(&mut form, record.op_index, 8);
        append_le(&mut form, record.key.len() as u64, 2);
        append_bytes(&mut form, record.key);
        proof {
            assert(form@ =~= canonical(record.record()));
        }
        self.update(form.as_slice());
        Ok(())
    }

    /// The checksum of the envelope that an end record closes. The checksum that the record
    /// itself holds plays no part.
    pub fn finish_with_footer(self, footer: TxPreparedEnd) -> (result: Result<u32>)
        ensures
            match result {
                Ok(value) => footer.record().valid() && value == crc32c_appended(
                    self@,
                    canonical(footer.record()),
                ),
                Err(error) => !footer.record().valid() && error@ == decode_view(
                    StorageErrorKind::Corruption,
                ),
            },
    {
        validate_tx_prepared_end(footer)?;
        let mut form: Vec<u8> = canonical_prefix(
            RecordType::TxPreparedEnd,
            80,
            footer.commit_seq,
            &footer.tx_uuid,
        );
        append_position(&mut form, footer.vlog_begin);
        append_position(&mut form, footer.vlog_end);
        append_le(&mut form, footer.logical_op_count, 8);
        append_le(&mut form, footer.distinct_key_count, 8);
        append_le(&mut form, footer.kv_record_count, 8);
        append_le(&mut form, footer.delete_record_count, 8);
        proof {
            assert(form@ =~= canonical(footer.record()));
        }
        let mut crc = self;
        crc.update(form.as_slice());
        Ok(crc.checksum)
    }

    fn update(&mut self, bytes: &[u8])
        ensures
            final(self)@ == crc32c_appended(old(self)@, bytes@),
    {
        self.checksum = crc32c_extend(self.checksum, bytes);
    }
}

impl Default for EnvelopeCrc32c {
    fn default() -> (crc: Self)
        ensures
            crc@ == envelope_checksum(Seq::empty()),
    {
        EnvelopeCrc32c::new()
    }
}

/// What the canonical form of every record begins with.
fn canonical_prefix(record_type: RecordType, length: u32, commit_seq: u64, tx_uuid: &[u8; 16]) -> (prefix:
    Vec<u8>)
    ensures
        prefix@ == le_bytes(record_type.code() as nat, 1) + le_bytes(length as nat, 4) + le_bytes(
            commit_seq as nat,
            8,
        ) + tx_uuid@,
{
    let mut prefix: Vec<u8> = Vec::new();
    append_le(&mut prefix, record_type.encode() as u64, 1);
    append_le(&mut prefix, length as u64, 4);
    append_le(&mut prefix, commit_seq, 8);
    append_uuid(&mut prefix, tx_uuid);
    proof {
        assert(prefix@ =~= le_bytes(record_type.code() as nat, 1) + le_bytes(length as nat, 4)
            + le_bytes(commit_seq as nat, 8) + tx_uuid@);
    }
    prefix
}

fn append_position(out: &mut Vec<u8>, position: VLogPosition)
    ensures
        final(out)@ == old(out)@ + le_bytes(position.file_id as nat, 4) + le_bytes(
            position.offset as nat,
            8,
        ),
{
    append_le(out, position.file_id as u64, 4);
    append_le(out, position.offset, 8);
}

/// An end record with another stored checksum.
pub open spec fn with_stored_checksum(end: RecordView, stored: u32) -> RecordView {
    match end {
        RecordView::End {
            commit_seq,
            tx_uuid,
            vlog_begin,
            vlog_end,
            logical_op_count,
            distinct_key_count,
            kv_record_count,
            delete_record_count,
            envelope_crc32c,
        } => RecordView::End {
            commit_seq,
            tx_uuid,
            vlog_begin,
            vlog_end,
            logical_op_count,
            distinct_key_count,
            kv_record_count,
            delete_record_count,
            envelope_crc32c: stored,
        },
        other => other,
    }
}

/// The checksum of an envelope does not depend on the checksum that its end record holds.
pub proof fn law_checksum_ignores_stored_checksum(
    records: Seq<RecordView>,
    end: RecordView,
    stored: u32,
)
    ensures
        envelope_checksum(records.push(end)) == envelope_checksum(
            records.push(with_stored_checksum(end, stored)),
        ),
{
    assert(records.push(end).drop_last() =~= records);
    assert(records.push(with_stored_checksum(end, stored)).drop_last() =~= records);
    assert(canonical(end) == canonical(with_stored_checksum(end, stored)));
}

} // verus!
