//! Finding the end record of an envelope from the end of the log.

use vstd::prelude::*;
use vstd::slice::slice_subrange;

use crate::bytes::{read_u32, u32_at};
use crate::error::{Result, StorageErrorKind};
use crate::vlog::decode::{decode_record_at, lemma_end_trailer, lemma_record_front, record_error};
use crate::vlog::geometry::{
    decode_error, decode_view, lemma_advance_in_page, lemma_page_end, VLogGeometry, VLogPosition,
};
use crate::vlog::record::{
    record_at, DecodedRecord, RecordView, TxPreparedEnd, END_TRAILER_MAGIC,
    TX_PREPARED_END_ENCODED_LEN,
};

verus! {

/// An end record, and where it begins.
#[derive(Clone, Copy, Debug)]
pub struct LocatedFooter {
    pub record_start: VLogPosition,
    pub footer: TxPreparedEnd,
}

/// Where the record begins that the last eight bytes of a tail claim to close.
pub open spec fn claimed_start(tail: Seq<u8>, vlog_end: VLogPosition) -> int {
    vlog_end.offset - u32_at(tail, tail.len() - 8)
}

/// A tail of the log that ends at a position may close with an end record: it ends with the
/// mark of one, and the length before the mark leads to a place in the tail and in its last
/// page.
pub open spec fn closes_with_mark(
    tail_start: VLogPosition,
    tail: Seq<u8>,
    vlog_end: VLogPosition,
    geometry: VLogGeometry,
) -> bool {
    &&& geometry.valid()
    &&& tail_start.file_id == vlog_end.file_id
    &&& tail.len() >= 8
    &&& tail_start.offset + tail.len() == vlog_end.offset
    &&& vlog_end.offset <= geometry.max_file_size
    &&& u32_at(tail, tail.len() - 4) == END_TRAILER_MAGIC
    &&& claimed_start(tail, vlog_end) >= tail_start.offset
    &&& claimed_start(tail, vlog_end) / (geometry.page_size as int) == (vlog_end.offset - 1) / (
    geometry.page_size as int)
}

/// The record that a tail claims to close with.
pub open spec fn claimed_record(tail: Seq<u8>, vlog_end: VLogPosition) -> Seq<u8> {
    tail.skip(tail.len() - u32_at(tail, tail.len() - 8))
}

/// A tail of the log closes with an end record.
pub open spec fn closes_with(
    tail_start: VLogPosition,
    tail: Seq<u8>,
    vlog_end: VLogPosition,
    geometry: VLogGeometry,
    end: RecordView,
) -> bool {
    &&& closes_with_mark(tail_start, tail, vlog_end, geometry)
    &&& end is End
    &&& record_at(
        end,
        VLogPosition {
            file_id: vlog_end.file_id,
            offset: claimed_start(tail, vlog_end) as u64,
        },
        geometry,
    )
    &&& claimed_record(tail, vlog_end) == end.bytes()
}

/// Finds the end record that a tail of the log closes with.
pub fn locate_footer_from_end(
    tail_start: VLogPosition,
    tail: &[u8],
    vlog_end: VLogPosition,
    geometry: VLogGeometry,
) -> (result: Result<LocatedFooter>)
    ensures
        match result {
            Ok(located) => {
                &&& closes_with(tail_start, tail@, vlog_end, geometry, located.footer.record())
                &&& located.footer.vlog_end == vlog_end
                &&& located.record_start == (VLogPosition {
                    file_id: vlog_end.file_id,
                    offset: (vlog_end.offset - TX_PREPARED_END_ENCODED_LEN) as u64,
                })
            },
            Err(error) => {
                &&& forall|end: RecordView|
                    !#[trigger] closes_with(tail_start, tail@, vlog_end, geometry, end)
                &&& error@ == decode_view(
                    if closes_with_mark(tail_start, tail@, vlog_end, geometry) {
                        record_error(
                            claimed_record(tail@, vlog_end),
                            VLogPosition {
                                file_id: vlog_end.file_id,
                                offset: claimed_start(tail@, vlog_end) as u64,
                            },
                            geometry,
                        )
                    } else {
                        StorageErrorKind::Corruption
                    },
                )
            },
        },
{
    geometry.validate_for_decode()?;
    if tail_start.file_id != vlog_end.file_id || tail.len() < 8 {
        return Err(decode_error(StorageErrorKind::Corruption));
    }
    let tail_len: u64 = tail.len() as u64;
    if vlog_end.offset < tail_len || vlog_end.offset - tail_len != tail_start.offset
        || vlog_end.offset > geometry.max_file_size {
        return Err(decode_error(StorageErrorKind::Corruption));
    }
    if read_u32(tail, tail.len() - 4) != END_TRAILER_MAGIC {
        return Err(decode_error(StorageErrorKind::Corruption));
    }
    let end_record_len: u64 = read_u32(tail, tail.len() - 8) as u64;
    if end_record_len > tail_len || (vlog_end.offset - end_record_len) / geometry.page_size != (
    vlog_end.offset - 1) / geometry.page_size {
        return Err(decode_error(StorageErrorKind::Corruption));
    }
    let record_start = VLogPosition {
        file_id: vlog_end.file_id,
        offset: vlog_end.offset - end_record_len,
    };
    let record = slice_subrange(tail, tail.len() - end_record_len as usize, tail.len());
    proof {
        assert(record@ =~= claimed_record(tail@, vlog_end));
    }
    let decoded = decode_record_at(record, record_start, geometry)?;
    match decoded {
        DecodedRecord::TxPreparedEnd(footer) => {
            proof {
                lemma_record_front(footer.record());
            }
            if footer.vlog_end != vlog_end {
                return Err(decode_error(StorageErrorKind::Corruption));
            }
            Ok(LocatedFooter { record_start, footer })
        },
        _ => {
            proof {
                lemma_record_not_refused(decoded.record(), record_start, geometry);
                assert forall|end: RecordView| closes_with(
                    tail_start,
                    tail@,
                    vlog_end,
                    geometry,
                    end,
                ) implies false by {
                    crate::vlog::decode::law_record_round_trip(end, decoded.record());
                }
            }
            Err(decode_error(StorageErrorKind::Corruption))
        },
    }
}

/// Bytes that are a record are not refused for their version.
pub proof fn lemma_record_not_refused(record: RecordView, start: VLogPosition, geometry: VLogGeometry)
    requires
        geometry.valid(),
        record_at(record, start, geometry),
    ensures
        record_error(record.bytes(), start, geometry) == StorageErrorKind::Corruption,
{
    lemma_record_front(record);
    crate::vlog::header::lemma_record_header_layout(
        crate::vlog::header::VLOG_FORMAT_VERSION,
        record.record_type(),
        record.length() as u32,
        record.commit_seq(),
        record.tx_uuid(),
    );
}

/// An end record is found from behind, whatever lies before it in the file.
pub proof fn law_end_record_is_found_from_behind(
    end: RecordView,
    start: VLogPosition,
    geometry: VLogGeometry,
    before: Seq<u8>,
)
    requires
        geometry.valid(),
        end is End,
        record_at(end, start, geometry),
        before.len() <= start.offset,
    ensures
        closes_with(
            VLogPosition {
                file_id: start.file_id,
                offset: (start.offset - before.len()) as u64,
            },
            before + end.bytes(),
            end->End_vlog_end,
            geometry,
            end,
        ),
{
    let tail = before + end.bytes();
    let b = end.bytes();
    let n = before.len() as int;
    lemma_record_front(end);
    lemma_end_trailer(end);
    lemma_page_end(geometry, start.offset as int);
    assert(tail.subrange(tail.len() - 8, tail.len() - 4) =~= b.subrange(103, 107));
    assert(tail.subrange(tail.len() - 4, tail.len() as int) =~= b.subrange(107, 111));
    assert(u32_at(tail, tail.len() - 8) == u32_at(b, 103));
    assert(u32_at(tail, tail.len() - 4) == u32_at(b, 107));
    assert(tail.skip(n) =~= b);
    let p = geometry.page_size as int;
    let last = start.offset + TX_PREPARED_END_ENCODED_LEN - 1;
    lemma_advance_in_page(geometry, start.offset as int, last - start.offset);
    vstd::arithmetic::div_mod::lemma_fundamental_div_mod(start.offset as int, p);
    vstd::arithmetic::div_mod::lemma_fundamental_div_mod(last, p);
    assert(start.offset as int / p == last / p) by (nonlinear_arith)
        requires
            p > 0,
            start.offset as int == p * (start.offset as int / p) + start.offset as int % p,
            last == p * (last / p) + last % p,
            start.offset - start.offset as int % p == last - last % p,
    ;
}

} // verus!
