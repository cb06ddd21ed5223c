//! Taking the log apart into the chunks that it was written in.

use vstd::prelude::*;

use crate::error::{Result, StorageErrorKind};
use crate::vlog::decode::lemma_record_front;
use crate::vlog::geometry::{
    decode_error, decode_view, next_chunk_position, next_position, position_before,
    remaining_in_page, ChunkView, VLogGeometry, VLogPosition,
};
use crate::vlog::header::{
    is_transaction, lemma_record_header_layout, record_header_bytes, record_header_error,
    RecordHeader, RecordType, FILE_HEADER_ENCODED_LEN, PAGE_HEADER_ENCODED_LEN,
    RECORD_HEADER_ENCODED_LEN, VLOG_FORMAT_VERSION,
};
use crate::vlog::record::RecordView;
use crate::vlog::scan::is_record;

verus! {

/// Where the next chunk begins, and how many bytes of it are known to be there. The length of a
/// record is only known from its header.
#[derive(Clone, Copy, Debug, PartialEq, Eq, Structural)]
pub struct ChunkStart {
    pub position: VLogPosition,
    pub known_len: usize,
    pub is_record: bool,
}

/// The chunk that begins at a position.
pub open spec fn chunk_start(position: VLogPosition, geometry: VLogGeometry) -> ChunkStart {
    if position.offset % geometry.page_size == 0 {
        ChunkStart { position, known_len: PAGE_HEADER_ENCODED_LEN, is_record: false }
    } else if position.offset == PAGE_HEADER_ENCODED_LEN {
        ChunkStart { position, known_len: FILE_HEADER_ENCODED_LEN, is_record: false }
    } else {
        ChunkStart { position, known_len: RECORD_HEADER_ENCODED_LEN, is_record: true }
    }
}

/// The chunk behind a position of the log, on the way to an end; `None` at the end. The chunks
/// of an envelope meet its end exactly.
pub fn next_chunk(previous_end: VLogPosition, vlog_end: VLogPosition, geometry: VLogGeometry) -> (result:
    Result<Option<ChunkStart>>)
    requires
        geometry.valid(),
    ensures
        if previous_end == vlog_end {
            result matches Ok(next) && next is None
        } else if !position_before(previous_end, vlog_end) || next_position(previous_end, geometry)
            is None {
            result matches Err(error) && error@ == decode_view(StorageErrorKind::Corruption)
        } else {
            result matches Ok(Some(next)) && next == chunk_start(
                next_position(previous_end, geometry)->0,
                geometry,
            )
        },
{
    if previous_end == vlog_end {
        return Ok(None);
    }
    if !previous_end.before(vlog_end) {
        return Err(decode_error(StorageErrorKind::Corruption));
    }
    let position = next_chunk_position(previous_end, geometry)?;
    if position.offset % geometry.page_size == 0 {
        return Ok(
            Some(ChunkStart { position, known_len: PAGE_HEADER_ENCODED_LEN, is_record: false }),
        );
    }
    if position.offset == PAGE_HEADER_ENCODED_LEN as u64 {
        return Ok(
            Some(ChunkStart { position, known_len: FILE_HEADER_ENCODED_LEN, is_record: false }),
        );
    }
    Ok(Some(ChunkStart { position, known_len: RECORD_HEADER_ENCODED_LEN, is_record: true }))
}

/// A record header says that a record has some length.
pub open spec fn has_length(front: Seq<u8>, length: u32) -> bool {
    &&& front.len() >= RECORD_HEADER_ENCODED_LEN
    &&& exists|record_type: RecordType, commit_seq: u64, tx_uuid: Seq<u8>|
        is_transaction(commit_seq, tx_uuid) && front.take(RECORD_HEADER_ENCODED_LEN as int)
            == #[trigger] record_header_bytes(
            VLOG_FORMAT_VERSION,
            record_type,
            length,
            commit_seq,
            tx_uuid,
        )
}

/// The length of the record at a position, from the header in front of it. A record is no
/// longer than what is left of its page.
pub fn record_chunk_length(front: &[u8], position: VLogPosition, geometry: VLogGeometry) -> (result: Result<
    usize,
>)
    requires
        geometry.valid(),
        position.offset < geometry.max_file_size,
    ensures
        match result {
            Ok(length) => {
                &&& RECORD_HEADER_ENCODED_LEN <= length <= geometry.remaining(
                    position.offset as int,
                )
                &&& length <= u32::MAX
                &&& has_length(front@, length as u32)
            },
            Err(error) => {
                ||| error@ == decode_view(record_header_error(front@)) && forall|length: u32|
                    !has_length(front@, length)
                ||| error@ == decode_view(StorageErrorKind::Corruption) && exists|length: u32|
                    #[trigger] has_length(front@, length) && !(RECORD_HEADER_ENCODED_LEN <= length
                        <= geometry.remaining(position.offset as int))
            },
        },
{
    let header = RecordHeader::decode(front)?;
    proof {
        assert(has_length(front@, header.encoded_len));
    }
    let remaining: u64 = remaining_in_page(position.offset, geometry)?;
    if header.encoded_len < RECORD_HEADER_ENCODED_LEN as u32 || header.encoded_len as u64
        > remaining {
        return Err(decode_error(StorageErrorKind::Corruption));
    }
    Ok(header.encoded_len as usize)
}

/// A record in the log is taken out whole: its header says its length, and no other.
pub proof fn law_record_says_its_length(
    chunk: ChunkView,
    record: RecordView,
    geometry: VLogGeometry,
    other: u32,
)
    requires
        is_record(chunk, record, geometry),
    ensures
        chunk.bytes.len() <= u32::MAX,
        has_length(chunk.bytes, chunk.bytes.len() as u32),
        has_length(chunk.bytes, other) ==> other == chunk.bytes.len(),
{
    lemma_record_front(record);
    let front = chunk.bytes.take(RECORD_HEADER_ENCODED_LEN as int);
    let length = chunk.bytes.len() as u32;
    assert(front == record_header_bytes(
        VLOG_FORMAT_VERSION,
        record.record_type(),
        length,
        record.commit_seq(),
        record.tx_uuid(),
    ));
    if has_length(chunk.bytes, other) {
        let (t, c, u) = choose|t: RecordType, c: u64, u: Seq<u8>|
            is_transaction(c, u) && front == #[trigger] record_header_bytes(
                VLOG_FORMAT_VERSION,
                t,
                other,
                c,
                u,
            );
        lemma_record_header_layout(VLOG_FORMAT_VERSION, t, other, c, u);
        lemma_record_header_layout(
            VLOG_FORMAT_VERSION,
            record.record_type(),
            length,
            record.commit_seq(),
            record.tx_uuid(),
        );
    }
}

/// A chunk begins with the header of its page at the start of a page, with the header of its file
/// right behind the first one of these, and with the header of a record everywhere else.
pub proof fn law_chunk_begins_with_its_header(position: VLogPosition, geometry: VLogGeometry)
    requires
        geometry.valid(),
    ensures
        ({
            let start = chunk_start(position, geometry);
            &&& start.position == position
            &&& geometry.record_may_start(position) ==> start.is_record
            &&& start.is_record ==> start.known_len == 39
            &&& !start.is_record ==> start.known_len == 16 || (start.known_len == 48
                && position.offset == 16)
            &&& position.offset % geometry.page_size == 0 ==> start.known_len == 16
            &&& position.offset == 16 ==> start.known_len == 48
            &&& !start.is_record ==> position.offset % geometry.page_size == 0 || position.offset
                == 16
        }),
{
    if position.offset < geometry.page_size {
        vstd::arithmetic::div_mod::lemma_small_mod(
            position.offset as nat,
            geometry.page_size as nat,
        );
    }
}

} // verus!
