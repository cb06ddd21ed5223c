//! Positions in the value log, the geometry of its files, and its errors.

use vstd::prelude::*;

use crate::error::{
    detached_error, ErrorView, Operation, ProtocolStage, Result, RetryAdvice, StorageError,
    StorageErrorKind, WriteOutcome,
};

verus! {

pub const MAX_VLOG_FILE_ID: u32 = 999_999;

pub const MAX_VLOG_FILE_SIZE: u64 = 4_294_967_296;

pub const VLOG_PAGE_SIZE: u64 = 65_536;

/// The largest number of pages in a file.
pub const MAX_PAGE_COUNT: u64 = 65_536;

/// Where records begin in the first page of a file, behind the page and the file header.
pub const FIRST_PAGE_RECORD_AREA_START: u64 = 64;

/// Where records begin in every other page, behind the page header.
pub const OTHER_PAGE_RECORD_AREA_OFFSET: u64 = 16;

/// The shortest record that can close a page.
pub const PAGE_END_MIN_SIZE: u32 = 43;

/// A byte position in the value log.
#[derive(Clone, Copy, Debug, PartialEq, Eq, Structural)]
pub struct VLogPosition {
    pub file_id: u32,
    pub offset: u64,
}

/// Positions are ordered by file, then by offset.
pub open spec fn position_before(a: VLogPosition, b: VLogPosition) -> bool {
    a.file_id < b.file_id || (a.file_id == b.file_id && a.offset < b.offset)
}

impl VLogPosition {
    /// A position that some file can have.
    pub open spec fn valid(self) -> bool {
        self.file_id <= MAX_VLOG_FILE_ID && self.offset <= MAX_VLOG_FILE_SIZE
    }

    pub fn is_valid(self) -> (valid: bool)
        ensures
            valid == self.valid(),
    {
        self.file_id <= MAX_VLOG_FILE_ID && self.offset <= MAX_VLOG_FILE_SIZE
    }

    pub fn validate(self) -> (result: Result<()>)
        ensures
            match result {
                Ok(_) => self.valid(),
                Err(error) => !self.valid() && error@ == decode_view(StorageErrorKind::Corruption),
            },
    {
        if self.is_valid() {
            Ok(())
        } else {
            Err(decode_error(StorageErrorKind::Corruption))
        }
    }

    pub fn before(self, other: VLogPosition) -> (before: bool)
        ensures
            before == position_before(self, other),
    {
        self.file_id < other.file_id || (self.file_id == other.file_id && self.offset
            < other.offset)
    }
}

/// How files are divided: the page size, the size of a full file, the last file number.
#[derive(Clone, Copy, Debug, PartialEq, Eq, Structural)]
pub struct VLogGeometry {
    pub page_size: u64,
    pub max_file_size: u64,
    pub max_file_id: u32,
}

impl VLogGeometry {
    pub open spec fn valid(self) -> bool {
        &&& FIRST_PAGE_RECORD_AREA_START < self.page_size <= VLOG_PAGE_SIZE
        &&& 0 < self.max_file_size <= MAX_VLOG_FILE_SIZE
        &&& self.max_file_size % self.page_size == 0
        &&& self.max_file_size / self.page_size <= MAX_PAGE_COUNT
        &&& self.max_file_id <= MAX_VLOG_FILE_ID
    }

    /// The offset behind the page that holds an offset.
    pub open spec fn page_end(self, offset: int) -> int {
        offset - offset % (self.page_size as int) + self.page_size
    }

    /// The number of bytes from an offset to the end of its page.
    pub open spec fn remaining(self, offset: int) -> int {
        self.page_end(offset) - offset
    }

    /// An offset at which a record may begin: inside a file and behind the headers of its page.
    pub open spec fn record_may_start(self, position: VLogPosition) -> bool {
        &&& position.file_id <= self.max_file_id
        &&& position.offset < self.max_file_size
        &&& position.offset % self.page_size >= (if position.offset < self.page_size {
            FIRST_PAGE_RECORD_AREA_START
        } else {
            OTHER_PAGE_RECORD_AREA_OFFSET
        })
    }

    /// The geometry of databases on disk.
    pub fn production() -> (geometry: Self)
        ensures
            geometry == (VLogGeometry {
                page_size: VLOG_PAGE_SIZE,
                max_file_size: MAX_VLOG_FILE_SIZE,
                max_file_id: MAX_VLOG_FILE_ID,
            }),
            geometry.valid(),
    {
        VLogGeometry {
            page_size: VLOG_PAGE_SIZE,
            max_file_size: MAX_VLOG_FILE_SIZE,
            max_file_id: MAX_VLOG_FILE_ID,
        }
    }

    /// A smaller geometry, for exercising page and file boundaries.
    pub fn test_only(page_size: u64, max_file_size: u64, max_file_id: u32) -> (result: Result<Self>)
        ensures
            ({
                let geometry = VLogGeometry { page_size, max_file_size, max_file_id };
                match result {
                    Ok(made) => made == geometry && geometry.valid(),
                    Err(error) => !geometry.valid() && error@ == invalid_vlog_view(
                        StorageErrorKind::InvalidArgument,
                    ),
                }
            }),
    {
        let geometry = VLogGeometry { page_size, max_file_size, max_file_id };
        geometry.validate()?;
        Ok(geometry)
    }

    pub fn is_valid(self) -> (valid: bool)
        ensures
            valid == self.valid(),
    {
        if self.page_size <= FIRST_PAGE_RECORD_AREA_START || self.page_size > VLOG_PAGE_SIZE {
            return false;
        }
        0 < self.max_file_size && self.max_file_size <= MAX_VLOG_FILE_SIZE && self.max_file_size
            % self.page_size == 0 && self.max_file_size / self.page_size <= MAX_PAGE_COUNT
            && self.max_file_id <= MAX_VLOG_FILE_ID
    }

    pub fn validate(self) -> (result: Result<()>)
        ensures
            match result {
                Ok(_) => self.valid(),
                Err(error) => !self.valid() && error@ == invalid_vlog_view(
                    StorageErrorKind::InvalidArgument,
                ),
            },
    {
        if self.is_valid() {
            Ok(())
        } else {
            Err(invalid_vlog_error(StorageErrorKind::InvalidArgument))
        }
    }

    pub fn validate_for_decode(self) -> (result: Result<()>)
        ensures
            match result {
                Ok(_) => self.valid(),
                Err(error) => !self.valid() && error@ == decode_view(StorageErrorKind::Corruption),
            },
    {
        if self.is_valid() {
            Ok(())
        } else {
            Err(decode_error(StorageErrorKind::Corruption))
        }
    }
}

/// A page that begins inside a file also ends inside it.
pub proof fn lemma_page_end(geometry: VLogGeometry, offset: int)
    requires
        geometry.valid(),
        0 <= offset < geometry.max_file_size,
    ensures
        offset < geometry.page_end(offset) <= geometry.max_file_size,
        geometry.page_end(offset) % (geometry.page_size as int) == 0,
        geometry.page_end(offset) - geometry.page_size <= offset,
        1 <= geometry.remaining(offset) <= geometry.page_size,
        offset % (geometry.page_size as int) == 0 ==> geometry.remaining(offset)
            == geometry.page_size,
{
    let p = geometry.page_size as int;
    let m = geometry.max_file_size as int;
    vstd::arithmetic::div_mod::lemma_fundamental_div_mod(offset, p);
    vstd::arithmetic::div_mod::lemma_fundamental_div_mod(m, p);
    assert(0 <= offset % p < p) by (nonlinear_arith)
        requires
            p > 0,
    ;
    let q = offset / p;
    let c = m / p;
    assert(q < c) by (nonlinear_arith)
        requires
            p * q <= offset,
            offset < m,
            m == p * c,
            p > 0,
    ;
    assert(p * (q + 1) <= p * c && p * (q + 1) == p * q + p) by (nonlinear_arith)
        requires
            q < c,
            p > 0,
    ;
    vstd::arithmetic::div_mod::lemma_mod_multiples_basic(q + 1, p);
    assert((q + 1) * p == p * (q + 1)) by (nonlinear_arith);
    assert(geometry.page_end(offset) == (q + 1) * p);
}

/// Advancing inside a page changes the offset in the page by the same amount.
pub proof fn lemma_advance_in_page(geometry: VLogGeometry, offset: int, by: int)
    requires
        geometry.valid(),
        0 <= offset,
        0 <= by < geometry.remaining(offset),
    ensures
        (offset + by) % (geometry.page_size as int) == offset % (geometry.page_size as int) + by,
        geometry.page_end(offset + by) == geometry.page_end(offset),
        geometry.remaining(offset + by) == geometry.remaining(offset) - by,
{
    let p = geometry.page_size as int;
    vstd::arithmetic::div_mod::lemma_fundamental_div_mod(offset, p);
    assert(0 <= offset % p < p) by (nonlinear_arith)
        requires
            p > 0,
    ;
    let q = offset / p;
    let r = offset % p + by;
    assert(p * q == q * p) by (nonlinear_arith);
    vstd::arithmetic::div_mod::lemma_fundamental_div_mod_converse(offset + by, p, q, r);
}

/// Advancing to the end of a page leaves no offset in the page.
pub proof fn lemma_advance_to_page_end(geometry: VLogGeometry, offset: int)
    requires
        geometry.valid(),
        0 <= offset < geometry.max_file_size,
    ensures
        (offset + geometry.remaining(offset)) % (geometry.page_size as int) == 0,
{
    lemma_page_end(geometry, offset);
}

/// Offsets below the page size are their own remainder, and zero is the only multiple among
/// them.
pub proof fn lemma_first_page(geometry: VLogGeometry, offset: int)
    requires
        geometry.valid(),
        0 <= offset,
    ensures
        offset < geometry.page_size ==> offset % (geometry.page_size as int) == offset,
        0 <= offset % (geometry.page_size as int) < geometry.page_size,
        offset % (geometry.page_size as int) == 0 && offset > 0 ==> offset >= geometry.page_size,
{
    let p = geometry.page_size as int;
    assert(0 <= offset % p < p) by (nonlinear_arith)
        requires
            p > 0,
    ;
    if offset < p {
        vstd::arithmetic::div_mod::lemma_small_mod(offset as nat, p as nat);
    }
}

/// The number of a page inside a file fits the page header.
pub proof fn lemma_page_number(geometry: VLogGeometry, offset: int)
    requires
        geometry.valid(),
        0 <= offset < geometry.max_file_size,
    ensures
        0 <= offset / (geometry.page_size as int) < MAX_PAGE_COUNT,
        offset / (geometry.page_size as int) == 0 <==> offset < geometry.page_size,
{
    let p = geometry.page_size as int;
    let m = geometry.max_file_size as int;
    vstd::arithmetic::div_mod::lemma_fundamental_div_mod(offset, p);
    vstd::arithmetic::div_mod::lemma_fundamental_div_mod(m, p);
    let q = offset / p;
    let c = m / p;
    assert(0 <= offset % p < p) by (nonlinear_arith)
        requires
            p > 0,
    ;
    assert(0 <= q < c) by (nonlinear_arith)
        requires
            offset == p * q + offset % p,
            0 <= offset % p < p,
            0 <= offset < m,
            m == p * c,
            p > 0,
    ;
    assert(q == 0 <==> offset < p) by (nonlinear_arith)
        requires
            offset == p * q + offset % p,
            0 <= offset % p < p,
            0 <= q,
            p > 0,
    ;
}

pub fn page_end(offset: u64, geometry: VLogGeometry) -> (result: Result<u64>)
    requires
        geometry.valid(),
    ensures
        match result {
            Ok(end) => offset < geometry.max_file_size && end == geometry.page_end(offset as int),
            Err(error) => offset >= geometry.max_file_size && error@ == decode_view(
                StorageErrorKind::InvalidLayout,
            ),
        },
{
    if offset >= geometry.max_file_size {
        return Err(decode_error(StorageErrorKind::InvalidLayout));
    }
    proof {
        lemma_page_end(geometry, offset as int);
        lemma_first_page(geometry, offset as int);
        vstd::arithmetic::div_mod::lemma_mod_decreases(offset as nat, geometry.page_size as nat);
    }
    Ok(offset - offset % geometry.page_size + geometry.page_size)
}

pub fn remaining_in_page(offset: u64, geometry: VLogGeometry) -> (result: Result<u64>)
    requires
        geometry.valid(),
    ensures
        match result {
            Ok(remaining) => offset < geometry.max_file_size && remaining == geometry.remaining(
                offset as int,
            ),
            Err(error) => offset >= geometry.max_file_size && error@ == decode_view(
                StorageErrorKind::InvalidLayout,
            ),
        },
{
    let end: u64 = page_end(offset, geometry)?;
    proof {
        lemma_page_end(geometry, offset as int);
    }
    Ok(end - offset)
}

pub fn is_record_start(position: VLogPosition, geometry: VLogGeometry) -> (may_start: bool)
    requires
        geometry.valid(),
    ensures
        may_start == geometry.record_may_start(position),
{
    if position.file_id > geometry.max_file_id || position.offset >= geometry.max_file_size {
        return false;
    }
    let record_area_offset: u64 = if position.offset < geometry.page_size {
        FIRST_PAGE_RECORD_AREA_START
    } else {
        OTHER_PAGE_RECORD_AREA_OFFSET
    };
    position.offset % geometry.page_size >= record_area_offset
}

pub fn validate_record_start(position: VLogPosition, geometry: VLogGeometry) -> (result: Result<()>)
    requires
        geometry.valid(),
    ensures
        match result {
            Ok(_) => geometry.record_may_start(position),
            Err(error) => !geometry.record_may_start(position) && error@ == decode_view(
                StorageErrorKind::InvalidLayout,
            ),
        },
{
    if is_record_start(position, geometry) {
        Ok(())
    } else {
        Err(decode_error(StorageErrorKind::InvalidLayout))
    }
}

/// A record of some length may stand at a position: it starts where records may and stays
/// inside its page.
pub open spec fn record_fits(length: nat, start: VLogPosition, geometry: VLogGeometry) -> bool {
    geometry.record_may_start(start) && length <= geometry.remaining(start.offset as int)
}

pub fn validate_record_bounds(
    encoded: &[u8],
    record_start: VLogPosition,
    geometry: VLogGeometry,
) -> (result: Result<()>)
    requires
        geometry.valid(),
    ensures
        match result {
            Ok(_) => record_fits(encoded@.len(), record_start, geometry),
            Err(error) => !record_fits(encoded@.len(), record_start, geometry) && error@
                == decode_view(StorageErrorKind::Corruption),
        },
{
    if !is_record_start(record_start, geometry) {
        return Err(decode_error(StorageErrorKind::Corruption));
    }
    proof {
        lemma_page_end(geometry, record_start.offset as int);
    }
    let remaining: u64 = remaining_in_page(record_start.offset, geometry)?;
    if encoded.len() as u64 > remaining {
        return Err(decode_error(StorageErrorKind::Corruption));
    }
    Ok(())
}

/// A part of an envelope as it lies in a file.
#[derive(Clone, Debug, PartialEq, Eq)]
pub struct PhysicalChunk {
    pub position: VLogPosition,
    pub bytes: Vec<u8>,
}

/// A chunk, with its bytes as a mathematical string.
#[verifier::ext_equal]
pub struct ChunkView {
    pub position: VLogPosition,
    pub bytes: Seq<u8>,
}

impl View for PhysicalChunk {
    type V = ChunkView;

    open spec fn view(&self) -> ChunkView {
        ChunkView { position: self.position, bytes: self.bytes@ }
    }
}

/// Chunks as mathematical values.
pub open spec fn chunk_views(chunks: Seq<PhysicalChunk>) -> Seq<ChunkView> {
    Seq::new(chunks.len(), |i: int| chunks[i]@)
}

/// A chunk stays inside its file.
pub open spec fn chunk_fits(chunk: ChunkView, geometry: VLogGeometry) -> bool {
    chunk.position.file_id <= geometry.max_file_id && chunk.position.offset + chunk.bytes.len()
        <= geometry.max_file_size
}

/// The position behind a chunk.
pub open spec fn end_of_chunk(chunk: ChunkView) -> VLogPosition {
    VLogPosition {
        file_id: chunk.position.file_id,
        offset: (chunk.position.offset + chunk.bytes.len()) as u64,
    }
}

pub fn chunk_end(chunk: &PhysicalChunk, geometry: VLogGeometry) -> (result: Result<VLogPosition>)
    requires
        geometry.valid(),
    ensures
        match result {
            Ok(end) => chunk_fits(chunk@, geometry) && end == end_of_chunk(chunk@),
            Err(error) => !chunk_fits(chunk@, geometry) && error@ == decode_view(
                StorageErrorKind::Corruption,
            ),
        },
{
    if chunk.position.file_id > geometry.max_file_id {
        return Err(decode_error(StorageErrorKind::Corruption));
    }
    let length: u64 = chunk.bytes.len() as u64;
    if chunk.position.offset > geometry.max_file_size || length > geometry.max_file_size
        - chunk.position.offset {
        return Err(decode_error(StorageErrorKind::Corruption));
    }
    Ok(
        VLogPosition {
            file_id: chunk.position.file_id,
            offset: chunk.position.offset + length,
        },
    )
}

/// Where the next chunk begins: where the previous one ended, or in the next file once a file
/// is full. There is no next position behind the last file.
pub open spec fn next_position(previous_end: VLogPosition, geometry: VLogGeometry) -> Option<
    VLogPosition,
> {
    if previous_end.offset < geometry.max_file_size {
        Some(previous_end)
    } else if previous_end.offset != geometry.max_file_size || previous_end.file_id
        >= geometry.max_file_id {
        None
    } else {
        Some(VLogPosition { file_id: (previous_end.file_id + 1) as u32, offset: 0 })
    }
}

pub fn next_chunk_position(previous_end: VLogPosition, geometry: VLogGeometry) -> (result: Result<
    VLogPosition,
>)
    ensures
        match result {
            Ok(next) => next_position(previous_end, geometry) == Some(next),
            Err(error) => next_position(previous_end, geometry) is None && error@ == decode_view(
                StorageErrorKind::Corruption,
            ),
        },
{
    if previous_end.offset < geometry.max_file_size {
        return Ok(previous_end);
    }
    if previous_end.offset != geometry.max_file_size || previous_end.file_id
        >= geometry.max_file_id {
        return Err(decode_error(StorageErrorKind::Corruption));
    }
    Ok(VLogPosition { file_id: previous_end.file_id + 1, offset: 0 })
}

/// A transaction record may end at a position: at the end of a page, or with room behind it
/// for the record that closes the page.
pub open spec fn record_may_end(end: VLogPosition, geometry: VLogGeometry) -> bool {
    &&& end.file_id <= geometry.max_file_id
    &&& end.offset <= geometry.max_file_size
    &&& end.offset % geometry.page_size == 0 || geometry.remaining(end.offset as int)
        >= PAGE_END_MIN_SIZE
}

pub fn validate_transaction_record_end(
    record_end: VLogPosition,
    geometry: VLogGeometry,
) -> (result: Result<()>)
    requires
        geometry.valid(),
    ensures
        match result {
            Ok(_) => record_may_end(record_end, geometry),
            Err(error) => !record_may_end(record_end, geometry) && error@ == decode_view(
                StorageErrorKind::Corruption,
            ),
        },
{
    if record_end.file_id > geometry.max_file_id || record_end.offset > geometry.max_file_size {
        return Err(decode_error(StorageErrorKind::Corruption));
    }
    if record_end.offset == geometry.max_file_size || record_end.offset % geometry.page_size == 0 {
        return Ok(());
    }
    let remaining: u64 = remaining_in_page(record_end.offset, geometry)?;
    if remaining < PAGE_END_MIN_SIZE as u64 {
        return Err(decode_error(StorageErrorKind::Corruption));
    }
    Ok(())
}

/// A write to the log that was refused before it started.
pub open spec fn invalid_vlog_view(kind: StorageErrorKind) -> ErrorView {
    detached_error(
        kind,
        Operation::WriteBatch,
        ProtocolStage::VLogAppend,
        Some(WriteOutcome::NotCommitted),
        if kind == StorageErrorKind::ResourceExhausted {
            RetryAdvice::RetrySameInstance
        } else if kind == StorageErrorKind::IncompatibleFormat {
            RetryAdvice::DoNotRetry
        } else {
            RetryAdvice::FixRequestAndRetrySameInstance
        },
    )
}

pub fn invalid_vlog_error(kind: StorageErrorKind) -> (error: StorageError)
    ensures
        error@ == invalid_vlog_view(kind),
{
    let retry_advice = if kind == StorageErrorKind::ResourceExhausted {
        RetryAdvice::RetrySameInstance
    } else if kind == StorageErrorKind::IncompatibleFormat {
        RetryAdvice::DoNotRetry
    } else {
        RetryAdvice::FixRequestAndRetrySameInstance
    };
    StorageError::codec_error(
        kind,
        Operation::WriteBatch,
        ProtocolStage::VLogAppend,
        Some(WriteOutcome::NotCommitted),
        retry_advice,
    )
}

/// The log has no room left behind its last file.
pub open spec fn capacity_view() -> ErrorView {
    detached_error(
        StorageErrorKind::CapacityExceeded,
        Operation::WriteBatch,
        ProtocolStage::VLogAppend,
        Some(WriteOutcome::NotCommitted),
        RetryAdvice::DoNotRetry,
    )
}

pub fn capacity_error() -> (error: StorageError)
    ensures
        error@ == capacity_view(),
{
    StorageError::codec_error(
        StorageErrorKind::CapacityExceeded,
        Operation::WriteBatch,
        ProtocolStage::VLogAppend,
        Some(WriteOutcome::NotCommitted),
        RetryAdvice::DoNotRetry,
    )
}

/// A value that has no encoding.
pub open spec fn encode_view() -> ErrorView {
    detached_error(
        StorageErrorKind::InvalidArgument,
        Operation::WriteBatch,
        ProtocolStage::Preflight,
        Some(WriteOutcome::NotCommitted),
        RetryAdvice::FixRequestAndRetrySameInstance,
    )
}

pub fn encode_error() -> (error: StorageError)
    ensures
        error@ == encode_view(),
{
    StorageError::codec_error(
        StorageErrorKind::InvalidArgument,
        Operation::WriteBatch,
        ProtocolStage::Preflight,
        Some(WriteOutcome::NotCommitted),
        RetryAdvice::FixRequestAndRetrySameInstance,
    )
}

/// Bytes of the log that do not decode.
pub open spec fn decode_view(kind: StorageErrorKind) -> ErrorView {
    detached_error(
        kind,
        Operation::Get,
        ProtocolStage::Read,
        None,
        if kind == StorageErrorKind::IncompatibleFormat {
            RetryAdvice::DoNotRetry
        } else {
            RetryAdvice::RestoreOrRepair
        },
    )
}

pub fn decode_error(kind: StorageErrorKind) -> (error: StorageError)
    ensures
        error@ == decode_view(kind),
{
    let retry_advice = if kind == StorageErrorKind::IncompatibleFormat {
        RetryAdvice::DoNotRetry
    } else {
        RetryAdvice::RestoreOrRepair
    };
    StorageError::codec_error(kind, Operation::Get, ProtocolStage::Read, None, retry_advice)
}

/// Of two places in the log that differ, exactly one is before the other, and what is before a
/// place is before everything behind it. A later file is behind all of an earlier one.
pub proof fn law_places_are_in_order(a: VLogPosition, b: VLogPosition, c: VLogPosition)
    ensures
        !position_before(a, a),
        a != b ==> position_before(a, b) != position_before(b, a),
        position_before(a, b) && position_before(b, c) ==> position_before(a, c),
        a.file_id < b.file_id ==> position_before(a, b),
        a.file_id == b.file_id ==> (position_before(a, b) <==> a.offset < b.offset),
{
}

/// Files have numbers of six digits and at most four gibibytes, in whole pages of at most 64
/// kibibytes. A page has room behind the header of its file. The geometry on disk is the largest.
pub proof fn law_geometry_is_bounded(geometry: VLogGeometry, position: VLogPosition)
    ensures
        geometry.valid() <==> 64 < geometry.page_size <= 65_536 && 0 < geometry.max_file_size
            <= 4_294_967_296 && geometry.max_file_size % geometry.page_size == 0
            && geometry.max_file_size / geometry.page_size <= 65_536 && geometry.max_file_id
            <= 999_999,
        position.valid() <==> position.file_id <= 999_999 && position.offset <= 4_294_967_296,
        (VLogGeometry { page_size: 65_536, max_file_size: 4_294_967_296, max_file_id: 999_999 }).valid(),
{
}

/// The end of a page is the first boundary between pages behind an offset.
pub proof fn law_page_ends_at_next_boundary(geometry: VLogGeometry, offset: nat, boundary: int)
    requires
        geometry.valid(),
    ensures
        ({
            let end = geometry.page_end(offset as int);
            &&& end % (geometry.page_size as int) == 0
            &&& offset < end <= offset + geometry.page_size
            &&& geometry.remaining(offset as int) == end - offset
            &&& boundary > offset && boundary % (geometry.page_size as int) == 0 ==> end <= boundary
        }),
{
    let page = geometry.page_size as int;
    let at = offset as int;
    let end = geometry.page_end(at);
    vstd::arithmetic::div_mod::lemma_fundamental_div_mod(at, page);
    assert(end == page * (at / page + 1)) by (nonlinear_arith)
        requires
            end == at - at % page + page,
            at == page * (at / page) + at % page,
    ;
    vstd::arithmetic::div_mod::lemma_mod_multiples_basic(at / page + 1, page);
    assert(page * (at / page + 1) == (at / page + 1) * page) by (nonlinear_arith);
    vstd::arithmetic::div_mod::lemma_mod_bound(at, page);
    if boundary > at && boundary % page == 0 {
        vstd::arithmetic::div_mod::lemma_fundamental_div_mod(boundary, page);
        assert(boundary / page > at / page) by (nonlinear_arith)
            requires
                boundary == page * (boundary / page),
                at == page * (at / page) + at % page,
                0 <= at % page < page,
                boundary > at,
        ;
        assert(page * (boundary / page) >= page * (at / page + 1)) by (nonlinear_arith)
            requires
                boundary / page >= at / page + 1,
                page > 0,
        ;
    }
}

/// A record lies in one page of one file, and behind the headers there: sixteen bytes in each page,
/// and forty-eight more in the first page of a file.
pub proof fn law_record_lies_in_its_page(
    length: nat,
    start: VLogPosition,
    geometry: VLogGeometry,
    at: int,
)
    requires
        geometry.valid(),
        record_fits(length, start, geometry),
        start.offset <= at < start.offset + length,
    ensures
        start.file_id <= geometry.max_file_id,
        64 <= at,
        at % (geometry.page_size as int) >= 16,
        geometry.page_end(at) == geometry.page_end(start.offset as int),
        at / (geometry.page_size as int) == start.offset as int / geometry.page_size as int,
{
    let page = geometry.page_size as int;
    let from = start.offset as int;
    vstd::arithmetic::div_mod::lemma_fundamental_div_mod(from, page);
    vstd::arithmetic::div_mod::lemma_mod_bound(from, page);
    let into = from % page + (at - from);
    assert(at == (from / page) * page + into) by (nonlinear_arith)
        requires
            from == page * (from / page) + from % page,
            into == from % page + (at - from),
    ;
    vstd::arithmetic::div_mod::lemma_fundamental_div_mod_converse(at, page, from / page, into);
    if from < page {
        assert(from % page == from) by {
            vstd::arithmetic::div_mod::lemma_small_mod(from as nat, page as nat);
        }
    }
}

/// A record may begin at every place of a file behind the headers there, and nowhere else.
pub proof fn law_records_begin_behind_headers(position: VLogPosition, geometry: VLogGeometry)
    requires
        geometry.valid(),
    ensures
        geometry.record_may_start(position) <==> position.file_id <= geometry.max_file_id
            && position.offset < geometry.max_file_size && position.offset >= 64
            && position.offset % geometry.page_size >= 16,
{
    if position.offset < geometry.page_size {
        vstd::arithmetic::div_mod::lemma_small_mod(
            position.offset as nat,
            geometry.page_size as nat,
        );
    }
}

/// A record leaves of its page nothing, or enough for the record that closes a page.
pub proof fn law_rest_of_page_can_be_closed(end: VLogPosition, geometry: VLogGeometry)
    requires
        geometry.valid(),
        record_may_end(end, geometry),
    ensures
        end.file_id <= geometry.max_file_id && end.offset <= geometry.max_file_size,
        ({
            let left = (geometry.page_size - end.offset % geometry.page_size) % (
            geometry.page_size as int);
            left == 0 || left >= 43
        }),
{
    let page = geometry.page_size as int;
    let into = end.offset as int % page;
    vstd::arithmetic::div_mod::lemma_mod_bound(end.offset as int, page);
    if into > 0 {
        vstd::arithmetic::div_mod::lemma_small_mod((page - into) as nat, page as nat);
    } else {
        assert(page % page == 0) by {
            vstd::arithmetic::div_mod::lemma_mod_self_0(page);
        }
    }
}

/// What is written goes on where the last chunk ended: in the same file while there is room, and
/// at the start of the next file, while there is one, when the file is full.
pub proof fn law_log_goes_on_at_its_end(chunk: ChunkView, geometry: VLogGeometry)
    requires
        geometry.valid(),
        chunk_fits(chunk, geometry),
    ensures
        ({
            let end = end_of_chunk(chunk);
            &&& end.file_id == chunk.position.file_id
            &&& end.offset == chunk.position.offset + chunk.bytes.len()
            &&& end.valid()
            &&& next_position(end, geometry) is None <==> end.offset == geometry.max_file_size
                && end.file_id == geometry.max_file_id
            &&& next_position(end, geometry) matches Some(next) ==> {
                &&& next.file_id <= geometry.max_file_id && next.offset < geometry.max_file_size
                &&& next == end || (position_before(end, next) && next.file_id == end.file_id + 1
                    && next.offset == 0 && end.offset == geometry.max_file_size)
            }
        }),
{
}

/// A chunk that fits lies in its file to its last byte.
pub proof fn law_chunk_lies_in_its_file(chunk: ChunkView, geometry: VLogGeometry)
    ensures
        chunk_fits(chunk, geometry) <==> chunk.position.file_id <= geometry.max_file_id && forall|
            i: int,
        |
            0 <= i <= chunk.bytes.len() ==> #[trigger] (chunk.position.offset + i)
                <= geometry.max_file_size,
{
    if chunk.position.offset + chunk.bytes.len() > geometry.max_file_size {
        let last = chunk.bytes.len() as int;
        assert(!(chunk.position.offset + last <= geometry.max_file_size));
    }
}

/// What is wrong with the log is told as it is. Of something that was to be written, it is said
/// that it is not committed. It is to be tried again as it is only where memory was exhausted, and
/// a request is to be mended only where something was to be written.
pub proof fn law_errors_of_the_log(kind: StorageErrorKind)
    ensures
        invalid_vlog_view(kind).kind == kind && decode_view(kind).kind == kind,
        capacity_view().kind == StorageErrorKind::CapacityExceeded,
        encode_view().kind == StorageErrorKind::InvalidArgument,
        invalid_vlog_view(kind).write_outcome == Some(WriteOutcome::NotCommitted),
        capacity_view().write_outcome == Some(WriteOutcome::NotCommitted),
        encode_view().write_outcome == Some(WriteOutcome::NotCommitted),
        decode_view(kind).write_outcome is None,
        invalid_vlog_view(kind).operation == Operation::WriteBatch,
        capacity_view().operation == Operation::WriteBatch,
        encode_view().operation == Operation::WriteBatch,
        decode_view(kind).operation == Operation::Get,
        invalid_vlog_view(kind).protocol_stage == ProtocolStage::VLogAppend,
        capacity_view().protocol_stage == ProtocolStage::VLogAppend,
        encode_view().protocol_stage == ProtocolStage::Preflight,
        decode_view(kind).protocol_stage == ProtocolStage::Read,
        invalid_vlog_view(kind).retry_advice == RetryAdvice::RetrySameInstance <==> kind
            == StorageErrorKind::ResourceExhausted,
        invalid_vlog_view(kind).retry_advice == RetryAdvice::DoNotRetry <==> kind
            == StorageErrorKind::IncompatibleFormat,
        invalid_vlog_view(kind).retry_advice != RetryAdvice::RestoreOrRepair,
        invalid_vlog_view(StorageErrorKind::InvalidArgument).retry_advice
            == encode_view().retry_advice,
        encode_view().retry_advice == RetryAdvice::FixRequestAndRetrySameInstance,
        capacity_view().retry_advice == RetryAdvice::DoNotRetry,
        decode_view(kind).retry_advice == RetryAdvice::DoNotRetry <==> kind
            == StorageErrorKind::IncompatibleFormat,
        kind != StorageErrorKind::IncompatibleFormat ==> decode_view(kind).retry_advice
            == RetryAdvice::RestoreOrRepair,
{
}

} // verus!
