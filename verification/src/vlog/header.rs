//! Page headers, file headers and the headers of records.

use vstd::prelude::*;

use crate::bytes::{
    append_bytes, append_le, array_16, le_bytes, lemma_byte_limits, lemma_fixed_widths,
    lemma_le_bytes_len, lemma_le_bytes_of_value, lemma_le_value_bound, lemma_le_value_of_bytes,
    lemma_written_number, read_u16, read_u32, read_u64, u16_at, u32_at, u64_at, zeros,
};
use crate::checksum::{checksum, crc32c_of};
use crate::error::{ErrorView, Result, StorageError, StorageErrorKind};
use crate::vlog::geometry::{
    decode_error, decode_view, invalid_vlog_error, invalid_vlog_view, MAX_VLOG_FILE_ID,
    MAX_VLOG_FILE_SIZE, VLOG_PAGE_SIZE,
};

verus! {

pub const PAGE_HEADER_ENCODED_LEN: usize = 16;

pub const FILE_HEADER_ENCODED_LEN: usize = 48;

pub const RECORD_HEADER_ENCODED_LEN: usize = 39;

/// `RKVP`
pub const PAGE_HEADER_MAGIC: u32 = 0x5056_4b52;

/// `RKVLOG00`
pub const FILE_HEADER_MAGIC: u64 = 0x3030_474f_4c56_4b52;

/// `RKVR`
pub const RECORD_HEADER_MAGIC: u32 = 0x5256_4b52;

pub const VLOG_FORMAT_VERSION: u16 = 0;

pub const FILE_FORMAT_VERSION: u32 = 0;

/// The last page number that a file can have.
pub const MAX_PAGE_NO: u32 = 65_535;

/// A body followed by its checksum.
pub open spec fn sealed(body: Seq<u8>) -> Seq<u8> {
    body + le_bytes(crc32c_of(body) as nat, 4)
}

/// A byte string is some body of `covered` bytes, followed by the checksum of that body.
pub open spec fn is_sealed(b: Seq<u8>, covered: int) -> bool {
    &&& b.len() == covered + 4
    &&& u32_at(b, covered) == crc32c_of(b.take(covered))
}

/// Sixteen bytes that are not all zero.
pub open spec fn is_identifier(uuid: Seq<u8>) -> bool {
    uuid.len() == 16 && uuid != zeros(16)
}

pub proof fn lemma_sealed(body: Seq<u8>)
    ensures
        is_sealed(sealed(body), body.len() as int),
        sealed(body).take(body.len() as int) == body,
        sealed(body).len() == body.len() + 4,
{
    lemma_byte_limits();
    lemma_le_bytes_len(crc32c_of(body) as nat, 4);
    let b = sealed(body);
    assert(b.take(body.len() as int) =~= body);
    assert(b.subrange(body.len() as int, body.len() as int + 4) =~= le_bytes(crc32c_of(body) as nat, 4));
    lemma_written_number(b, body.len() as int, crc32c_of(body) as nat, 4);
}

pub proof fn lemma_unsealed(b: Seq<u8>, covered: int)
    requires
        0 <= covered,
        is_sealed(b, covered),
    ensures
        b == sealed(b.take(covered)),
{
    lemma_fixed_widths(b, covered);
    assert(b =~= b.take(covered) + b.subrange(covered, covered + 4));
}

/// Appends the checksum of everything that a buffer holds.
pub fn append_checksum(out: &mut Vec<u8>)
    ensures
        final(out)@ == sealed(old(out)@),
{
    let value: u32 = checksum(out.as_slice());
    append_le(out, value as u64, 4);
}

/// Whether the bytes before an offset have their checksum at that offset.
pub fn checksum_matches(bytes: &[u8], covered: usize) -> (matches: bool)
    requires
        covered + 4 <= bytes@.len(),
    ensures
        matches == (u32_at(bytes@, covered as int) == crc32c_of(bytes@.take(covered as int))),
{
    let length: usize = bytes.len();
    let body = vstd::slice::slice_subrange(bytes, 0, covered);
    proof {
        assert(bytes@.subrange(0, covered as int) =~= bytes@.take(covered as int));
    }
    checksum(body) == read_u32(bytes, covered)
}

pub fn is_nonzero_uuid(uuid: &[u8; 16]) -> (nonzero: bool)
    ensures
        nonzero == is_identifier(uuid@),
{
    let mut i: usize = 0;
    while i < 16
        invariant
            i <= 16,
            forall|k: int| 0 <= k < i ==> uuid@[k] == 0,
        decreases 16 - i,
    {
        if uuid[i] != 0 {
            proof {
                assert(uuid@[i as int] != zeros(16)[i as int]);
            }
            return true;
        }
        i = i + 1;
    }
    proof {
        assert(uuid@ =~= zeros(16));
    }
    false
}

pub fn same_uuid(left: &[u8; 16], right: &[u8; 16]) -> (same: bool)
    ensures
        same == (left@ == right@),
{
    let mut i: usize = 0;
    while i < 16
        invariant
            i <= 16,
            forall|k: int| 0 <= k < i ==> left@[k] == right@[k],
        decreases 16 - i,
    {
        if left[i] != right[i] {
            return false;
        }
        i = i + 1;
    }
    proof {
        assert(left@ =~= right@);
    }
    true
}

pub fn append_uuid(out: &mut Vec<u8>, uuid: &[u8; 16])
    ensures
        final(out)@ == old(out)@ + uuid@,
{
    append_bytes(out, uuid.as_slice());
}

/// What a write answers to a header that does not pass its own check.
pub open spec fn refused_for_encode(kind: StorageErrorKind) -> ErrorView {
    invalid_vlog_view(
        if kind == StorageErrorKind::IncompatibleFormat {
            StorageErrorKind::IncompatibleFormat
        } else {
            StorageErrorKind::InvalidArgument
        },
    )
}

fn encode_refusal(error: StorageError) -> (refusal: StorageError)
    ensures
        refusal@ == refused_for_encode(error@.kind),
{
    if error.kind == StorageErrorKind::IncompatibleFormat {
        invalid_vlog_error(StorageErrorKind::IncompatibleFormat)
    } else {
        invalid_vlog_error(StorageErrorKind::InvalidArgument)
    }
}

#[derive(Clone, Copy, Debug, PartialEq, Eq, Structural)]
pub struct PageHeader {
    pub file_id: u32,
    pub page_no: u32,
}

impl PageHeader {
    pub open spec fn valid(self) -> bool {
        self.file_id <= MAX_VLOG_FILE_ID && self.page_no <= MAX_PAGE_NO
    }

    pub open spec fn encoded(self) -> Seq<u8> {
        sealed(
            le_bytes(PAGE_HEADER_MAGIC as nat, 4) + le_bytes(self.file_id as nat, 4) + le_bytes(
                self.page_no as nat,
                4,
            ),
        )
    }

    pub fn encode(self) -> (result: Result<Vec<u8>>)
        ensures
            match result {
                Ok(encoded) => self.valid() && encoded@ == self.encoded(),
                Err(error) => !self.valid() && error@ == invalid_vlog_view(
                    StorageErrorKind::InvalidArgument,
                ),
            },
    {
        if self.file_id > MAX_VLOG_FILE_ID || self.page_no > MAX_PAGE_NO {
            return Err(invalid_vlog_error(StorageErrorKind::InvalidArgument));
        }
        let mut out: Vec<u8> = Vec::new();
        append_le(&mut out, PAGE_HEADER_MAGIC as u64, 4);
        append_le(&mut out, self.file_id as u64, 4);
        append_le(&mut out, self.page_no as u64, 4);
        proof {
            assert(out@ =~= le_bytes(PAGE_HEADER_MAGIC as nat, 4) + le_bytes(
                self.file_id as nat,
                4,
            ) + le_bytes(self.page_no as nat, 4));
        }
        append_checksum(&mut out);
        Ok(out)
    }

    pub fn decode(encoded: &[u8]) -> (result: Result<Self>)
        ensures
            match result {
                Ok(header) => header.valid() && encoded@ == header.encoded(),
                Err(error) => error@ == decode_view(StorageErrorKind::Corruption) && forall|
                    header: PageHeader,
                |
                    header.valid() ==> encoded@ != #[trigger] header.encoded(),
            },
    {
        proof {
            assert forall|header: PageHeader| encoded@ == #[trigger] header.encoded() implies {
                &&& is_sealed(encoded@, 12)
                &&& u32_at(encoded@, 0) == PAGE_HEADER_MAGIC
                &&& u32_at(encoded@, 4) == header.file_id
                &&& u32_at(encoded@, 8) == header.page_no
            } by {
                lemma_page_header_layout(header);
            }
        }
        if encoded.len() != PAGE_HEADER_ENCODED_LEN || read_u32(encoded, 0) != PAGE_HEADER_MAGIC
            || !checksum_matches(encoded, 12) {
            return Err(decode_error(StorageErrorKind::Corruption));
        }
        let header = PageHeader { file_id: read_u32(encoded, 4), page_no: read_u32(encoded, 8) };
        if header.file_id > MAX_VLOG_FILE_ID || header.page_no > MAX_PAGE_NO {
            return Err(decode_error(StorageErrorKind::Corruption));
        }
        proof {
            lemma_fixed_widths(encoded@, 0);
            lemma_fixed_widths(encoded@, 4);
            lemma_fixed_widths(encoded@, 8);
            lemma_unsealed(encoded@, 12);
            assert(encoded@.take(12) =~= encoded@.subrange(0, 4) + encoded@.subrange(4, 8)
                + encoded@.subrange(8, 12));
        }
        Ok(header)
    }
}

/// Where the fields of an encoded page header lie. Two headers with the same bytes are equal.
pub proof fn lemma_page_header_layout(header: PageHeader)
    ensures
        header.encoded().len() == PAGE_HEADER_ENCODED_LEN,
        is_sealed(header.encoded(), 12),
        u32_at(header.encoded(), 0) == PAGE_HEADER_MAGIC,
        u32_at(header.encoded(), 4) == header.file_id,
        u32_at(header.encoded(), 8) == header.page_no,
{
    let body = le_bytes(PAGE_HEADER_MAGIC as nat, 4) + le_bytes(header.file_id as nat, 4)
        + le_bytes(header.page_no as nat, 4);
    lemma_byte_limits();
    lemma_le_bytes_len(PAGE_HEADER_MAGIC as nat, 4);
    lemma_le_bytes_len(header.file_id as nat, 4);
    lemma_le_bytes_len(header.page_no as nat, 4);
    lemma_sealed(body);
    let b = header.encoded();
    assert(b.subrange(0, 4) =~= le_bytes(PAGE_HEADER_MAGIC as nat, 4));
    assert(b.subrange(4, 8) =~= le_bytes(header.file_id as nat, 4));
    assert(b.subrange(8, 12) =~= le_bytes(header.page_no as nat, 4));
    lemma_written_number(b, 0, PAGE_HEADER_MAGIC as nat, 4);
    lemma_written_number(b, 4, header.file_id as nat, 4);
    lemma_written_number(b, 8, header.page_no as nat, 4);
}

/// Decoding what a page header encodes to gives the header back.
pub proof fn law_page_header_round_trip(header: PageHeader, decoded: PageHeader)
    requires
        header.valid(),
        decoded.valid(),
        header.encoded() == decoded.encoded(),
    ensures
        header == decoded,
{
    lemma_page_header_layout(header);
    lemma_page_header_layout(decoded);
}

/// What a file header holds before its checksum.
pub open spec fn file_header_body(
    format_version: u32,
    database_uuid: Seq<u8>,
    file_id: u32,
    page_size: u32,
    max_file_size: u64,
) -> Seq<u8> {
    le_bytes(FILE_HEADER_MAGIC as nat, 8) + le_bytes(format_version as nat, 4) + database_uuid
        + le_bytes(file_id as nat, 4) + le_bytes(page_size as nat, 4) + le_bytes(
        max_file_size as nat,
        8,
    )
}

/// The header of a file of a database.
pub open spec fn new_file_header(database_uuid: Seq<u8>, file_id: u32) -> Seq<u8> {
    sealed(
        file_header_body(
            FILE_FORMAT_VERSION,
            database_uuid,
            file_id,
            VLOG_PAGE_SIZE as u32,
            MAX_VLOG_FILE_SIZE,
        ),
    )
}

#[derive(Clone, Copy, Debug)]
pub struct VLogFileHeader {
    pub format_version: u32,
    pub database_uuid: [u8; 16],
    pub file_id: u32,
    pub page_size: u32,
    pub max_file_size: u64,
}

impl VLogFileHeader {
    /// The header of a file of this format, but for what identifies it.
    pub open spec fn well_formed(self) -> bool {
        &&& is_identifier(self.database_uuid@)
        &&& self.file_id <= MAX_VLOG_FILE_ID
        &&& self.page_size == VLOG_PAGE_SIZE
        &&& self.max_file_size == MAX_VLOG_FILE_SIZE
    }

    pub open spec fn valid(self) -> bool {
        self.format_version == FILE_FORMAT_VERSION && self.well_formed()
    }

    /// Why a header is refused.
    pub open spec fn refusal(self) -> Option<StorageErrorKind> {
        if self.format_version != FILE_FORMAT_VERSION {
            Some(StorageErrorKind::IncompatibleFormat)
        } else if !self.well_formed() {
            Some(StorageErrorKind::Corruption)
        } else {
            None
        }
    }

    pub open spec fn body(self) -> Seq<u8> {
        file_header_body(
            self.format_version,
            self.database_uuid@,
            self.file_id,
            self.page_size,
            self.max_file_size,
        )
    }

    pub open spec fn encoded(self) -> Seq<u8> {
        sealed(self.body())
    }

    pub fn new(database_uuid: [u8; 16], file_id: u32) -> (header: Self)
        ensures
            header.format_version == FILE_FORMAT_VERSION,
            header.database_uuid == database_uuid,
            header.file_id == file_id,
            header.page_size == VLOG_PAGE_SIZE,
            header.max_file_size == MAX_VLOG_FILE_SIZE,
    {
        VLogFileHeader {
            format_version: FILE_FORMAT_VERSION,
            database_uuid,
            file_id,
            page_size: VLOG_PAGE_SIZE as u32,
            max_file_size: MAX_VLOG_FILE_SIZE,
        }
    }

    pub fn encode(self) -> (result: Result<Vec<u8>>)
        ensures
            match result {
                Ok(encoded) => self.refusal() is None && encoded@ == self.encoded(),
                Err(error) => self.refusal() matches Some(kind) && error@ == refused_for_encode(
                    kind,
                ),
            },
    {
        match self.validate() {
            Err(error) => Err(encode_refusal(error)),
            Ok(_) => {
                let mut out: Vec<u8> = Vec::new();
                append_le(&mut out, FILE_HEADER_MAGIC, 8);
                append_le(&mut out, self.format_version as u64, 4);
                append_uuid(&mut out, &self.database_uuid);
                append_le(&mut out, self.file_id as u64, 4);
                append_le(&mut out, self.page_size as u64, 4);
                append_le(&mut out, self.max_file_size, 8);
                proof {
                    assert(out@ =~= self.body());
                }
                append_checksum(&mut out);
                Ok(out)
            },
        }
    }

    pub fn decode(encoded: &[u8]) -> (result: Result<Self>)
        ensures
            match result {
                Ok(header) => header.valid() && encoded@ == header.encoded(),
                Err(error) => {
                    &&& error@ == decode_view(
                        if file_header_of_other_version(encoded@) {
                            StorageErrorKind::IncompatibleFormat
                        } else {
                            StorageErrorKind::Corruption
                        },
                    )
                    &&& forall|header: VLogFileHeader|
                        header.valid() ==> encoded@ != #[trigger] header.encoded()
                },
            },
    {
        proof {
            assert forall|header: VLogFileHeader| encoded@ == #[trigger] header.encoded() implies {
                &&& is_sealed(encoded@, 44)
                &&& u64_at(encoded@, 0) == FILE_HEADER_MAGIC
                &&& u32_at(encoded@, 8) == header.format_version
                &&& encoded@.subrange(12, 28) == header.database_uuid@
                &&& u32_at(encoded@, 28) == header.file_id
                &&& u32_at(encoded@, 32) == header.page_size
                &&& u64_at(encoded@, 36) == header.max_file_size
            } by {
                lemma_file_header_layout(header);
            }
        }
        if encoded.len() != FILE_HEADER_ENCODED_LEN || read_u64(encoded, 0) != FILE_HEADER_MAGIC
            || !checksum_matches(encoded, 44) {
            return Err(decode_error(StorageErrorKind::Corruption));
        }
        let header = VLogFileHeader {
            format_version: read_u32(encoded, 8),
            database_uuid: array_16(encoded, 12),
            file_id: read_u32(encoded, 28),
            page_size: read_u32(encoded, 32),
            max_file_size: read_u64(encoded, 36),
        };
        header.validate()?;
        proof {
            lemma_fixed_widths(encoded@, 0);
            lemma_fixed_widths(encoded@, 8);
            lemma_fixed_widths(encoded@, 28);
            lemma_fixed_widths(encoded@, 32);
            lemma_fixed_widths(encoded@, 36);
            lemma_unsealed(encoded@, 44);
            assert(encoded@.take(44) =~= encoded@.subrange(0, 8) + encoded@.subrange(8, 12)
                + encoded@.subrange(12, 28) + encoded@.subrange(28, 32) + encoded@.subrange(32, 36)
                + encoded@.subrange(36, 44));
        }
        Ok(header)
    }

    pub fn validate(self) -> (result: Result<()>)
        ensures
            match result {
                Ok(_) => self.refusal() is None,
                Err(error) => self.refusal() matches Some(kind) && error@ == decode_view(kind),
            },
    {
        if self.format_version != FILE_FORMAT_VERSION {
            return Err(decode_error(StorageErrorKind::IncompatibleFormat));
        }
        if !is_nonzero_uuid(&self.database_uuid) || self.file_id > MAX_VLOG_FILE_ID
            || self.page_size != VLOG_PAGE_SIZE as u32 || self.max_file_size
            != MAX_VLOG_FILE_SIZE {
            return Err(decode_error(StorageErrorKind::Corruption));
        }
        Ok(())
    }
}

/// A file header with an intact checksum that names another version.
pub open spec fn file_header_of_other_version(b: Seq<u8>) -> bool {
    is_sealed(b, 44) && u64_at(b, 0) == FILE_HEADER_MAGIC && u32_at(b, 8) != FILE_FORMAT_VERSION
}

/// Where the fields of an encoded file header lie.
pub proof fn lemma_file_header_layout(header: VLogFileHeader)
    ensures
        header.encoded().len() == FILE_HEADER_ENCODED_LEN,
        is_sealed(header.encoded(), 44),
        u64_at(header.encoded(), 0) == FILE_HEADER_MAGIC,
        u32_at(header.encoded(), 8) == header.format_version,
        header.encoded().subrange(12, 28) == header.database_uuid@,
        u32_at(header.encoded(), 28) == header.file_id,
        u32_at(header.encoded(), 32) == header.page_size,
        u64_at(header.encoded(), 36) == header.max_file_size,
{
    lemma_byte_limits();
    lemma_le_bytes_len(FILE_HEADER_MAGIC as nat, 8);
    lemma_le_bytes_len(header.format_version as nat, 4);
    lemma_le_bytes_len(header.file_id as nat, 4);
    lemma_le_bytes_len(header.page_size as nat, 4);
    lemma_le_bytes_len(header.max_file_size as nat, 8);
    lemma_sealed(header.body());
    let b = header.encoded();
    assert(b.subrange(0, 8) =~= le_bytes(FILE_HEADER_MAGIC as nat, 8));
    assert(b.subrange(8, 12) =~= le_bytes(header.format_version as nat, 4));
    assert(b.subrange(12, 28) =~= header.database_uuid@);
    assert(b.subrange(28, 32) =~= le_bytes(header.file_id as nat, 4));
    assert(b.subrange(32, 36) =~= le_bytes(header.page_size as nat, 4));
    assert(b.subrange(36, 44) =~= le_bytes(header.max_file_size as nat, 8));
    lemma_written_number(b, 0, FILE_HEADER_MAGIC as nat, 8);
    lemma_written_number(b, 8, header.format_version as nat, 4);
    lemma_written_number(b, 28, header.file_id as nat, 4);
    lemma_written_number(b, 32, header.page_size as nat, 4);
    lemma_written_number(b, 36, header.max_file_size as nat, 8);
}

/// Decoding what a file header encodes to gives its fields back.
pub proof fn law_file_header_round_trip(header: VLogFileHeader, decoded: VLogFileHeader)
    requires
        header.encoded() == decoded.encoded(),
    ensures
        header.format_version == decoded.format_version,
        header.database_uuid@ == decoded.database_uuid@,
        header.file_id == decoded.file_id,
        header.page_size == decoded.page_size,
        header.max_file_size == decoded.max_file_size,
{
    lemma_file_header_layout(header);
    lemma_file_header_layout(decoded);
}

#[derive(Clone, Copy, Debug, PartialEq, Eq, Structural)]
pub enum RecordType {
    TxBegin,
    KvRecord,
    DeleteRecord,
    TxPreparedEnd,
    PageEnd,
}

impl RecordType {
    /// The byte that stands for a record type.
    pub open spec fn code(self) -> u8 {
        match self {
            RecordType::TxBegin => 1,
            RecordType::KvRecord => 2,
            RecordType::DeleteRecord => 3,
            RecordType::TxPreparedEnd => 4,
            RecordType::PageEnd => 5,
        }
    }

    pub fn encode(self) -> (code: u8)
        ensures
            code == self.code(),
    {
        match self {
            RecordType::TxBegin => 1,
            RecordType::KvRecord => 2,
            RecordType::DeleteRecord => 3,
            RecordType::TxPreparedEnd => 4,
            RecordType::PageEnd => 5,
        }
    }

    pub fn decode(encoded: u8) -> (result: Result<Self>)
        ensures
            match result {
                Ok(record_type) => record_type.code() == encoded,
                Err(error) => !(1 <= encoded <= 5) && error@ == decode_view(
                    StorageErrorKind::Corruption,
                ),
            },
    {
        match encoded {
            1 => Ok(RecordType::TxBegin),
            2 => Ok(RecordType::KvRecord),
            3 => Ok(RecordType::DeleteRecord),
            4 => Ok(RecordType::TxPreparedEnd),
            5 => Ok(RecordType::PageEnd),
            _ => Err(decode_error(StorageErrorKind::Corruption)),
        }
    }
}

/// The head of every record: its type, its length and the transaction that it belongs to.
#[derive(Clone, Copy, Debug)]
pub struct RecordHeader {
    pub format_version: u16,
    pub record_type: RecordType,
    pub encoded_len: u32,
    pub commit_seq: u64,
    pub tx_uuid: [u8; 16],
}

/// The identity of a transaction: a positive sequence number and an identifier.
pub open spec fn is_transaction(commit_seq: u64, tx_uuid: Seq<u8>) -> bool {
    commit_seq != 0 && is_identifier(tx_uuid)
}

/// The bytes of a record header.
pub open spec fn record_header_bytes(
    format_version: u16,
    record_type: RecordType,
    encoded_len: u32,
    commit_seq: u64,
    tx_uuid: Seq<u8>,
) -> Seq<u8> {
    sealed(
        le_bytes(RECORD_HEADER_MAGIC as nat, 4) + le_bytes(format_version as nat, 2) + le_bytes(
            record_type.code() as nat,
            1,
        ) + le_bytes(encoded_len as nat, 4) + le_bytes(commit_seq as nat, 8) + tx_uuid,
    )
}

impl RecordHeader {
    pub open spec fn refusal(self) -> Option<StorageErrorKind> {
        if self.format_version != VLOG_FORMAT_VERSION {
            Some(StorageErrorKind::IncompatibleFormat)
        } else if !is_transaction(self.commit_seq, self.tx_uuid@) {
            Some(StorageErrorKind::Corruption)
        } else {
            None
        }
    }

    pub open spec fn valid(self) -> bool {
        self.format_version == VLOG_FORMAT_VERSION && is_transaction(self.commit_seq, self.tx_uuid@)
    }

    pub open spec fn encoded(self) -> Seq<u8> {
        record_header_bytes(
            self.format_version,
            self.record_type,
            self.encoded_len,
            self.commit_seq,
            self.tx_uuid@,
        )
    }

    pub fn new(record_type: RecordType, encoded_len: u32, commit_seq: u64, tx_uuid: [u8; 16]) -> (header:
        Self)
        ensures
            header == (RecordHeader {
                format_version: VLOG_FORMAT_VERSION,
                record_type,
                encoded_len,
                commit_seq,
                tx_uuid,
            }),
    {
        RecordHeader {
            format_version: VLOG_FORMAT_VERSION,
            record_type,
            encoded_len,
            commit_seq,
            tx_uuid,
        }
    }

    pub fn encode(self) -> (result: Result<Vec<u8>>)
        ensures
            match result {
                Ok(encoded) => self.refusal() is None && encoded@ == self.encoded(),
                Err(error) => self.refusal() matches Some(kind) && error@ == refused_for_encode(
                    kind,
                ),
            },
    {
        match self.validate() {
            Err(error) => Err(encode_refusal(error)),
            Ok(_) => {
                let mut out: Vec<u8> = Vec::new();
                self.append_to(&mut out);
                Ok(out)
            },
        }
    }

    /// Fills an empty buffer with the encoded header.
    pub fn append_to(self, out: &mut Vec<u8>)
        requires
            old(out)@.len() == 0,
        ensures
            final(out)@ == self.encoded(),
    {
        append_le(out, RECORD_HEADER_MAGIC as u64, 4);
        append_le(out, self.format_version as u64, 2);
        append_le(out, self.record_type.encode() as u64, 1);
        append_le(out, self.encoded_len as u64, 4);
        append_le(out, self.commit_seq, 8);
        append_uuid(out, &self.tx_uuid);
        proof {
            assert(out@ =~= le_bytes(RECORD_HEADER_MAGIC as nat, 4) + le_bytes(
                self.format_version as nat,
                2,
            ) + le_bytes(self.record_type.code() as nat, 1) + le_bytes(self.encoded_len as nat, 4)
                + le_bytes(self.commit_seq as nat, 8) + self.tx_uuid@);
        }
        append_checksum(out);
    }

    /// Decodes the header at the front of a record.
    pub fn decode(encoded: &[u8]) -> (result: Result<Self>)
        ensures
            match result {
                Ok(header) => header.valid() && encoded@.len() >= RECORD_HEADER_ENCODED_LEN
                    && encoded@.take(RECORD_HEADER_ENCODED_LEN as int) == header.encoded(),
                Err(error) => {
                    &&& error@ == decode_view(record_header_error(encoded@))
                    &&& forall|t: RecordType, l: u32, c: u64, u: Seq<u8>|
                        is_transaction(c, u) && encoded@.len() >= RECORD_HEADER_ENCODED_LEN
                            ==> encoded@.take(RECORD_HEADER_ENCODED_LEN as int)
                            != #[trigger] record_header_bytes(VLOG_FORMAT_VERSION, t, l, c, u)
                },
            },
    {
        let ghost b = encoded@.take(RECORD_HEADER_ENCODED_LEN as int);
        if encoded.len() < RECORD_HEADER_ENCODED_LEN {
            return Err(decode_error(StorageErrorKind::Corruption));
        }
        proof {
            assert forall|t: RecordType, l: u32, c: u64, u: Seq<u8>|
                u.len() == 16 && b == #[trigger] record_header_bytes(
                    VLOG_FORMAT_VERSION,
                    t,
                    l,
                    c,
                    u,
                ) implies {
                &&& is_sealed(b, 35)
                &&& u32_at(b, 0) == RECORD_HEADER_MAGIC
                &&& u16_at(b, 4) == VLOG_FORMAT_VERSION
                &&& b[6] == t.code()
                &&& u32_at(b, 7) == l
                &&& u64_at(b, 11) == c
                &&& b.subrange(19, 35) == u
            } by {
                lemma_record_header_layout(VLOG_FORMAT_VERSION, t, l, c, u);
            }
        }
        let front = vstd::slice::slice_subrange(encoded, 0, RECORD_HEADER_ENCODED_LEN);
        proof {
            assert(front@ =~= b);
        }
        if read_u32(front, 0) != RECORD_HEADER_MAGIC || !checksum_matches(front, 35) {
            return Err(decode_error(StorageErrorKind::Corruption));
        }
        let format_version: u16 = read_u16(front, 4);
        if format_version != VLOG_FORMAT_VERSION {
            return Err(decode_error(StorageErrorKind::IncompatibleFormat));
        }
        let header = RecordHeader {
            format_version,
            record_type: RecordType::decode(front[6])?,
            encoded_len: read_u32(front, 7),
            commit_seq: read_u64(front, 11),
            tx_uuid: array_16(front, 19),
        };
        header.validate()?;
        proof {
            lemma_fixed_widths(b, 0);
            lemma_fixed_widths(b, 4);
            lemma_fixed_widths(b, 7);
            lemma_fixed_widths(b, 11);
            lemma_unsealed(b, 35);
            lemma_single_byte(b[6]);
            assert(b.subrange(6, 7) =~= seq![b[6]]);
            assert(b.take(35) =~= b.subrange(0, 4) + b.subrange(4, 6) + b.subrange(6, 7)
                + b.subrange(7, 11) + b.subrange(11, 19) + b.subrange(19, 35));
        }
        Ok(header)
    }

    pub fn validate(self) -> (result: Result<()>)
        ensures
            match result {
                Ok(_) => self.refusal() is None,
                Err(error) => self.refusal() matches Some(kind) && error@ == decode_view(kind),
            },
    {
        if self.format_version != VLOG_FORMAT_VERSION {
            return Err(decode_error(StorageErrorKind::IncompatibleFormat));
        }
        validate_identity(self.commit_seq, &self.tx_uuid)
    }
}

/// The kind of error that bytes without a valid record header at their front decode to.
pub open spec fn record_header_error(encoded: Seq<u8>) -> StorageErrorKind {
    let b = encoded.take(RECORD_HEADER_ENCODED_LEN as int);
    if encoded.len() >= RECORD_HEADER_ENCODED_LEN && u32_at(b, 0) == RECORD_HEADER_MAGIC
        && is_sealed(b, 35) && u16_at(b, 4) != VLOG_FORMAT_VERSION {
        StorageErrorKind::IncompatibleFormat
    } else {
        StorageErrorKind::Corruption
    }
}

pub proof fn lemma_single_byte(x: u8)
    ensures
        le_bytes(x as nat, 1) == seq![x],
{
    reveal_with_fuel(le_bytes, 2);
    assert(le_bytes(x as nat, 1) =~= seq![x]);
}

/// Where the fields of an encoded record header lie.
pub proof fn lemma_record_header_layout(
    format_version: u16,
    record_type: RecordType,
    encoded_len: u32,
    commit_seq: u64,
    tx_uuid: Seq<u8>,
)
    requires
        tx_uuid.len() == 16,
    ensures
        ({
            let b = record_header_bytes(
                format_version,
                record_type,
                encoded_len,
                commit_seq,
                tx_uuid,
            );
            &&& b.len() == RECORD_HEADER_ENCODED_LEN
            &&& is_sealed(b, 35)
            &&& u32_at(b, 0) == RECORD_HEADER_MAGIC
            &&& u16_at(b, 4) == format_version
            &&& b[6] == record_type.code()
            &&& u32_at(b, 7) == encoded_len
            &&& u64_at(b, 11) == commit_seq
            &&& b.subrange(19, 35) == tx_uuid
        }),
{
    lemma_byte_limits();
    lemma_le_bytes_len(RECORD_HEADER_MAGIC as nat, 4);
    lemma_le_bytes_len(format_version as nat, 2);
    lemma_single_byte(record_type.code());
    lemma_le_bytes_len(encoded_len as nat, 4);
    lemma_le_bytes_len(commit_seq as nat, 8);
    let body = le_bytes(RECORD_HEADER_MAGIC as nat, 4) + le_bytes(format_version as nat, 2)
        + le_bytes(record_type.code() as nat, 1) + le_bytes(encoded_len as nat, 4) + le_bytes(
        commit_seq as nat,
        8,
    ) + tx_uuid;
    lemma_sealed(body);
    let b = record_header_bytes(format_version, record_type, encoded_len, commit_seq, tx_uuid);
    assert(b.subrange(0, 4) =~= le_bytes(RECORD_HEADER_MAGIC as nat, 4));
    assert(b.subrange(4, 6) =~= le_bytes(format_version as nat, 2));
    assert(b.subrange(6, 7) =~= le_bytes(record_type.code() as nat, 1));
    assert(b[6] == b.subrange(6, 7)[0]);
    assert(b.subrange(7, 11) =~= le_bytes(encoded_len as nat, 4));
    assert(b.subrange(11, 19) =~= le_bytes(commit_seq as nat, 8));
    assert(b.subrange(19, 35) =~= tx_uuid);
    lemma_written_number(b, 0, RECORD_HEADER_MAGIC as nat, 4);
    lemma_written_number(b, 4, format_version as nat, 2);
    lemma_written_number(b, 7, encoded_len as nat, 4);
    lemma_written_number(b, 11, commit_seq as nat, 8);
}

/// Decoding what a record header encodes to gives its fields back.
pub proof fn law_record_header_round_trip(header: RecordHeader, decoded: RecordHeader)
    requires
        header.encoded() == decoded.encoded(),
    ensures
        header.format_version == decoded.format_version,
        header.record_type == decoded.record_type,
        header.encoded_len == decoded.encoded_len,
        header.commit_seq == decoded.commit_seq,
        header.tx_uuid@ == decoded.tx_uuid@,
{
    lemma_record_header_layout(
        header.format_version,
        header.record_type,
        header.encoded_len,
        header.commit_seq,
        header.tx_uuid@,
    );
    lemma_record_header_layout(
        decoded.format_version,
        decoded.record_type,
        decoded.encoded_len,
        decoded.commit_seq,
        decoded.tx_uuid@,
    );
}

pub fn validate_identity(commit_seq: u64, tx_uuid: &[u8; 16]) -> (result: Result<()>)
    ensures
        match result {
            Ok(_) => is_transaction(commit_seq, tx_uuid@),
            Err(error) => !is_transaction(commit_seq, tx_uuid@) && error@ == decode_view(
                StorageErrorKind::Corruption,
            ),
        },
{
    if commit_seq == 0 || !is_nonzero_uuid(tx_uuid) {
        return Err(decode_error(StorageErrorKind::Corruption));
    }
    Ok(())
}

/// An identifier has sixteen bytes, one of which is not zero. A transaction has one, and a number
/// that is not zero.
pub proof fn law_identifier_is_not_zero(uuid: Seq<u8>, commit_seq: u64)
    ensures
        is_identifier(uuid) <==> uuid.len() == 16 && exists|i: int|
            0 <= i < 16 && #[trigger] uuid[i] != 0,
        is_transaction(commit_seq, uuid) <==> commit_seq > 0 && is_identifier(uuid),
{
    if uuid.len() == 16 && forall|i: int| 0 <= i < 16 ==> #[trigger] uuid[i] == 0 {
        assert(uuid =~= zeros(16));
    }
    if exists|i: int| 0 <= i < 16 && #[trigger] uuid[i] != 0 {
        let i = choose|i: int| 0 <= i < 16 && #[trigger] uuid[i] != 0;
        assert(zeros(16)[i] == 0);
    }
}

/// Every page of every file can have a header, and every file of a database one that says so. A
/// header of another version is told from one that is damaged.
pub proof fn law_headers_of_every_file(
    page: PageHeader,
    file: VLogFileHeader,
    record: RecordHeader,
    kind: StorageErrorKind,
)
    ensures
        page.valid() <==> page.file_id <= 999_999 && page.page_no <= 65_535,
        file.valid() <==> file.format_version == 0 && is_identifier(file.database_uuid@)
            && file.file_id <= 999_999 && file.page_size == 65_536 && file.max_file_size
            == 4_294_967_296,
        file.valid() <==> file.refusal() is None,
        file.refusal() == Some(StorageErrorKind::IncompatibleFormat) <==> file.format_version != 0,
        file.refusal() is Some ==> file.refusal() == Some(StorageErrorKind::IncompatibleFormat)
            || file.refusal() == Some(StorageErrorKind::Corruption),
        record.valid() <==> record.format_version == 0 && record.commit_seq > 0 && is_identifier(
            record.tx_uuid@,
        ),
        record.valid() <==> record.refusal() is None,
        record.refusal() == Some(StorageErrorKind::IncompatibleFormat) <==> record.format_version
            != 0,
        record.refusal() is Some ==> record.refusal() == Some(StorageErrorKind::IncompatibleFormat)
            || record.refusal() == Some(StorageErrorKind::Corruption),
        refused_for_encode(kind).kind == StorageErrorKind::IncompatibleFormat <==> kind
            == StorageErrorKind::IncompatibleFormat,
        refused_for_encode(kind).kind == StorageErrorKind::InvalidArgument <==> kind
            != StorageErrorKind::IncompatibleFormat,
{
}

/// A checksum is behind what it covers, and in the four last bytes.
pub proof fn law_seal_covers_what_precedes_it(b: Seq<u8>, covered: int)
    requires
        covered >= 0,
    ensures
        is_sealed(b, covered) ==> b.len() == covered + 4,
        is_sealed(b, covered) <==> b.len() == covered + 4 && b == sealed(b.take(covered)),
{
    let sum = crc32c_of(b.take(covered));
    lemma_byte_limits();
    lemma_le_bytes_len(sum as nat, 4);
    if b.len() == covered + 4 {
        assert(b == b.take(covered) + b.subrange(covered, covered + 4));
        if is_sealed(b, covered) {
            lemma_le_bytes_of_value(b.subrange(covered, covered + 4));
            lemma_le_value_bound(b.subrange(covered, covered + 4));
            assert(b == sealed(b.take(covered)));
        }
        if b == sealed(b.take(covered)) {
            assert(b.subrange(covered, covered + 4) == le_bytes(sum as nat, 4));
            lemma_le_value_of_bytes(sum as nat, 4);
        }
    }
}

} // verus!
