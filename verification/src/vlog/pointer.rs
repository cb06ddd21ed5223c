//! Value pointers: where the record of a value lies in the log.

use vstd::prelude::*;

use crate::bytes::{
    append_le, le_bytes, lemma_byte_limits, lemma_fixed_widths, lemma_le_bytes_len,
    lemma_written_number, read_u16, read_u32, u16_at, u32_at,
};
use crate::error::{Result, StorageErrorKind};
use crate::vlog::geometry::{
    decode_error, decode_view, encode_error, encode_view, FIRST_PAGE_RECORD_AREA_START,
    MAX_VLOG_FILE_ID, MAX_VLOG_FILE_SIZE, OTHER_PAGE_RECORD_AREA_OFFSET, VLOG_PAGE_SIZE,
};

verus! {

pub const VALUE_POINTER_FORMAT_VERSION: u16 = 0;

pub const VALUE_POINTER_ENCODED_LEN: usize = 16;

pub const MIN_KV_RECORD_LEN: u32 = 56;

pub const MAX_KV_RECORD_LEN: u32 = 60_055;

/// The largest key with its value that a record holds.
pub const MAX_PAYLOAD_LEN: u32 = 60_000;

/// The length of a key-value record without its key and its value.
pub const KV_RECORD_FIXED_LEN_WITH_CRC: u32 = 55;

pub const RECORD_CRC_LEN: u32 = 4;

#[derive(Clone, Copy, Debug, PartialEq, Eq, Structural)]
pub struct ValuePointer {
    pub format_version: u16,
    pub file_id: u32,
    pub record_offset: u32,
    pub record_len: u32,
    pub value_len: u16,
}

/// What a pointer says of the record that it points to.
#[derive(Clone, Copy, Debug, PartialEq, Eq, Structural)]
pub struct ValuePointerLayout {
    pub key_len: u16,
    pub value_relative_offset: u32,
    pub value_start: u64,
    pub value_end: u64,
    pub record_end: u64,
}

impl ValuePointer {
    /// The lengths leave room for a key of at least one byte, and for no more than a record
    /// holds.
    pub open spec fn well_formed(self) -> bool {
        &&& self.file_id <= MAX_VLOG_FILE_ID
        &&& MIN_KV_RECORD_LEN <= self.record_len <= MAX_KV_RECORD_LEN
        &&& self.record_len - KV_RECORD_FIXED_LEN_WITH_CRC - self.value_len >= 1
    }

    pub open spec fn valid(self) -> bool {
        self.format_version == VALUE_POINTER_FORMAT_VERSION && self.well_formed()
    }

    /// Why a pointer is refused.
    pub open spec fn refusal(self) -> Option<StorageErrorKind> {
        if self.format_version != VALUE_POINTER_FORMAT_VERSION {
            Some(StorageErrorKind::IncompatibleFormat)
        } else if !self.well_formed() {
            Some(StorageErrorKind::Corruption)
        } else {
            None
        }
    }

    pub open spec fn encoded(self) -> Seq<u8> {
        le_bytes(self.format_version as nat, 2) + le_bytes(self.file_id as nat, 4) + le_bytes(
            self.record_offset as nat,
            4,
        ) + le_bytes(self.record_len as nat, 4) + le_bytes(self.value_len as nat, 2)
    }

    /// The layout of the record, read off the lengths: the key ends where the value begins,
    /// and the value ends where the checksum begins.
    pub open spec fn record_layout(self) -> ValuePointerLayout {
        ValuePointerLayout {
            key_len: (self.record_len - KV_RECORD_FIXED_LEN_WITH_CRC - self.value_len) as u16,
            value_relative_offset: (self.record_len - RECORD_CRC_LEN - self.value_len) as u32,
            value_start: (self.record_offset + self.record_len - RECORD_CRC_LEN
                - self.value_len) as u64,
            value_end: (self.record_offset + self.record_len - RECORD_CRC_LEN) as u64,
            record_end: (self.record_offset + self.record_len) as u64,
        }
    }

    /// The record lies inside a file of some size, inside one page and behind its headers.
    pub open spec fn in_bounds(self, file_size: u64) -> bool {
        let start = self.record_offset as int;
        let end = self.record_offset + self.record_len;
        let page_start = start - start % VLOG_PAGE_SIZE as int;
        &&& file_size <= MAX_VLOG_FILE_SIZE
        &&& end <= file_size
        &&& start >= page_start + (if page_start == 0 {
            FIRST_PAGE_RECORD_AREA_START as int
        } else {
            OTHER_PAGE_RECORD_AREA_OFFSET as int
        })
        &&& end <= page_start + VLOG_PAGE_SIZE
    }

    pub fn encode(&self) -> (result: Result<Vec<u8>>)
        ensures
            match result {
                Ok(encoded) => self.valid() && encoded@ == self.encoded(),
                Err(error) => !self.valid() && error@ == encode_view(),
            },
    {
        if self.validate_fields().is_err() {
            return Err(encode_error());
        }
        let mut out: Vec<u8> = Vec::new();
        append_le(&mut out, self.format_version as u64, 2);
        append_le(&mut out, self.file_id as u64, 4);
        append_le(&mut out, self.record_offset as u64, 4);
        append_le(&mut out, self.record_len as u64, 4);
        append_le(&mut out, self.value_len as u64, 2);
        proof {
            assert(out@ =~= self.encoded());
        }
        Ok(out)
    }

    pub fn decode(encoded: &[u8]) -> (result: Result<Self>)
        ensures
            match result {
                Ok(pointer) => pointer.valid() && encoded@ == pointer.encoded(),
                Err(error) => {
                    &&& error@ == decode_view(pointer_error(encoded@))
                    &&& forall|pointer: ValuePointer|
                        pointer.valid() ==> encoded@ != #[trigger] pointer.encoded()
                },
            },
    {
        proof {
            assert forall|pointer: ValuePointer| encoded@ == #[trigger] pointer.encoded() implies {
                &&& encoded@.len() == VALUE_POINTER_ENCODED_LEN
                &&& u16_at(encoded@, 0) == pointer.format_version
                &&& u32_at(encoded@, 2) == pointer.file_id
                &&& u32_at(encoded@, 6) == pointer.record_offset
                &&& u32_at(encoded@, 10) == pointer.record_len
                &&& u16_at(encoded@, 14) == pointer.value_len
            } by {
                lemma_pointer_layout(pointer);
            }
        }
        if encoded.len() != VALUE_POINTER_ENCODED_LEN {
            return Err(decode_error(StorageErrorKind::Corruption));
        }
        let pointer = ValuePointer {
            format_version: read_u16(encoded, 0),
            file_id: read_u32(encoded, 2),
            record_offset: read_u32(encoded, 6),
            record_len: read_u32(encoded, 10),
            value_len: read_u16(encoded, 14),
        };
        pointer.validate_fields()?;
        proof {
            lemma_fixed_widths(encoded@, 0);
            lemma_fixed_widths(encoded@, 2);
            lemma_fixed_widths(encoded@, 6);
            lemma_fixed_widths(encoded@, 10);
            lemma_fixed_widths(encoded@, 14);
            assert(encoded@ =~= encoded@.subrange(0, 2) + encoded@.subrange(2, 6)
                + encoded@.subrange(6, 10) + encoded@.subrange(10, 14) + encoded@.subrange(14, 16));
        }
        Ok(pointer)
    }

    /// The layout of the record, for a pointer whose lengths agree.
    pub fn layout(&self) -> (result: Result<ValuePointerLayout>)
        ensures
            match result {
                Ok(layout) => self.valid() && layout == self.record_layout(),
                Err(error) => self.refusal() matches Some(kind) && error@ == decode_view(kind),
            },
    {
        self.validate_fields()?;
        let value_len: u32 = self.value_len as u32;
        let key_len: u32 = self.record_len - KV_RECORD_FIXED_LEN_WITH_CRC - value_len;
        let record_start: u64 = self.record_offset as u64;
        let record_end: u64 = record_start + self.record_len as u64;
        let value_relative_offset: u32 = self.record_len - RECORD_CRC_LEN - value_len;
        Ok(
            ValuePointerLayout {
                key_len: key_len as u16,
                value_relative_offset,
                value_start: record_start + value_relative_offset as u64,
                value_end: record_end - RECORD_CRC_LEN as u64,
                record_end,
            },
        )
    }

    /// The layout of the record, for a pointer into a file of some size.
    pub fn validate_file_bounds(&self, file_st_size: u64) -> (result: Result<ValuePointerLayout>)
        ensures
            match result {
                Ok(layout) => self.valid() && self.in_bounds(file_st_size) && layout
                    == self.record_layout(),
                Err(error) => {
                    ||| self.refusal() matches Some(kind) && error@ == decode_view(kind)
                    ||| self.valid() && !self.in_bounds(file_st_size) && error@ == decode_view(
                        StorageErrorKind::Corruption,
                    )
                },
            },
    {
        let layout = self.layout()?;
        if file_st_size > MAX_VLOG_FILE_SIZE || layout.record_end > file_st_size {
            return Err(decode_error(StorageErrorKind::Corruption));
        }
        let record_start: u64 = self.record_offset as u64;
        let page_start: u64 = record_start - record_start % VLOG_PAGE_SIZE;
        let record_area_start: u64 = if page_start == 0 {
            FIRST_PAGE_RECORD_AREA_START
        } else {
            page_start + OTHER_PAGE_RECORD_AREA_OFFSET
        };
        if record_start < record_area_start || layout.record_end > page_start + VLOG_PAGE_SIZE {
            return Err(decode_error(StorageErrorKind::Corruption));
        }
        Ok(layout)
    }

    pub fn validate_fields(&self) -> (result: Result<()>)
        ensures
            match result {
                Ok(_) => self.refusal() is None,
                Err(error) => self.refusal() matches Some(kind) && error@ == decode_view(kind),
            },
    {
        if self.format_version != VALUE_POINTER_FORMAT_VERSION {
            return Err(decode_error(StorageErrorKind::IncompatibleFormat));
        }
        if self.file_id > MAX_VLOG_FILE_ID || self.record_len < MIN_KV_RECORD_LEN
            || self.record_len > MAX_KV_RECORD_LEN {
            return Err(decode_error(StorageErrorKind::Corruption));
        }
        if self.value_len as u32 >= self.record_len - KV_RECORD_FIXED_LEN_WITH_CRC {
            return Err(decode_error(StorageErrorKind::Corruption));
        }
        Ok(())
    }
}

/// The kind of error that bytes without a valid pointer decode to.
pub open spec fn pointer_error(b: Seq<u8>) -> StorageErrorKind {
    if b.len() == VALUE_POINTER_ENCODED_LEN && u16_at(b, 0) != VALUE_POINTER_FORMAT_VERSION {
        StorageErrorKind::IncompatibleFormat
    } else {
        StorageErrorKind::Corruption
    }
}

/// Where the fields of an encoded pointer lie.
pub proof fn lemma_pointer_layout(pointer: ValuePointer)
    ensures
        pointer.encoded().len() == VALUE_POINTER_ENCODED_LEN,
        u16_at(pointer.encoded(), 0) == pointer.format_version,
        u32_at(pointer.encoded(), 2) == pointer.file_id,
        u32_at(pointer.encoded(), 6) == pointer.record_offset,
        u32_at(pointer.encoded(), 10) == pointer.record_len,
        u16_at(pointer.encoded(), 14) == pointer.value_len,
{
    lemma_byte_limits();
    lemma_le_bytes_len(pointer.format_version as nat, 2);
    lemma_le_bytes_len(pointer.file_id as nat, 4);
    lemma_le_bytes_len(pointer.record_offset as nat, 4);
    lemma_le_bytes_len(pointer.record_len as nat, 4);
    lemma_le_bytes_len(pointer.value_len as nat, 2);
    let b = pointer.encoded();
    assert(b.subrange(0, 2) =~= le_bytes(pointer.format_version as nat, 2));
    assert(b.subrange(2, 6) =~= le_bytes(pointer.file_id as nat, 4));
    assert(b.subrange(6, 10) =~= le_bytes(pointer.record_offset as nat, 4));
    assert(b.subrange(10, 14) =~= le_bytes(pointer.record_len as nat, 4));
    assert(b.subrange(14, 16) =~= le_bytes(pointer.value_len as nat, 2));
    lemma_written_number(b, 0, pointer.format_version as nat, 2);
    lemma_written_number(b, 2, pointer.file_id as nat, 4);
    lemma_written_number(b, 6, pointer.record_offset as nat, 4);
    lemma_written_number(b, 10, pointer.record_len as nat, 4);
    lemma_written_number(b, 14, pointer.value_len as nat, 2);
}

/// Two pointers with the same bytes are equal, so decoding an encoded pointer gives it back.
pub proof fn law_pointer_round_trip(pointer: ValuePointer, decoded: ValuePointer)
    requires
        pointer.encoded() == decoded.encoded(),
    ensures
        pointer == decoded,
{
    lemma_pointer_layout(pointer);
    lemma_pointer_layout(decoded);
}

/// The value that a pointer names lies inside its record, between the key and the checksum.
pub proof fn law_pointer_layout_is_contiguous(pointer: ValuePointer)
    requires
        pointer.valid(),
    ensures
        ({
            let layout = pointer.record_layout();
            &&& layout.key_len >= 1
            &&& layout.value_end - layout.value_start == pointer.value_len
            &&& layout.value_start == pointer.record_offset + layout.value_relative_offset
            &&& layout.value_end + RECORD_CRC_LEN == layout.record_end
            &&& layout.record_end - pointer.record_offset == KV_RECORD_FIXED_LEN_WITH_CRC
                + layout.key_len + pointer.value_len
        }),
{
}

/// A pointer is good for every record that holds a key of at least one byte and a value, together
/// at most sixty thousand bytes, in any file that a log can have. It is refused for its version
/// before anything else.
pub proof fn law_pointers_to_every_record(pointer: ValuePointer, key_len: int)
    ensures
        key_len == pointer.record_len - 55 - pointer.value_len ==> (pointer.valid() <==>
            pointer.format_version == 0 && pointer.file_id <= 999_999 && 1 <= key_len && key_len
            + pointer.value_len <= 60_000),
        pointer.valid() <==> pointer.refusal() is None,
        pointer.refusal() == Some(StorageErrorKind::IncompatibleFormat) <==> pointer.format_version
            != 0,
        pointer.refusal() == Some(StorageErrorKind::Corruption) <==> pointer.format_version == 0
            && !pointer.valid(),
        pointer.valid() ==> ({
            let layout = pointer.record_layout();
            &&& layout.value_relative_offset + pointer.value_len + 4 == pointer.record_len
            &&& layout.value_relative_offset == 51 + layout.key_len
            &&& layout.value_start == pointer.record_offset + layout.value_relative_offset
            &&& layout.value_end - layout.value_start == pointer.value_len
            &&& layout.record_end == layout.value_end + 4
            &&& layout.record_end - pointer.record_offset == pointer.record_len
        }),
{
}

} // verus!
