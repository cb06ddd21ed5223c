//! The file that says which format a database has.

use vstd::prelude::*;

use crate::bytes::{
    append_le, array_16, le_bytes, lemma_byte_limits, lemma_fixed_widths, lemma_le_bytes_len,
    lemma_written_number, read_u32, read_u64, u32_at, u64_at,
};
use crate::error::{
    detached_error, ErrorView, Operation, ProtocolStage, Result, RetryAdvice, StorageError,
    StorageErrorKind,
};
use crate::vlog::header::{append_uuid, is_identifier, is_nonzero_uuid};

verus! {

/// `RUSTKV00`, little-endian.
pub const FORMAT_MAGIC: u64 = 0x3030_564b_5453_5552;

pub const FORMAT_VERSION: u32 = 0;

pub const FORMAT_ENCODED_LEN: usize = 36;

pub const FORMAT_PAGE_SIZE: u32 = 65_536;

pub const FORMAT_MAX_KEY_VALUE_SIZE: u32 = 60_000;

/// What the format file says of a database.
#[derive(Clone, Copy, Debug)]
pub struct FormatMetadataV0 {
    pub format_version: u32,
    pub database_uuid: [u8; 16],
    pub page_size: u32,
    pub max_key_value_size: u32,
}

pub open spec fn format_encode_view() -> ErrorView {
    detached_error(
        StorageErrorKind::InvalidArgument,
        Operation::Open,
        ProtocolStage::Preflight,
        None,
        RetryAdvice::FixRequestAndRetrySameInstance,
    )
}

pub open spec fn format_decode_view(kind: StorageErrorKind) -> ErrorView {
    detached_error(
        kind,
        Operation::Open,
        ProtocolStage::Recovery,
        None,
        if kind == StorageErrorKind::IncompatibleFormat {
            RetryAdvice::DoNotRetry
        } else {
            RetryAdvice::RestoreOrRepair
        },
    )
}

fn encode_error() -> (error: StorageError)
    ensures
        error@ == format_encode_view(),
{
    StorageError::codec_error(
        StorageErrorKind::InvalidArgument,
        Operation::Open,
        ProtocolStage::Preflight,
        None,
        RetryAdvice::FixRequestAndRetrySameInstance,
    )
}

fn decode_error(kind: StorageErrorKind) -> (error: StorageError)
    ensures
        error@ == format_decode_view(kind),
{
    let retry_advice = if kind == StorageErrorKind::IncompatibleFormat {
        RetryAdvice::DoNotRetry
    } else {
        RetryAdvice::RestoreOrRepair
    };
    StorageError::codec_error(kind, Operation::Open, ProtocolStage::Recovery, None, retry_advice)
}

/// A format file of another version.
pub open spec fn format_of_other_version(b: Seq<u8>) -> bool {
    &&& b.len() == FORMAT_ENCODED_LEN
    &&& u64_at(b, 0) == FORMAT_MAGIC
    &&& u32_at(b, 8) != FORMAT_VERSION
}

impl FormatMetadataV0 {
    pub open spec fn valid(self) -> bool {
        &&& self.format_version == FORMAT_VERSION
        &&& is_identifier(self.database_uuid@)
        &&& self.page_size == FORMAT_PAGE_SIZE
        &&& self.max_key_value_size == FORMAT_MAX_KEY_VALUE_SIZE
    }

    pub open spec fn encoded(self) -> Seq<u8> {
        le_bytes(FORMAT_MAGIC as nat, 8) + le_bytes(self.format_version as nat, 4)
            + self.database_uuid@ + le_bytes(self.page_size as nat, 4) + le_bytes(
            self.max_key_value_size as nat,
            4,
        )
    }

    fn is_valid(&self) -> (valid: bool)
        ensures
            valid == self.valid(),
    {
        self.format_version == FORMAT_VERSION && is_nonzero_uuid(&self.database_uuid)
            && self.page_size == FORMAT_PAGE_SIZE && self.max_key_value_size
            == FORMAT_MAX_KEY_VALUE_SIZE
    }

    /// The format of a new database.
    pub fn new(database_uuid: [u8; 16]) -> (result: Result<Self>)
        ensures
            match result {
                Ok(metadata) => metadata.valid() && metadata.database_uuid == database_uuid,
                Err(error) => !is_identifier(database_uuid@) && error@ == format_encode_view(),
            },
    {
        let metadata = FormatMetadataV0 {
            format_version: FORMAT_VERSION,
            database_uuid,
            page_size: FORMAT_PAGE_SIZE,
            max_key_value_size: FORMAT_MAX_KEY_VALUE_SIZE,
        };
        if !metadata.is_valid() {
            return Err(encode_error());
        }
        Ok(metadata)
    }

    pub fn encode(&self) -> (result: Result<Vec<u8>>)
        ensures
            match result {
                Ok(encoded) => self.valid() && encoded@ == self.encoded(),
                Err(error) => !self.valid() && error@ == format_encode_view(),
            },
    {
        if !self.is_valid() {
            return Err(encode_error());
        }
        let mut out: Vec<u8> = Vec::new();
        append_le(&mut out, FORMAT_MAGIC, 8);
        append_le(&mut out, self.format_version as u64, 4);
        append_uuid(&mut out, &self.database_uuid);
        append_le(&mut out, self.page_size as u64, 4);
        append_le(&mut out, self.max_key_value_size as u64, 4);
        proof {
            assert(out@ =~= self.encoded());
        }
        Ok(out)
    }

    pub fn decode(encoded: &[u8]) -> (result: Result<Self>)
        ensures
            match result {
                Ok(metadata) => metadata.valid() && encoded@ == metadata.encoded(),
                Err(error) => {
                    &&& error@ == format_decode_view(
                        if format_of_other_version(encoded@) {
                            StorageErrorKind::IncompatibleFormat
                        } else {
                            StorageErrorKind::Corruption
                        },
                    )
                    &&& forall|metadata: FormatMetadataV0|
                        metadata.valid() ==> encoded@ != #[trigger] metadata.encoded()
                },
            },
    {
        proof {
            assert forall|metadata: FormatMetadataV0|
                encoded@ == #[trigger] metadata.encoded() implies format_fields(
                encoded@,
                metadata,
            ) by {
                lemma_format_layout(metadata);
            }
        }
        if encoded.len() != FORMAT_ENCODED_LEN || read_u64(encoded, 0) != FORMAT_MAGIC {
            return Err(decode_error(StorageErrorKind::Corruption));
        }
        let metadata = FormatMetadataV0 {
            format_version: read_u32(encoded, 8),
            database_uuid: array_16(encoded, 12),
            page_size: read_u32(encoded, 28),
            max_key_value_size: read_u32(encoded, 32),
        };
        if metadata.format_version != FORMAT_VERSION {
            return Err(decode_error(StorageErrorKind::IncompatibleFormat));
        }
        if !metadata.is_valid() {
            return Err(decode_error(StorageErrorKind::Corruption));
        }
        proof {
            lemma_fixed_widths(encoded@, 0);
            lemma_fixed_widths(encoded@, 8);
            lemma_fixed_widths(encoded@, 28);
            lemma_fixed_widths(encoded@, 32);
            assert(encoded@ =~= encoded@.subrange(0, 8) + encoded@.subrange(8, 12)
                + encoded@.subrange(12, 28) + encoded@.subrange(28, 32) + encoded@.subrange(32, 36));
        }
        Ok(metadata)
    }
}

/// The fields of a format file, by their places.
spec fn format_fields(b: Seq<u8>, metadata: FormatMetadataV0) -> bool {
    &&& b.len() == FORMAT_ENCODED_LEN
    &&& u64_at(b, 0) == FORMAT_MAGIC
    &&& u32_at(b, 8) == metadata.format_version
    &&& b.subrange(12, 28) == metadata.database_uuid@
    &&& u32_at(b, 28) == metadata.page_size
    &&& u32_at(b, 32) == metadata.max_key_value_size
}

proof fn lemma_format_layout(metadata: FormatMetadataV0)
    ensures
        format_fields(metadata.encoded(), metadata),
{
    let b = metadata.encoded();
    lemma_byte_limits();
    lemma_le_bytes_len(FORMAT_MAGIC as nat, 8);
    lemma_le_bytes_len(metadata.format_version as nat, 4);
    lemma_le_bytes_len(metadata.page_size as nat, 4);
    lemma_le_bytes_len(metadata.max_key_value_size as nat, 4);
    assert(b.subrange(0, 8) =~= le_bytes(FORMAT_MAGIC as nat, 8));
    assert(b.subrange(8, 12) =~= le_bytes(metadata.format_version as nat, 4));
    assert(b.subrange(12, 28) =~= metadata.database_uuid@);
    assert(b.subrange(28, 32) =~= le_bytes(metadata.page_size as nat, 4));
    assert(b.subrange(32, 36) =~= le_bytes(metadata.max_key_value_size as nat, 4));
    lemma_written_number(b, 0, FORMAT_MAGIC as nat, 8);
    lemma_written_number(b, 8, metadata.format_version as nat, 4);
    lemma_written_number(b, 28, metadata.page_size as nat, 4);
    lemma_written_number(b, 32, metadata.max_key_value_size as nat, 4);
}

/// What is read from a format file is what was written to it.
pub proof fn law_format_round_trip(metadata: FormatMetadataV0, decoded: FormatMetadataV0)
    requires
        metadata.encoded() == decoded.encoded(),
    ensures
        metadata.format_version == decoded.format_version,
        metadata.database_uuid@ == decoded.database_uuid@,
        metadata.page_size == decoded.page_size,
        metadata.max_key_value_size == decoded.max_key_value_size,
{
    lemma_format_layout(metadata);
    lemma_format_layout(decoded);
}

/// A format file is good exactly where it is of the version zero, names its database, and says
/// that pages have sixty-four KiB and keys and values together sixty thousand bytes. One of
/// another version is told apart from a damaged one.
pub proof fn law_format_is_fixed(metadata: FormatMetadataV0, b: Seq<u8>)
    ensures
        metadata.valid() <==> metadata.format_version == 0 && is_identifier(
            metadata.database_uuid@,
        ) && metadata.page_size == 65_536 && metadata.max_key_value_size == 60_000,
        metadata.valid() && b == metadata.encoded() ==> !format_of_other_version(b) && b.len()
            == 36,
{
    if metadata.valid() {
        lemma_format_layout(metadata);
    }
}

/// A format that cannot be written is the fault of the request. One that cannot be read is told as
/// it is: another version is left alone, and anything else is damage.
pub proof fn law_bad_format_is_told_of(kind: StorageErrorKind)
    ensures
        format_encode_view().kind == StorageErrorKind::InvalidArgument,
        format_encode_view().operation == Operation::Open,
        format_encode_view().retry_advice == RetryAdvice::FixRequestAndRetrySameInstance,
        format_decode_view(kind).kind == kind,
        format_decode_view(kind).operation == Operation::Open,
        format_decode_view(kind).protocol_stage == ProtocolStage::Recovery,
        format_decode_view(kind).retry_advice == RetryAdvice::DoNotRetry <==> kind
            == StorageErrorKind::IncompatibleFormat,
        kind != StorageErrorKind::IncompatibleFormat ==> format_decode_view(kind).retry_advice
            == RetryAdvice::RestoreOrRepair,
{
}

/// A format is good with any identifier, in the one version and with the sizes that there are.
pub proof fn law_formats_of_every_database(format: FormatMetadataV0)
    ensures
        format.valid() <==> format.format_version == 0 && is_identifier(format.database_uuid@)
            && format.page_size == 65_536 && format.max_key_value_size == 60_000,
{
}

} // verus!
