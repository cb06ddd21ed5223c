//! The fixed-length records that the system keeps of itself, and the keys of transactions.

use vstd::prelude::*;

use crate::bytes::{
    all_zero, append_be, append_le, append_zeros, array_16, be_bytes, be_value, le_bytes,
    lemma_be_bytes_of_value, lemma_be_round_trip, lemma_byte_limits, lemma_fixed_widths,
    lemma_le_bytes_len, lemma_written_number, read_be_u64, read_u16, read_u32, read_u64, u16_at,
    u32_at, u64_at, zeros,
};
use crate::error::{
    detached_error, ErrorView, Operation, ProtocolStage, Result, RetryAdvice, StorageError,
    StorageErrorKind, WriteOutcome,
};
use crate::vlog::geometry::VLogPosition;
use crate::vlog::header::{
    append_checksum, append_uuid, checksum_matches, is_identifier, is_nonzero_uuid, is_sealed,
    lemma_sealed, lemma_unsealed, same_uuid, sealed,
};

verus! {

/// The number of a commit. Commits count from 1; 0 stands for the empty database.
pub type CommitSeq = u64;

pub const TX_META_KEY_ENCODED_LEN: usize = 11;

pub const TX_MUTATION_KEY_ENCODED_LEN: usize = 19;

pub const DATABASE_IDENTITY_ENCODED_LEN: usize = 32;

pub const HEAD_SEQ_ENCODED_LEN: usize = 8;

pub const DURABLE_FRONTIER_ENCODED_LEN: usize = 31;

pub const RECOVERY_STATE_ENCODED_LEN: usize = 49;

/// `TX`, little-endian.
pub const TX_KEY_MAGIC: u16 = 0x5854;

pub const TX_META_KIND: u8 = 0;

pub const TX_MUTATION_KIND: u8 = 1;

/// `RKDI`, little-endian.
pub const DATABASE_IDENTITY_MAGIC: u32 = 0x4944_4b52;

/// `RKDF`, little-endian.
pub const DURABLE_FRONTIER_MAGIC: u32 = 0x4644_4b52;

/// `RKRS`, little-endian.
pub const RECOVERY_STATE_MAGIC: u32 = 0x5352_4b52;

pub const FORMAT_VERSION: u16 = 0;

pub const DATABASE_FORMAT_VERSION: u32 = 0;

pub const KEYSPACE_LAYOUT_VERSION: u16 = 0;

/// The place where a log ends that is on disk.
#[derive(Clone, Copy, Debug, PartialEq, Eq, Structural)]
pub enum DurableVLogEnd {
    Empty,
    Position(VLogPosition),
}

/// Where the log ends after a commit: it is empty exactly before the first one.
pub open spec fn end_fits(commit_seq: CommitSeq, end: DurableVLogEnd) -> bool {
    match end {
        DurableVLogEnd::Empty => commit_seq == 0,
        DurableVLogEnd::Position(position) => commit_seq != 0 && position.valid(),
    }
}

fn is_fitting_end(commit_seq: CommitSeq, end: DurableVLogEnd) -> (fits: bool)
    ensures
        fits == end_fits(commit_seq, end),
{
    match end {
        DurableVLogEnd::Empty => commit_seq == 0,
        DurableVLogEnd::Position(position) => commit_seq != 0 && position.is_valid(),
    }
}

/// An error about a record that was found.
pub open spec fn metadata_decode_view(kind: StorageErrorKind) -> ErrorView {
    detached_error(
        kind,
        Operation::Recovery,
        ProtocolStage::Recovery,
        None,
        match kind {
            StorageErrorKind::IncompatibleFormat => RetryAdvice::DoNotRetry,
            StorageErrorKind::ResourceExhausted => RetryAdvice::FixEnvironmentAndReopen,
            _ => RetryAdvice::RestoreOrRepair,
        },
    )
}

pub fn metadata_decode_error(kind: StorageErrorKind) -> (error: StorageError)
    ensures
        error@ == metadata_decode_view(kind),
{
    let retry_advice = match kind {
        StorageErrorKind::IncompatibleFormat => RetryAdvice::DoNotRetry,
        StorageErrorKind::ResourceExhausted => RetryAdvice::FixEnvironmentAndReopen,
        _ => RetryAdvice::RestoreOrRepair,
    };
    StorageError::codec_error(
        kind,
        Operation::Recovery,
        ProtocolStage::Recovery,
        None,
        retry_advice,
    )
}

/// An error about a record that was to be made.
pub open spec fn metadata_encode_view(kind: StorageErrorKind) -> ErrorView {
    detached_error(
        kind,
        Operation::WriteBatch,
        ProtocolStage::Preflight,
        Some(WriteOutcome::NotCommitted),
        if kind == StorageErrorKind::ResourceExhausted {
            RetryAdvice::RetrySameInstance
        } else {
            RetryAdvice::FixRequestAndRetrySameInstance
        },
    )
}

pub fn metadata_encode_error(kind: StorageErrorKind) -> (error: StorageError)
    ensures
        error@ == metadata_encode_view(kind),
{
    let retry_advice = if kind == StorageErrorKind::ResourceExhausted {
        RetryAdvice::RetrySameInstance
    } else {
        RetryAdvice::FixRequestAndRetrySameInstance
    };
    StorageError::codec_error(
        kind,
        Operation::WriteBatch,
        ProtocolStage::Preflight,
        Some(WriteOutcome::NotCommitted),
        retry_advice,
    )
}

/// A position, encoded.
pub open spec fn position_bytes(position: VLogPosition) -> Seq<u8> {
    le_bytes(position.file_id as nat, 4) + le_bytes(position.offset as nat, 8)
}

pub fn append_position(out: &mut Vec<u8>, position: VLogPosition)
    ensures
        final(out)@ == old(out)@ + position_bytes(position),
{
    append_le(out, position.file_id as u64, 4);
    append_le(out, position.offset, 8);
    proof {
        assert(out@ =~= old(out)@ + position_bytes(position));
    }
}

pub fn read_position(bytes: &[u8], at: usize) -> (position: VLogPosition)
    requires
        at + 12 <= bytes@.len(),
    ensures
        position == position_at(bytes@, at as int),
{
    let length: usize = bytes.len();
    let next: usize = at + 4;
    VLogPosition { file_id: read_u32(bytes, at), offset: read_u64(bytes, next) }
}

/// The position that is encoded at a place.
pub open spec fn position_at(b: Seq<u8>, at: int) -> VLogPosition {
    VLogPosition { file_id: u32_at(b, at), offset: u64_at(b, at + 4) }
}

/// A position and its encoding determine each other.
pub proof fn lemma_position(b: Seq<u8>, at: int)
    requires
        0 <= at,
        at + 12 <= b.len(),
    ensures
        b.subrange(at, at + 12) == position_bytes(position_at(b, at)),
        forall|position: VLogPosition|
            b.subrange(at, at + 12) == #[trigger] position_bytes(position) ==> position
                == position_at(b, at),
{
    lemma_fixed_widths(b, at);
    lemma_fixed_widths(b, at + 4);
    assert(b.subrange(at, at + 12) =~= b.subrange(at, at + 4) + b.subrange(at + 4, at + 12));
    assert forall|position: VLogPosition|
        b.subrange(at, at + 12) == #[trigger] position_bytes(position) implies position
        == position_at(b, at) by {
        lemma_byte_limits();
        lemma_le_bytes_len(position.file_id as nat, 4);
        lemma_le_bytes_len(position.offset as nat, 8);
        assert(b.subrange(at, at + 4) =~= position_bytes(position).subrange(0, 4));
        assert(b.subrange(at + 4, at + 12) =~= position_bytes(position).subrange(4, 12));
        assert(position_bytes(position).subrange(0, 4) =~= le_bytes(position.file_id as nat, 4));
        assert(position_bytes(position).subrange(4, 12) =~= le_bytes(position.offset as nat, 8));
        lemma_written_number(b, at, position.file_id as nat, 4);
        lemma_written_number(b, at + 4, position.offset as nat, 8);
    }
}

/// The end of the log, encoded: a tag, and the position or zeros.
pub open spec fn end_bytes(end: DurableVLogEnd) -> Seq<u8> {
    match end {
        DurableVLogEnd::Empty => seq![0u8] + zeros(12),
        DurableVLogEnd::Position(position) => seq![1u8] + position_bytes(position),
    }
}

fn append_end(out: &mut Vec<u8>, end: DurableVLogEnd)
    ensures
        final(out)@ == old(out)@ + end_bytes(end),
{
    match end {
        DurableVLogEnd::Empty => {
            out.push(0);
            append_zeros(out, 12);
        },
        DurableVLogEnd::Position(position) => {
            out.push(1);
            append_position(out, position);
        },
    }
    proof {
        assert(out@ =~= old(out)@ + end_bytes(end));
    }
}

/// The end of the log that is encoded at a place, if one is.
fn read_end(bytes: &[u8], at: usize) -> (end: Option<DurableVLogEnd>)
    requires
        at + 13 <= bytes@.len(),
    ensures
        match end {
            Some(end) => {
                &&& bytes@.subrange(at as int, at + 13) == end_bytes(end)
                &&& end matches DurableVLogEnd::Position(position) ==> position.valid()
                &&& forall|other: DurableVLogEnd|
                    bytes@.subrange(at as int, at + 13) == #[trigger] end_bytes(other) ==> other
                        == end
            },
            None => forall|other: DurableVLogEnd|
                bytes@.subrange(at as int, at + 13) == #[trigger] end_bytes(other)
                    ==> (other matches DurableVLogEnd::Position(position) && !position.valid()),
        },
{
    let ghost found = bytes@.subrange(at as int, at + 13);
    let length: usize = bytes.len();
    let start: usize = at + 1;
    proof {
        lemma_position(bytes@, start as int);
        assert(found.skip(1) =~= bytes@.subrange(at + 1, at + 13));
        assert(found =~= seq![bytes@[at as int]] + bytes@.subrange(at + 1, at + 13));
        assert forall|other: DurableVLogEnd| found == #[trigger] end_bytes(other) implies {
            &&& other is Empty ==> bytes@[at as int] == 0 && bytes@.subrange(at + 1, at + 13)
                == zeros(12)
            &&& other matches DurableVLogEnd::Position(position) ==> bytes@[at as int] == 1
                && position == position_at(bytes@, at + 1)
        } by {
            assert(found[0] == bytes@[at as int]);
            match other {
                DurableVLogEnd::Empty => {
                    assert(end_bytes(other).skip(1) =~= zeros(12));
                },
                DurableVLogEnd::Position(position) => {
                    assert(end_bytes(other).skip(1) =~= position_bytes(position));
                },
            }
        }
    }
    let tag: u8 = bytes[at];
    if tag == 0 {
        if all_zero(bytes, start, start + 12) {
            proof {
                assert(found =~= end_bytes(DurableVLogEnd::Empty));
            }
            Some(DurableVLogEnd::Empty)
        } else {
            None
        }
    } else if tag == 1 {
        let position = read_position(bytes, start);
        if position.is_valid() {
            proof {
                assert(found =~= end_bytes(DurableVLogEnd::Position(position)));
            }
            Some(DurableVLogEnd::Position(position))
        } else {
            None
        }
    } else {
        None
    }
}

/// The key under which the head of a transaction is kept: the magic, the number of the commit
/// with its most significant byte first, and the kind of the key.
pub open spec fn tx_meta_key(commit_seq: CommitSeq) -> Seq<u8> {
    le_bytes(TX_KEY_MAGIC as nat, 2) + be_bytes(commit_seq as nat, 8) + seq![TX_META_KIND]
}

/// The key under which a mutation of a transaction is kept: as the key of the head, but for the
/// kind, and with the number of the mutation behind it.
pub open spec fn tx_mutation_key(commit_seq: CommitSeq, ordinal: u64) -> Seq<u8> {
    le_bytes(TX_KEY_MAGIC as nat, 2) + be_bytes(commit_seq as nat, 8) + seq![TX_MUTATION_KIND]
        + be_bytes(ordinal as nat, 8)
}

pub fn encode_tx_meta_key(commit_seq: CommitSeq) -> (result: Result<Vec<u8>>)
    ensures
        match result {
            Ok(key) => commit_seq != 0 && key@ == tx_meta_key(commit_seq),
            Err(error) => commit_seq == 0 && error@ == metadata_encode_view(
                StorageErrorKind::InvalidArgument,
            ),
        },
{
    if commit_seq == 0 {
        return Err(metadata_encode_error(StorageErrorKind::InvalidArgument));
    }
    let mut key: Vec<u8> = Vec::new();
    append_le(&mut key, TX_KEY_MAGIC as u64, 2);
    append_be(&mut key, commit_seq, 8);
    key.push(TX_META_KIND);
    proof {
        assert(key@ =~= tx_meta_key(commit_seq));
    }
    Ok(key)
}

proof fn lemma_tx_key(key: Seq<u8>)
    requires
        key.len() >= 11,
    ensures
        key.subrange(0, 2) == le_bytes(u16_at(key, 0) as nat, 2),
        key.subrange(2, 10) == be_bytes(be_value(key.subrange(2, 10)), 8),
        be_value(key.subrange(2, 10)) <= u64::MAX,
{
    lemma_fixed_widths(key, 0);
    lemma_be_bytes_of_value(key.subrange(2, 10));
    lemma_byte_limits();
}

/// Where the fields of a key lie.
pub proof fn lemma_tx_meta_key(commit_seq: CommitSeq)
    ensures
        ({
            let key = tx_meta_key(commit_seq);
            &&& key.len() == TX_META_KEY_ENCODED_LEN
            &&& u16_at(key, 0) == TX_KEY_MAGIC
            &&& be_value(key.subrange(2, 10)) == commit_seq
            &&& key[10] == TX_META_KIND
        }),
{
    let key = tx_meta_key(commit_seq);
    lemma_byte_limits();
    lemma_le_bytes_len(TX_KEY_MAGIC as nat, 2);
    lemma_be_round_trip(commit_seq as nat, 8);
    assert(key.subrange(0, 2) =~= le_bytes(TX_KEY_MAGIC as nat, 2));
    assert(key.subrange(2, 10) =~= be_bytes(commit_seq as nat, 8));
    lemma_written_number(key, 0, TX_KEY_MAGIC as nat, 2);
}

/// Where the fields of a key lie.
pub proof fn lemma_tx_mutation_key(commit_seq: CommitSeq, ordinal: u64)
    ensures
        ({
            let key = tx_mutation_key(commit_seq, ordinal);
            &&& key.len() == TX_MUTATION_KEY_ENCODED_LEN
            &&& u16_at(key, 0) == TX_KEY_MAGIC
            &&& be_value(key.subrange(2, 10)) == commit_seq
            &&& key[10] == TX_MUTATION_KIND
            &&& be_value(key.subrange(11, 19)) == ordinal
        }),
{
    let key = tx_mutation_key(commit_seq, ordinal);
    lemma_byte_limits();
    lemma_le_bytes_len(TX_KEY_MAGIC as nat, 2);
    lemma_be_round_trip(commit_seq as nat, 8);
    lemma_be_round_trip(ordinal as nat, 8);
    assert(key.subrange(0, 2) =~= le_bytes(TX_KEY_MAGIC as nat, 2));
    assert(key.subrange(2, 10) =~= be_bytes(commit_seq as nat, 8));
    assert(key.subrange(11, 19) =~= be_bytes(ordinal as nat, 8));
    lemma_written_number(key, 0, TX_KEY_MAGIC as nat, 2);
}

pub fn decode_tx_meta_key(encoded: &[u8]) -> (result: Result<CommitSeq>)
    ensures
        match result {
            Ok(commit_seq) => commit_seq != 0 && encoded@ == tx_meta_key(commit_seq),
            Err(error) => {
                &&& error@ == metadata_decode_view(StorageErrorKind::Corruption)
                &&& forall|commit_seq: CommitSeq|
                    commit_seq != 0 ==> encoded@ != #[trigger] tx_meta_key(commit_seq)
            },
        },
{
    proof {
        assert forall|commit_seq: CommitSeq| encoded@ == #[trigger] tx_meta_key(commit_seq) implies {
            &&& encoded@.len() == TX_META_KEY_ENCODED_LEN
            &&& u16_at(encoded@, 0) == TX_KEY_MAGIC
            &&& be_value(encoded@.subrange(2, 10)) == commit_seq
            &&& encoded@[10] == TX_META_KIND
        } by {
            lemma_tx_meta_key(commit_seq);
        }
    }
    if encoded.len() != TX_META_KEY_ENCODED_LEN || read_u16(encoded, 0) != TX_KEY_MAGIC
        || encoded[10] != TX_META_KIND {
        return Err(metadata_decode_error(StorageErrorKind::Corruption));
    }
    let commit_seq: u64 = read_be_u64(encoded, 2);
    if commit_seq == 0 {
        return Err(metadata_decode_error(StorageErrorKind::Corruption));
    }
    proof {
        lemma_tx_key(encoded@);
        assert(encoded@ =~= tx_meta_key(commit_seq));
    }
    Ok(commit_seq)
}

pub fn encode_tx_mutation_key(commit_seq: CommitSeq, ordinal: u64) -> (result: Result<Vec<u8>>)
    ensures
        match result {
            Ok(key) => commit_seq != 0 && key@ == tx_mutation_key(commit_seq, ordinal),
            Err(error) => commit_seq == 0 && error@ == metadata_encode_view(
                StorageErrorKind::InvalidArgument,
            ),
        },
{
    if commit_seq == 0 {
        return Err(metadata_encode_error(StorageErrorKind::InvalidArgument));
    }
    let mut key: Vec<u8> = Vec::new();
    append_le(&mut key, TX_KEY_MAGIC as u64, 2);
    append_be(&mut key, commit_seq, 8);
    key.push(TX_MUTATION_KIND);
    append_be(&mut key, ordinal, 8);
    proof {
        assert(key@ =~= tx_mutation_key(commit_seq, ordinal));
    }
    Ok(key)
}

pub fn decode_tx_mutation_key(encoded: &[u8]) -> (result: Result<(CommitSeq, u64)>)
    ensures
        match result {
            Ok(found) => found.0 != 0 && encoded@ == tx_mutation_key(found.0, found.1),
            Err(error) => {
                &&& error@ == metadata_decode_view(StorageErrorKind::Corruption)
                &&& forall|commit_seq: CommitSeq, ordinal: u64|
                    commit_seq != 0 ==> encoded@ != #[trigger] tx_mutation_key(commit_seq, ordinal)
            },
        },
{
    proof {
        assert forall|commit_seq: CommitSeq, ordinal: u64|
            encoded@ == #[trigger] tx_mutation_key(commit_seq, ordinal) implies {
            &&& encoded@.len() == TX_MUTATION_KEY_ENCODED_LEN
            &&& u16_at(encoded@, 0) == TX_KEY_MAGIC
            &&& be_value(encoded@.subrange(2, 10)) == commit_seq
            &&& encoded@[10] == TX_MUTATION_KIND
        } by {
            lemma_tx_mutation_key(commit_seq, ordinal);
        }
    }
    if encoded.len() != TX_MUTATION_KEY_ENCODED_LEN || read_u16(encoded, 0) != TX_KEY_MAGIC
        || encoded[10] != TX_MUTATION_KIND {
        return Err(metadata_decode_error(StorageErrorKind::Corruption));
    }
    let commit_seq: u64 = read_be_u64(encoded, 2);
    let ordinal: u64 = read_be_u64(encoded, 11);
    if commit_seq == 0 {
        return Err(metadata_decode_error(StorageErrorKind::Corruption));
    }
    proof {
        lemma_tx_key(encoded@);
        lemma_be_bytes_of_value(encoded@.subrange(11, 19));
        assert(encoded@ =~= tx_mutation_key(commit_seq, ordinal));
    }
    Ok((commit_seq, ordinal))
}

/// Which database an index belongs to.
#[derive(Clone, Copy, Debug)]
pub struct DatabaseIdentity {
    pub identity_format_version: u16,
    pub database_format_version: u32,
    pub database_uuid: [u8; 16],
    pub keyspace_layout_version: u16,
}

/// An encoded identity of another version.
pub open spec fn identity_of_other_version(b: Seq<u8>) -> bool {
    &&& b.len() == DATABASE_IDENTITY_ENCODED_LEN
    &&& u32_at(b, 0) == DATABASE_IDENTITY_MAGIC
    &&& is_sealed(b, 28)
    &&& u16_at(b, 4) != FORMAT_VERSION || u16_at(b, 26) != KEYSPACE_LAYOUT_VERSION
}

impl DatabaseIdentity {
    /// An identity that can be read. The version of the database is compared by the reader.
    pub open spec fn readable(self) -> bool {
        &&& self.identity_format_version == FORMAT_VERSION
        &&& self.keyspace_layout_version == KEYSPACE_LAYOUT_VERSION
        &&& is_identifier(self.database_uuid@)
    }

    /// An identity that can be written.
    pub open spec fn valid(self) -> bool {
        self.readable() && self.database_format_version == DATABASE_FORMAT_VERSION
    }

    pub open spec fn body(self) -> Seq<u8> {
        le_bytes(DATABASE_IDENTITY_MAGIC as nat, 4) + le_bytes(
            self.identity_format_version as nat,
            2,
        ) + le_bytes(self.database_format_version as nat, 4) + self.database_uuid@ + le_bytes(
            self.keyspace_layout_version as nat,
            2,
        )
    }

    pub open spec fn encoded(self) -> Seq<u8> {
        sealed(self.body())
    }

    pub fn encode(&self) -> (result: Result<Vec<u8>>)
        ensures
            match result {
                Ok(encoded) => self.valid() && encoded@ == self.encoded(),
                Err(error) => !self.valid() && error@ == metadata_encode_view(
                    StorageErrorKind::InvalidArgument,
                ),
            },
    {
        if self.identity_format_version != FORMAT_VERSION || self.database_format_version
            != DATABASE_FORMAT_VERSION || !is_nonzero_uuid(&self.database_uuid)
            || self.keyspace_layout_version != KEYSPACE_LAYOUT_VERSION {
            return Err(metadata_encode_error(StorageErrorKind::InvalidArgument));
        }
        let mut out: Vec<u8> = Vec::new();
        append_le(&mut out, DATABASE_IDENTITY_MAGIC as u64, 4);
        append_le(&mut out, self.identity_format_version as u64, 2);
        append_le(&mut out, self.database_format_version as u64, 4);
        append_uuid(&mut out, &self.database_uuid);
        append_le(&mut out, self.keyspace_layout_version as u64, 2);
        proof {
            assert(out@ =~= self.body());
        }
        append_checksum(&mut out);
        Ok(out)
    }

    pub fn decode(encoded: &[u8]) -> (result: Result<Self>)
        ensures
            match result {
                Ok(identity) => identity.readable() && encoded@ == identity.encoded(),
                Err(error) => {
                    &&& error@ == metadata_decode_view(
                        if identity_of_other_version(encoded@) {
                            StorageErrorKind::IncompatibleFormat
                        } else {
                            StorageErrorKind::Corruption
                        },
                    )
                    &&& forall|identity: DatabaseIdentity|
                        identity.readable() ==> encoded@ != #[trigger] identity.encoded()
                },
            },
    {
        proof {
            assert forall|identity: DatabaseIdentity|
                encoded@ == #[trigger] identity.encoded() implies identity_fields(
                encoded@,
                identity,
            ) by {
                lemma_identity_layout(identity);
            }
        }
        if encoded.len() != DATABASE_IDENTITY_ENCODED_LEN || read_u32(encoded, 0)
            != DATABASE_IDENTITY_MAGIC || !checksum_matches(encoded, 28) {
            return Err(metadata_decode_error(StorageErrorKind::Corruption));
        }
        let identity = DatabaseIdentity {
            identity_format_version: read_u16(encoded, 4),
            database_format_version: read_u32(encoded, 6),
            database_uuid: array_16(encoded, 10),
            keyspace_layout_version: read_u16(encoded, 26),
        };
        if identity.identity_format_version != FORMAT_VERSION || identity.keyspace_layout_version
            != KEYSPACE_LAYOUT_VERSION {
            return Err(metadata_decode_error(StorageErrorKind::IncompatibleFormat));
        }
        if !is_nonzero_uuid(&identity.database_uuid) {
            return Err(metadata_decode_error(StorageErrorKind::Corruption));
        }
        proof {
            lemma_fixed_widths(encoded@, 0);
            lemma_fixed_widths(encoded@, 4);
            lemma_fixed_widths(encoded@, 6);
            lemma_fixed_widths(encoded@, 26);
            lemma_unsealed(encoded@, 28);
            assert(encoded@.take(28) =~= encoded@.subrange(0, 4) + encoded@.subrange(4, 6)
                + encoded@.subrange(6, 10) + encoded@.subrange(10, 26) + encoded@.subrange(26, 28));
        }
        Ok(identity)
    }

    /// Checks that the identity is that of a database.
    pub fn validate_against(&self, database_format_version: u32, database_uuid: &[u8; 16]) -> (result:
        Result<()>)
        ensures
            ({
                let same = self.database_format_version == database_format_version
                    && self.database_uuid@ == database_uuid@;
                match result {
                    Ok(_) => same,
                    Err(error) => !same && error@ == metadata_decode_view(
                        StorageErrorKind::InvalidLayout,
                    ),
                }
            }),
    {
        if self.database_format_version != database_format_version || !same_uuid(
            &self.database_uuid,
            database_uuid,
        ) {
            return Err(metadata_decode_error(StorageErrorKind::InvalidLayout));
        }
        Ok(())
    }
}

/// Why the identity that an index stores is not that of a database.
pub open spec fn identity_refusal(
    b: Seq<u8>,
    database_format_version: u32,
    database_uuid: Seq<u8>,
) -> Option<StorageErrorKind> {
    if exists|identity: DatabaseIdentity|
        identity.readable() && b == #[trigger] identity.encoded() {
        let identity = choose|identity: DatabaseIdentity|
            identity.readable() && b == #[trigger] identity.encoded();
        if identity.database_format_version == database_format_version
            && identity.database_uuid@ == database_uuid {
            None
        } else {
            Some(StorageErrorKind::InvalidLayout)
        }
    } else if identity_of_other_version(b) {
        Some(StorageErrorKind::IncompatibleFormat)
    } else {
        Some(StorageErrorKind::Corruption)
    }
}

/// Checks that the identity that an index stores is that of a database.
pub fn check_identity(encoded: &[u8], database_format_version: u32, database_uuid: &[u8; 16]) -> (result:
    Result<()>)
    ensures
        match identity_refusal(encoded@, database_format_version, database_uuid@) {
            None => result is Ok,
            Some(kind) => result matches Err(error) && error@ == metadata_decode_view(kind),
        },
{
    let identity = DatabaseIdentity::decode(encoded)?;
    proof {
        let other = choose|other: DatabaseIdentity|
            other.readable() && encoded@ == #[trigger] other.encoded();
        law_identity_round_trip(identity, other);
    }
    identity.validate_against(database_format_version, database_uuid)
}

/// The fields of an encoded identity, by their places.
spec fn identity_fields(b: Seq<u8>, identity: DatabaseIdentity) -> bool {
    &&& b.len() == DATABASE_IDENTITY_ENCODED_LEN
    &&& is_sealed(b, 28)
    &&& u32_at(b, 0) == DATABASE_IDENTITY_MAGIC
    &&& u16_at(b, 4) == identity.identity_format_version
    &&& u32_at(b, 6) == identity.database_format_version
    &&& b.subrange(10, 26) == identity.database_uuid@
    &&& u16_at(b, 26) == identity.keyspace_layout_version
}

proof fn lemma_identity_layout(identity: DatabaseIdentity)
    ensures
        identity_fields(identity.encoded(), identity),
{
    let b = identity.encoded();
    let body = identity.body();
    lemma_byte_limits();
    lemma_le_bytes_len(DATABASE_IDENTITY_MAGIC as nat, 4);
    lemma_le_bytes_len(identity.identity_format_version as nat, 2);
    lemma_le_bytes_len(identity.database_format_version as nat, 4);
    lemma_le_bytes_len(identity.keyspace_layout_version as nat, 2);
    lemma_sealed(body);
    assert(b.subrange(0, 4) =~= le_bytes(DATABASE_IDENTITY_MAGIC as nat, 4));
    assert(b.subrange(4, 6) =~= le_bytes(identity.identity_format_version as nat, 2));
    assert(b.subrange(6, 10) =~= le_bytes(identity.database_format_version as nat, 4));
    assert(b.subrange(10, 26) =~= identity.database_uuid@);
    assert(b.subrange(26, 28) =~= le_bytes(identity.keyspace_layout_version as nat, 2));
    lemma_written_number(b, 0, DATABASE_IDENTITY_MAGIC as nat, 4);
    lemma_written_number(b, 4, identity.identity_format_version as nat, 2);
    lemma_written_number(b, 6, identity.database_format_version as nat, 4);
    lemma_written_number(b, 26, identity.keyspace_layout_version as nat, 2);
}

/// What is read from an encoded identity is the identity that was written.
pub proof fn law_identity_round_trip(identity: DatabaseIdentity, decoded: DatabaseIdentity)
    requires
        identity.encoded() == decoded.encoded(),
    ensures
        identity.identity_format_version == decoded.identity_format_version,
        identity.database_format_version == decoded.database_format_version,
        identity.database_uuid@ == decoded.database_uuid@,
        identity.keyspace_layout_version == decoded.keyspace_layout_version,
{
    lemma_identity_layout(identity);
    lemma_identity_layout(decoded);
}

/// The number of the last commit, encoded.
pub fn encode_head_seq(head_seq: CommitSeq) -> (encoded: Vec<u8>)
    ensures
        encoded@ == le_bytes(head_seq as nat, 8),
{
    let mut encoded: Vec<u8> = Vec::new();
    append_le(&mut encoded, head_seq, 8);
    proof {
        assert(encoded@ =~= le_bytes(head_seq as nat, 8));
    }
    encoded
}

pub fn decode_head_seq(encoded: &[u8]) -> (result: Result<CommitSeq>)
    ensures
        match result {
            Ok(head_seq) => encoded@ == le_bytes(head_seq as nat, 8),
            Err(error) => encoded@.len() != HEAD_SEQ_ENCODED_LEN && error@ == metadata_decode_view(
                StorageErrorKind::Corruption,
            ),
        },
{
    if encoded.len() != HEAD_SEQ_ENCODED_LEN {
        return Err(metadata_decode_error(StorageErrorKind::Corruption));
    }
    proof {
        lemma_fixed_widths(encoded@, 0);
        assert(encoded@.subrange(0, 8) =~= encoded@);
    }
    Ok(read_u64(encoded, 0))
}

/// The number of the next commit.
pub fn next_commit_seq(head_seq: CommitSeq) -> (result: Result<CommitSeq>)
    ensures
        match result {
            Ok(next) => next == head_seq + 1,
            Err(error) => head_seq == u64::MAX && error@ == metadata_encode_view(
                StorageErrorKind::CapacityExceeded,
            ),
        },
{
    match head_seq.checked_add(1) {
        Some(next) => Ok(next),
        None => Err(metadata_encode_error(StorageErrorKind::CapacityExceeded)),
    }
}

/// How far commits are on disk for certain.
#[derive(Clone, Copy, Debug, PartialEq, Eq, Structural)]
pub struct DurableFrontier {
    pub durable_seq: CommitSeq,
    pub durable_vlog_end: DurableVLogEnd,
}

/// An encoded frontier of another version.
pub open spec fn frontier_of_other_version(b: Seq<u8>) -> bool {
    &&& b.len() == DURABLE_FRONTIER_ENCODED_LEN
    &&& u32_at(b, 0) == DURABLE_FRONTIER_MAGIC
    &&& is_sealed(b, 27)
    &&& u16_at(b, 4) != FORMAT_VERSION
}

impl DurableFrontier {
    pub open spec fn valid(self) -> bool {
        end_fits(self.durable_seq, self.durable_vlog_end)
    }

    pub open spec fn body(self) -> Seq<u8> {
        le_bytes(DURABLE_FRONTIER_MAGIC as nat, 4) + le_bytes(FORMAT_VERSION as nat, 2) + le_bytes(
            self.durable_seq as nat,
            8,
        ) + end_bytes(self.durable_vlog_end)
    }

    pub open spec fn encoded(self) -> Seq<u8> {
        sealed(self.body())
    }

    pub fn is_valid(&self) -> (valid: bool)
        ensures
            valid == self.valid(),
    {
        is_fitting_end(self.durable_seq, self.durable_vlog_end)
    }

    pub fn encode(&self) -> (result: Result<Vec<u8>>)
        ensures
            match result {
                Ok(encoded) => self.valid() && encoded@ == self.encoded(),
                Err(error) => !self.valid() && error@ == metadata_encode_view(
                    StorageErrorKind::InvalidArgument,
                ),
            },
    {
        if !self.is_valid() {
            return Err(metadata_encode_error(StorageErrorKind::InvalidArgument));
        }
        let mut out: Vec<u8> = Vec::new();
        append_le(&mut out, DURABLE_FRONTIER_MAGIC as u64, 4);
        append_le(&mut out, FORMAT_VERSION as u64, 2);
        append_le(&mut out, self.durable_seq, 8);
        append_end(&mut out, self.durable_vlog_end);
        proof {
            assert(out@ =~= self.body());
        }
        append_checksum(&mut out);
        Ok(out)
    }

    pub fn decode(encoded: &[u8]) -> (result: Result<Self>)
        ensures
            match result {
                Ok(frontier) => frontier.valid() && encoded@ == frontier.encoded(),
                Err(error) => {
                    &&& error@ == metadata_decode_view(
                        if frontier_of_other_version(encoded@) {
                            StorageErrorKind::IncompatibleFormat
                        } else {
                            StorageErrorKind::Corruption
                        },
                    )
                    &&& forall|frontier: DurableFrontier|
                        frontier.valid() ==> encoded@ != #[trigger] frontier.encoded()
                },
            },
    {
        proof {
            assert forall|frontier: DurableFrontier|
                encoded@ == #[trigger] frontier.encoded() implies frontier_fields(
                encoded@,
                frontier,
            ) by {
                lemma_frontier_layout(frontier);
            }
        }
        if encoded.len() != DURABLE_FRONTIER_ENCODED_LEN || read_u32(encoded, 0)
            != DURABLE_FRONTIER_MAGIC || !checksum_matches(encoded, 27) {
            return Err(metadata_decode_error(StorageErrorKind::Corruption));
        }
        if read_u16(encoded, 4) != FORMAT_VERSION {
            return Err(metadata_decode_error(StorageErrorKind::IncompatibleFormat));
        }
        let durable_seq: u64 = read_u64(encoded, 6);
        let durable_vlog_end = match read_end(encoded, 14) {
            Some(end) => end,
            None => return Err(metadata_decode_error(StorageErrorKind::Corruption)),
        };
        let frontier = DurableFrontier { durable_seq, durable_vlog_end };
        frontier.validate()?;
        proof {
            lemma_fixed_widths(encoded@, 0);
            lemma_fixed_widths(encoded@, 4);
            lemma_fixed_widths(encoded@, 6);
            lemma_unsealed(encoded@, 27);
            assert(encoded@.take(27) =~= encoded@.subrange(0, 4) + encoded@.subrange(4, 6)
                + encoded@.subrange(6, 14) + encoded@.subrange(14, 27));
        }
        Ok(frontier)
    }

    /// Checks that the frontier is not ahead of the last commit.
    pub fn validate_against_head(&self, head_seq: CommitSeq) -> (result: Result<()>)
        ensures
            match result {
                Ok(_) => self.valid() && self.durable_seq <= head_seq,
                Err(error) => !(self.valid() && self.durable_seq <= head_seq) && error@
                    == metadata_decode_view(StorageErrorKind::Corruption),
            },
    {
        self.validate()?;
        if self.durable_seq > head_seq {
            return Err(metadata_decode_error(StorageErrorKind::Corruption));
        }
        Ok(())
    }

    fn validate(&self) -> (result: Result<()>)
        ensures
            match result {
                Ok(_) => self.valid(),
                Err(error) => !self.valid() && error@ == metadata_decode_view(
                    StorageErrorKind::Corruption,
                ),
            },
    {
        if is_fitting_end(self.durable_seq, self.durable_vlog_end) {
            Ok(())
        } else {
            Err(metadata_decode_error(StorageErrorKind::Corruption))
        }
    }
}

/// The fields of an encoded frontier, by their places.
spec fn frontier_fields(b: Seq<u8>, frontier: DurableFrontier) -> bool {
    &&& b.len() == DURABLE_FRONTIER_ENCODED_LEN
    &&& is_sealed(b, 27)
    &&& u32_at(b, 0) == DURABLE_FRONTIER_MAGIC
    &&& u16_at(b, 4) == FORMAT_VERSION
    &&& u64_at(b, 6) == frontier.durable_seq
    &&& b.subrange(14, 27) == end_bytes(frontier.durable_vlog_end)
}

proof fn lemma_end_length(end: DurableVLogEnd)
    ensures
        end_bytes(end).len() == 13,
{
    match end {
        DurableVLogEnd::Empty => {},
        DurableVLogEnd::Position(position) => {
            lemma_le_bytes_len(position.file_id as nat, 4);
            lemma_le_bytes_len(position.offset as nat, 8);
        },
    }
}

proof fn lemma_frontier_layout(frontier: DurableFrontier)
    ensures
        frontier_fields(frontier.encoded(), frontier),
{
    let b = frontier.encoded();
    let body = frontier.body();
    lemma_byte_limits();
    lemma_le_bytes_len(DURABLE_FRONTIER_MAGIC as nat, 4);
    lemma_le_bytes_len(FORMAT_VERSION as nat, 2);
    lemma_le_bytes_len(frontier.durable_seq as nat, 8);
    lemma_end_length(frontier.durable_vlog_end);
    lemma_sealed(body);
    assert(b.subrange(0, 4) =~= le_bytes(DURABLE_FRONTIER_MAGIC as nat, 4));
    assert(b.subrange(4, 6) =~= le_bytes(FORMAT_VERSION as nat, 2));
    assert(b.subrange(6, 14) =~= le_bytes(frontier.durable_seq as nat, 8));
    assert(b.subrange(14, 27) =~= end_bytes(frontier.durable_vlog_end));
    lemma_written_number(b, 0, DURABLE_FRONTIER_MAGIC as nat, 4);
    lemma_written_number(b, 4, FORMAT_VERSION as nat, 2);
    lemma_written_number(b, 6, frontier.durable_seq as nat, 8);
}

/// An encoded end of the log determines it.
proof fn lemma_end_injective(a: DurableVLogEnd, b: DurableVLogEnd)
    requires
        end_bytes(a) == end_bytes(b),
    ensures
        a == b,
{
    lemma_end_length(a);
    assert(end_bytes(a)[0] == end_bytes(b)[0]);
    match (a, b) {
        (DurableVLogEnd::Position(p), DurableVLogEnd::Position(q)) => {
            let s = end_bytes(a);
            assert(s.subrange(1, 13) =~= position_bytes(p));
            assert(end_bytes(b).subrange(1, 13) =~= position_bytes(q));
            lemma_position(s, 1);
            assert(s.subrange(1, 13) == position_bytes(q));
            assert(p == position_at(s, 1));
            assert(q == position_at(s, 1));
        },
        (DurableVLogEnd::Empty, DurableVLogEnd::Position(q)) => {
            assert(end_bytes(a)[0] == 0);
            assert(end_bytes(b)[0] == 1);
        },
        (DurableVLogEnd::Position(p), DurableVLogEnd::Empty) => {
            assert(end_bytes(a)[0] == 1);
            assert(end_bytes(b)[0] == 0);
        },
        _ => {},
    }
}

/// What is read from an encoded frontier is the frontier that was written.
pub proof fn law_frontier_round_trip(frontier: DurableFrontier, decoded: DurableFrontier)
    requires
        frontier.encoded() == decoded.encoded(),
    ensures
        frontier == decoded,
{
    lemma_frontier_layout(frontier);
    lemma_frontier_layout(decoded);
    lemma_end_injective(frontier.durable_vlog_end, decoded.durable_vlog_end);
}

/// What a recovery is busy with.
#[derive(Clone, Copy, Debug, PartialEq, Eq, Structural)]
pub enum RecoveryPhase {
    Undo,
    Trim,
    Finalize,
}

impl RecoveryPhase {
    pub open spec fn code(self) -> u8 {
        match self {
            RecoveryPhase::Undo => 1,
            RecoveryPhase::Trim => 2,
            RecoveryPhase::Finalize => 3,
        }
    }

    fn encode(self) -> (code: u8)
        ensures
            code == self.code(),
    {
        match self {
            RecoveryPhase::Undo => 1,
            RecoveryPhase::Trim => 2,
            RecoveryPhase::Finalize => 3,
        }
    }
}

/// How far a recovery has come.
#[derive(Clone, Copy, Debug, PartialEq, Eq, Structural)]
pub struct RecoveryState {
    pub phase: RecoveryPhase,
    pub original_head: CommitSeq,
    pub target_seq: CommitSeq,
    pub target_vlog_end: DurableVLogEnd,
    pub next_undo_seq: CommitSeq,
    pub trim_required: bool,
}

/// An encoded recovery state of another version.
pub open spec fn recovery_state_of_other_version(b: Seq<u8>) -> bool {
    &&& b.len() == RECOVERY_STATE_ENCODED_LEN
    &&& u32_at(b, 0) == RECOVERY_STATE_MAGIC
    &&& is_sealed(b, 45)
    &&& u16_at(b, 4) != FORMAT_VERSION
}

impl RecoveryState {
    /// The undo goes down from the head to the target, and everything is undone before the log
    /// is trimmed or the recovery ends.
    pub open spec fn valid(self) -> bool {
        &&& self.target_seq <= self.next_undo_seq <= self.original_head
        &&& end_fits(self.target_seq, self.target_vlog_end)
        &&& match self.phase {
            RecoveryPhase::Undo => true,
            RecoveryPhase::Trim => self.next_undo_seq == self.target_seq && self.trim_required,
            RecoveryPhase::Finalize => self.next_undo_seq == self.target_seq
                && !self.trim_required,
        }
    }

    pub open spec fn body(self) -> Seq<u8> {
        le_bytes(RECOVERY_STATE_MAGIC as nat, 4) + le_bytes(FORMAT_VERSION as nat, 2)
            + seq![self.phase.code()] + le_bytes(self.original_head as nat, 8) + le_bytes(
            self.target_seq as nat,
            8,
        ) + end_bytes(self.target_vlog_end) + le_bytes(self.next_undo_seq as nat, 8)
            + seq![trim_code(self.trim_required)]
    }

    pub open spec fn encoded(self) -> Seq<u8> {
        sealed(self.body())
    }

    pub fn is_valid(&self) -> (valid: bool)
        ensures
            valid == self.valid(),
    {
        if self.target_seq > self.next_undo_seq || self.next_undo_seq > self.original_head
            || !is_fitting_end(self.target_seq, self.target_vlog_end) {
            return false;
        }
        match self.phase {
            RecoveryPhase::Undo => true,
            RecoveryPhase::Trim => self.next_undo_seq == self.target_seq && self.trim_required,
            RecoveryPhase::Finalize => self.next_undo_seq == self.target_seq
                && !self.trim_required,
        }
    }

    pub fn encode(&self) -> (result: Result<Vec<u8>>)
        ensures
            match result {
                Ok(encoded) => self.valid() && encoded@ == self.encoded(),
                Err(error) => !self.valid() && error@ == metadata_encode_view(
                    StorageErrorKind::InvalidArgument,
                ),
            },
    {
        if !self.is_valid() {
            return Err(metadata_encode_error(StorageErrorKind::InvalidArgument));
        }
        let mut out: Vec<u8> = Vec::new();
        append_le(&mut out, RECOVERY_STATE_MAGIC as u64, 4);
        append_le(&mut out, FORMAT_VERSION as u64, 2);
        out.push(self.phase.encode());
        append_le(&mut out, self.original_head, 8);
        append_le(&mut out, self.target_seq, 8);
        append_end(&mut out, self.target_vlog_end);
        append_le(&mut out, self.next_undo_seq, 8);
        out.push(if self.trim_required { 1 } else { 0 });
        proof {
            assert(out@ =~= self.body());
        }
        append_checksum(&mut out);
        Ok(out)
    }

    pub fn decode(encoded: &[u8]) -> (result: Result<Self>)
        ensures
            match result {
                Ok(state) => state.valid() && encoded@ == state.encoded(),
                Err(error) => {
                    &&& error@ == metadata_decode_view(
                        if recovery_state_of_other_version(encoded@) {
                            StorageErrorKind::IncompatibleFormat
                        } else {
                            StorageErrorKind::Corruption
                        },
                    )
                    &&& forall|state: RecoveryState|
                        state.valid() ==> encoded@ != #[trigger] state.encoded()
                },
            },
    {
        proof {
            assert forall|state: RecoveryState|
                encoded@ == #[trigger] state.encoded() implies recovery_fields(encoded@, state) by {
                lemma_recovery_layout(state);
            }
        }
        if encoded.len() != RECOVERY_STATE_ENCODED_LEN || read_u32(encoded, 0)
            != RECOVERY_STATE_MAGIC || !checksum_matches(encoded, 45) {
            return Err(metadata_decode_error(StorageErrorKind::Corruption));
        }
        if read_u16(encoded, 4) != FORMAT_VERSION {
            return Err(metadata_decode_error(StorageErrorKind::IncompatibleFormat));
        }
        let phase = match encoded[6] {
            1 => RecoveryPhase::Undo,
            2 => RecoveryPhase::Trim,
            3 => RecoveryPhase::Finalize,
            _ => return Err(metadata_decode_error(StorageErrorKind::Corruption)),
        };
        let trim_required = match encoded[44] {
            0 => false,
            1 => true,
            _ => return Err(metadata_decode_error(StorageErrorKind::Corruption)),
        };
        let target_vlog_end = match read_end(encoded, 23) {
            Some(end) => end,
            None => return Err(metadata_decode_error(StorageErrorKind::Corruption)),
        };
        let state = RecoveryState {
            phase,
            original_head: read_u64(encoded, 7),
            target_seq: read_u64(encoded, 15),
            target_vlog_end,
            next_undo_seq: read_u64(encoded, 36),
            trim_required,
        };
        if !state.is_valid() {
            return Err(metadata_decode_error(StorageErrorKind::Corruption));
        }
        proof {
            lemma_fixed_widths(encoded@, 0);
            lemma_fixed_widths(encoded@, 4);
            lemma_fixed_widths(encoded@, 7);
            lemma_fixed_widths(encoded@, 15);
            lemma_fixed_widths(encoded@, 36);
            lemma_unsealed(encoded@, 45);
            assert(encoded@.take(45) =~= encoded@.subrange(0, 4) + encoded@.subrange(4, 6)
                + seq![encoded@[6]] + encoded@.subrange(7, 15) + encoded@.subrange(15, 23)
                + encoded@.subrange(23, 36) + encoded@.subrange(36, 44) + seq![encoded@[44]]);
        }
        Ok(state)
    }
}

pub open spec fn trim_code(trim_required: bool) -> u8 {
    if trim_required {
        1
    } else {
        0
    }
}

/// The fields of an encoded recovery state, by their places.
spec fn recovery_fields(b: Seq<u8>, state: RecoveryState) -> bool {
    &&& b.len() == RECOVERY_STATE_ENCODED_LEN
    &&& is_sealed(b, 45)
    &&& u32_at(b, 0) == RECOVERY_STATE_MAGIC
    &&& u16_at(b, 4) == FORMAT_VERSION
    &&& b[6] == state.phase.code()
    &&& u64_at(b, 7) == state.original_head
    &&& u64_at(b, 15) == state.target_seq
    &&& b.subrange(23, 36) == end_bytes(state.target_vlog_end)
    &&& u64_at(b, 36) == state.next_undo_seq
    &&& b[44] == trim_code(state.trim_required)
}

proof fn lemma_recovery_layout(state: RecoveryState)
    ensures
        recovery_fields(state.encoded(), state),
{
    let b = state.encoded();
    let body = state.body();
    lemma_byte_limits();
    lemma_le_bytes_len(RECOVERY_STATE_MAGIC as nat, 4);
    lemma_le_bytes_len(FORMAT_VERSION as nat, 2);
    lemma_le_bytes_len(state.original_head as nat, 8);
    lemma_le_bytes_len(state.target_seq as nat, 8);
    lemma_le_bytes_len(state.next_undo_seq as nat, 8);
    lemma_end_length(state.target_vlog_end);
    lemma_sealed(body);
    assert(b.subrange(0, 4) =~= le_bytes(RECOVERY_STATE_MAGIC as nat, 4));
    assert(b.subrange(4, 6) =~= le_bytes(FORMAT_VERSION as nat, 2));
    assert(b.subrange(7, 15) =~= le_bytes(state.original_head as nat, 8));
    assert(b.subrange(15, 23) =~= le_bytes(state.target_seq as nat, 8));
    assert(b.subrange(23, 36) =~= end_bytes(state.target_vlog_end));
    assert(b.subrange(36, 44) =~= le_bytes(state.next_undo_seq as nat, 8));
    lemma_written_number(b, 0, RECOVERY_STATE_MAGIC as nat, 4);
    lemma_written_number(b, 4, FORMAT_VERSION as nat, 2);
    lemma_written_number(b, 7, state.original_head as nat, 8);
    lemma_written_number(b, 15, state.target_seq as nat, 8);
    lemma_written_number(b, 36, state.next_undo_seq as nat, 8);
}

/// What is read from an encoded recovery state is the state that was written.
pub proof fn law_recovery_state_round_trip(state: RecoveryState, decoded: RecoveryState)
    requires
        state.encoded() == decoded.encoded(),
    ensures
        state == decoded,
{
    lemma_recovery_layout(state);
    lemma_recovery_layout(decoded);
    lemma_end_injective(state.target_vlog_end, decoded.target_vlog_end);
}

/// The keys of different transactions differ, and no key of a head is one of a mutation.
pub proof fn law_transaction_keys_differ(a: CommitSeq, b: CommitSeq, i: u64, j: u64)
    ensures
        tx_meta_key(a) == tx_meta_key(b) ==> a == b,
        tx_mutation_key(a, i) == tx_mutation_key(b, j) ==> a == b && i == j,
        tx_meta_key(a) != tx_mutation_key(b, j),
{
    lemma_tx_meta_key(a);
    lemma_tx_meta_key(b);
    lemma_tx_mutation_key(a, i);
    lemma_tx_mutation_key(b, j);
}

/// The log is empty in front of the first commit and only there; behind a commit it ends at a
/// place that a file can have.
pub proof fn law_log_is_empty_before_the_first_commit(commit_seq: CommitSeq, end: DurableVLogEnd)
    ensures
        end_fits(commit_seq, end) ==> (commit_seq == 0 <==> end is Empty),
        end_fits(commit_seq, end) <==> match end {
            DurableVLogEnd::Empty => commit_seq == 0,
            DurableVLogEnd::Position(position) => commit_seq > 0 && position.file_id <= 999_999
                && position.offset <= 4_294_967_296,
        },
        (DurableFrontier { durable_seq: commit_seq, durable_vlog_end: end }).valid() <==> end_fits(
            commit_seq,
            end,
        ),
{
}

/// An index belongs to the database whose identity it holds, and to no other: of identities that
/// can be read, exactly the one with the same version and the same identifier is taken.
pub proof fn law_identity_of_another_database_is_refused(
    identity: DatabaseIdentity,
    database_format_version: u32,
    database_uuid: Seq<u8>,
)
    requires
        identity.readable(),
    ensures
        identity_refusal(identity.encoded(), database_format_version, database_uuid) is None
            <==> identity.database_format_version == database_format_version
            && identity.database_uuid@ == database_uuid,
        identity_refusal(identity.encoded(), database_format_version, database_uuid) matches Some(
            kind,
        ) ==> kind == StorageErrorKind::InvalidLayout,
{
    let b = identity.encoded();
    let other = choose|other: DatabaseIdentity|
        other.readable() && b == #[trigger] other.encoded();
    law_identity_round_trip(identity, other);
}

/// A recovery undoes downwards to its target and does nothing else before that: a state is good
/// exactly where the next commit to undo lies between the target and the head, everything is
/// undone once that phase is over, and what is to be cut off is cut off in its own phase.
pub proof fn law_recovery_undoes_first(state: RecoveryState)
    ensures
        state.valid() <==> {
            &&& state.target_seq <= state.next_undo_seq
            &&& state.next_undo_seq <= state.original_head
            &&& end_fits(state.target_seq, state.target_vlog_end)
            &&& state.phase != RecoveryPhase::Undo ==> state.next_undo_seq == state.target_seq
            &&& state.phase == RecoveryPhase::Trim ==> state.trim_required
            &&& state.phase == RecoveryPhase::Finalize ==> !state.trim_required
        },
{
}

/// Of every commit, it can be written down that it is durable, with any place where the log then
/// ends. Before the first commit the log has no end, and behind it it has one.
pub proof fn law_frontiers_of_every_commit(frontier: DurableFrontier)
    ensures
        frontier.valid() <==> match frontier.durable_vlog_end {
            DurableVLogEnd::Empty => frontier.durable_seq == 0,
            DurableVLogEnd::Position(end) => frontier.durable_seq > 0 && end.file_id <= 999_999
                && end.offset <= 4_294_967_296,
        },
{
}

/// A recovery can be written down at every commit from which it goes back to the one that it is
/// for. It cuts the log, or ends, only when it has arrived there, and cuts it only where that is
/// needed.
pub proof fn law_recovery_can_be_written_down(state: RecoveryState)
    ensures
        state.valid() ==> state.target_seq <= state.next_undo_seq && state.next_undo_seq
            <= state.original_head,
        state.valid() && state.phase != RecoveryPhase::Undo ==> state.next_undo_seq
            == state.target_seq,
        state.valid() ==> (state.phase == RecoveryPhase::Trim ==> state.trim_required) && (
        state.phase == RecoveryPhase::Finalize ==> !state.trim_required),
        state.valid() ==> (DurableFrontier {
            durable_seq: state.target_seq,
            durable_vlog_end: state.target_vlog_end,
        }).valid(),
        (DurableFrontier {
            durable_seq: state.target_seq,
            durable_vlog_end: state.target_vlog_end,
        }).valid() && state.target_seq <= state.next_undo_seq <= state.original_head
            && state.phase == RecoveryPhase::Undo ==> state.valid(),
        (DurableFrontier {
            durable_seq: state.target_seq,
            durable_vlog_end: state.target_vlog_end,
        }).valid() && state.target_seq == state.next_undo_seq <= state.original_head
            && state.phase == (if state.trim_required {
            RecoveryPhase::Trim
        } else {
            RecoveryPhase::Finalize
        }) ==> state.valid(),
{
}

/// An error about a record that was to be made, or that was read, is told as it is. What was to be
/// made is not committed, and is to be tried again as it is only where memory was exhausted.
pub proof fn law_errors_about_records(kind: StorageErrorKind)
    ensures
        metadata_encode_view(kind).kind == kind,
        metadata_encode_view(kind).operation == Operation::WriteBatch,
        metadata_encode_view(kind).write_outcome == Some(WriteOutcome::NotCommitted),
        metadata_encode_view(kind).protocol_stage == ProtocolStage::Preflight,
        metadata_encode_view(kind).retry_advice == RetryAdvice::RetrySameInstance <==> kind
            == StorageErrorKind::ResourceExhausted,
        metadata_encode_view(kind).retry_advice == RetryAdvice::FixRequestAndRetrySameInstance <==>
            kind != StorageErrorKind::ResourceExhausted,
        metadata_decode_view(kind).kind == kind,
        metadata_decode_view(kind).write_outcome is None,
        metadata_decode_view(kind).operation == Operation::Recovery,
        metadata_decode_view(kind).protocol_stage == ProtocolStage::Recovery,
        metadata_decode_view(kind).retry_advice == RetryAdvice::DoNotRetry <==> kind
            == StorageErrorKind::IncompatibleFormat,
        metadata_decode_view(kind).retry_advice == RetryAdvice::FixEnvironmentAndReopen <==> kind
            == StorageErrorKind::ResourceExhausted,
        kind != StorageErrorKind::IncompatibleFormat && kind != StorageErrorKind::ResourceExhausted
            ==> metadata_decode_view(kind).retry_advice == RetryAdvice::RestoreOrRepair,
{
}

/// An identity is good with any identifier, in the one version that there is. It can be read with
/// any version of the database.
pub proof fn law_identities_of_every_database(identity: DatabaseIdentity)
    ensures
        identity.valid() <==> identity.identity_format_version == 0
            && identity.keyspace_layout_version == 0 && identity.database_format_version == 0
            && is_identifier(identity.database_uuid@),
        identity.readable() <==> identity.identity_format_version == 0
            && identity.keyspace_layout_version == 0 && is_identifier(identity.database_uuid@),
{
}

} // verus!
