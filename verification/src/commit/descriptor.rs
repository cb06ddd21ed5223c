//! Transaction descriptors: which keys a commit changed, from which state to which.

use vstd::prelude::*;

use crate::batch::MAX_KEY_VALUE_SIZE;
use crate::bytes::{
    append_bytes, append_le, array_16, le_bytes, lemma_byte_limits, lemma_fixed_widths,
    lemma_le_bytes_len, lemma_written_number, read_u16, read_u32, read_u64, u16_at, u32_at, u64_at,
};
use crate::checksum::{crc32c_appended, crc32c_checksum, crc32c_extend, crc32c_of};
use crate::commit::metadata::{
    append_position, decode_tx_meta_key, decode_tx_mutation_key, encode_tx_meta_key,
    encode_tx_mutation_key, lemma_position, lemma_tx_meta_key, lemma_tx_mutation_key,
    metadata_decode_error, metadata_decode_view, metadata_encode_error, metadata_encode_view,
    position_at, position_bytes, read_position, tx_meta_key, tx_mutation_key, CommitSeq,
    FORMAT_VERSION,
};
use crate::error::{Result, StorageErrorKind};
use crate::key_index::KeyIndex;
use crate::memory::{asked, asked_within, Memory};
use crate::vlog::geometry::{position_before, VLogPosition};
use crate::vlog::header::{append_uuid, is_identifier, is_nonzero_uuid};
use crate::vlog::pointer::{lemma_pointer_layout, ValuePointer, VALUE_POINTER_ENCODED_LEN};

verus! {

pub const TX_META_ENCODED_LEN: usize = 86;

/// The length of the longest encoding of a changed key.
pub const MAX_TX_MUTATION_LEN: usize = 60_036;

/// `RKTM`, little-endian.
pub const TX_META_MAGIC: u32 = 0x4d54_4b52;

/// `RKDESC0`, little-endian.
pub const DESCRIPTOR_CRC_MAGIC: u64 = 0x30_4353_4544_4b52;

/// Whether a key has a value, and where.
#[derive(Clone, Copy, Debug, PartialEq, Eq, Structural)]
pub enum ValueState {
    Absent,
    Present(ValuePointer),
}

/// The head of a transaction.
#[derive(Clone, Copy, Debug)]
pub struct TxMeta {
    pub commit_seq: CommitSeq,
    pub tx_uuid: [u8; 16],
    pub prev_seq: CommitSeq,
    pub vlog_begin: VLogPosition,
    pub vlog_end: VLogPosition,
    pub logical_op_count: u64,
    pub distinct_key_count: u64,
    pub envelope_crc32c: u32,
    pub descriptor_crc32c: u32,
}

/// The head of a transaction, but for the checksum of its descriptor.
#[verifier::ext_equal]
pub struct MetaView {
    pub commit_seq: CommitSeq,
    pub tx_uuid: Seq<u8>,
    pub prev_seq: CommitSeq,
    pub vlog_begin: VLogPosition,
    pub vlog_end: VLogPosition,
    pub logical_op_count: u64,
    pub distinct_key_count: u64,
    pub envelope_crc32c: u32,
}

impl View for TxMeta {
    type V = MetaView;

    open spec fn view(&self) -> MetaView {
        MetaView {
            commit_seq: self.commit_seq,
            tx_uuid: self.tx_uuid@,
            prev_seq: self.prev_seq,
            vlog_begin: self.vlog_begin,
            vlog_end: self.vlog_end,
            logical_op_count: self.logical_op_count,
            distinct_key_count: self.distinct_key_count,
            envelope_crc32c: self.envelope_crc32c,
        }
    }
}

impl MetaView {
    pub open spec fn valid(self) -> bool {
        &&& self.commit_seq != 0
        &&& self.prev_seq == self.commit_seq - 1
        &&& is_identifier(self.tx_uuid)
        &&& self.vlog_begin.valid()
        &&& self.vlog_end.valid()
        &&& position_before(self.vlog_begin, self.vlog_end)
        &&& 0 < self.distinct_key_count <= self.logical_op_count
    }

    /// The head, encoded, but for the checksum of the descriptor.
    pub open spec fn front(self) -> Seq<u8> {
        le_bytes(TX_META_MAGIC as nat, 4) + le_bytes(FORMAT_VERSION as nat, 2) + le_bytes(
            self.commit_seq as nat,
            8,
        ) + self.tx_uuid + le_bytes(self.prev_seq as nat, 8) + position_bytes(self.vlog_begin)
            + position_bytes(self.vlog_end) + le_bytes(self.logical_op_count as nat, 8) + le_bytes(
            self.distinct_key_count as nat,
            8,
        ) + le_bytes(self.envelope_crc32c as nat, 4)
    }
}

/// The fields that an encoded head holds.
pub open spec fn meta_fields(b: Seq<u8>) -> MetaView {
    MetaView {
        commit_seq: u64_at(b, 6),
        tx_uuid: b.subrange(14, 30),
        prev_seq: u64_at(b, 30),
        vlog_begin: position_at(b, 38),
        vlog_end: position_at(b, 50),
        logical_op_count: u64_at(b, 62),
        distinct_key_count: u64_at(b, 70),
        envelope_crc32c: u32_at(b, 78),
    }
}

/// The head that bytes encode, or why they encode none.
pub open spec fn parsed_meta(b: Seq<u8>) -> std::result::Result<MetaView, StorageErrorKind> {
    if b.len() != TX_META_ENCODED_LEN || u32_at(b, 0) != TX_META_MAGIC {
        Err(StorageErrorKind::Corruption)
    } else if u16_at(b, 4) != FORMAT_VERSION {
        Err(StorageErrorKind::IncompatibleFormat)
    } else if !meta_fields(b).valid() {
        Err(StorageErrorKind::Corruption)
    } else {
        Ok(meta_fields(b))
    }
}

impl TxMeta {
    pub fn is_valid(&self) -> (valid: bool)
        ensures
            valid == self@.valid(),
    {
        self.commit_seq != 0 && self.prev_seq == self.commit_seq - 1 && is_nonzero_uuid(
            &self.tx_uuid,
        ) && self.vlog_begin.is_valid() && self.vlog_end.is_valid() && self.vlog_begin.before(
            self.vlog_end,
        ) && self.distinct_key_count != 0 && self.distinct_key_count <= self.logical_op_count
    }

    /// Encodes the head up to the checksum of the descriptor.
    fn encode_front(&self) -> (front: Vec<u8>)
        ensures
            front@ == self@.front(),
    {
        let mut out: Vec<u8> = Vec::new();
        append_le(&mut out, TX_META_MAGIC as u64, 4);
        append_le(&mut out, FORMAT_VERSION as u64, 2);
        append_le(&mut out, self.commit_seq, 8);
        append_uuid(&mut out, &self.tx_uuid);
        append_le(&mut out, self.prev_seq, 8);
        append_position(&mut out, self.vlog_begin);
        append_position(&mut out, self.vlog_end);
        append_le(&mut out, self.logical_op_count, 8);
        append_le(&mut out, self.distinct_key_count, 8);
        append_le(&mut out, self.envelope_crc32c as u64, 4);
        proof {
            assert(out@ =~= self@.front());
        }
        out
    }
}

pub fn encode_tx_meta(meta: &TxMeta) -> (result: Result<Vec<u8>>)
    ensures
        match result {
            Ok(encoded) => meta@.valid() && encoded@ == meta@.front() + le_bytes(
                meta.descriptor_crc32c as nat,
                4,
            ),
            Err(error) => !meta@.valid() && error@ == metadata_encode_view(
                StorageErrorKind::InvalidArgument,
            ),
        },
{
    if !meta.is_valid() {
        return Err(metadata_encode_error(StorageErrorKind::InvalidArgument));
    }
    let mut out = meta.encode_front();
    append_le(&mut out, meta.descriptor_crc32c as u64, 4);
    Ok(out)
}

pub fn decode_tx_meta(encoded: &[u8]) -> (result: Result<TxMeta>)
    ensures
        match parsed_meta(encoded@) {
            Ok(found) => result matches Ok(meta) && meta@ == found && meta.descriptor_crc32c
                == u32_at(encoded@, 82),
            Err(kind) => result matches Err(error) && error@ == metadata_decode_view(kind),
        },
{
    if encoded.len() != TX_META_ENCODED_LEN || read_u32(encoded, 0) != TX_META_MAGIC {
        return Err(metadata_decode_error(StorageErrorKind::Corruption));
    }
    if read_u16(encoded, 4) != FORMAT_VERSION {
        return Err(metadata_decode_error(StorageErrorKind::IncompatibleFormat));
    }
    let meta = TxMeta {
        commit_seq: read_u64(encoded, 6),
        tx_uuid: array_16(encoded, 14),
        prev_seq: read_u64(encoded, 30),
        vlog_begin: read_position(encoded, 38),
        vlog_end: read_position(encoded, 50),
        logical_op_count: read_u64(encoded, 62),
        distinct_key_count: read_u64(encoded, 70),
        envelope_crc32c: read_u32(encoded, 78),
        descriptor_crc32c: read_u32(encoded, 82),
    };
    proof {
        assert(meta@ =~= meta_fields(encoded@));
    }
    if !meta.is_valid() {
        return Err(metadata_decode_error(StorageErrorKind::Corruption));
    }
    Ok(meta)
}

/// A head and its encoding determine each other.
pub proof fn lemma_meta_layout(meta: MetaView, crc: Seq<u8>)
    requires
        meta.tx_uuid.len() == 16,
        crc.len() == 4,
    ensures
        meta.front().len() == 82,
        meta_fields(meta.front() + crc) == meta,
        u32_at(meta.front() + crc, 0) == TX_META_MAGIC,
        u16_at(meta.front() + crc, 4) == FORMAT_VERSION,
        (meta.front() + crc).subrange(82, 86) == crc,
        (meta.front() + crc).take(82) == meta.front(),
{
    let b = meta.front() + crc;
    lemma_byte_limits();
    lemma_le_bytes_len(TX_META_MAGIC as nat, 4);
    lemma_le_bytes_len(FORMAT_VERSION as nat, 2);
    lemma_le_bytes_len(meta.commit_seq as nat, 8);
    lemma_le_bytes_len(meta.prev_seq as nat, 8);
    lemma_le_bytes_len(meta.vlog_begin.file_id as nat, 4);
    lemma_le_bytes_len(meta.vlog_begin.offset as nat, 8);
    lemma_le_bytes_len(meta.vlog_end.file_id as nat, 4);
    lemma_le_bytes_len(meta.vlog_end.offset as nat, 8);
    lemma_le_bytes_len(meta.logical_op_count as nat, 8);
    lemma_le_bytes_len(meta.distinct_key_count as nat, 8);
    lemma_le_bytes_len(meta.envelope_crc32c as nat, 4);
    assert(b.subrange(0, 4) =~= le_bytes(TX_META_MAGIC as nat, 4));
    assert(b.subrange(4, 6) =~= le_bytes(FORMAT_VERSION as nat, 2));
    assert(b.subrange(6, 14) =~= le_bytes(meta.commit_seq as nat, 8));
    assert(b.subrange(14, 30) =~= meta.tx_uuid);
    assert(b.subrange(30, 38) =~= le_bytes(meta.prev_seq as nat, 8));
    assert(b.subrange(38, 50) =~= position_bytes(meta.vlog_begin));
    assert(b.subrange(50, 62) =~= position_bytes(meta.vlog_end));
    assert(b.subrange(62, 70) =~= le_bytes(meta.logical_op_count as nat, 8));
    assert(b.subrange(70, 78) =~= le_bytes(meta.distinct_key_count as nat, 8));
    assert(b.subrange(78, 82) =~= le_bytes(meta.envelope_crc32c as nat, 4));
    assert(b.subrange(82, 86) =~= crc);
    assert(b.take(82) =~= meta.front());
    lemma_written_number(b, 0, TX_META_MAGIC as nat, 4);
    lemma_written_number(b, 4, FORMAT_VERSION as nat, 2);
    lemma_written_number(b, 6, meta.commit_seq as nat, 8);
    lemma_written_number(b, 30, meta.prev_seq as nat, 8);
    lemma_position(b, 38);
    lemma_position(b, 50);
    lemma_written_number(b, 62, meta.logical_op_count as nat, 8);
    lemma_written_number(b, 70, meta.distinct_key_count as nat, 8);
    lemma_written_number(b, 78, meta.envelope_crc32c as nat, 4);
    assert(meta_fields(b) =~= meta);
}

/// A key that a commit changed.
#[derive(Debug)]
pub struct TxMutation {
    pub user_key: Vec<u8>,
    pub before_state: ValueState,
    pub after_state: ValueState,
}

/// A changed key as a mathematical value.
#[verifier::ext_equal]
pub struct MutationView {
    pub user_key: Seq<u8>,
    pub before_state: ValueState,
    pub after_state: ValueState,
}

impl View for TxMutation {
    type V = MutationView;

    open spec fn view(&self) -> MutationView {
        MutationView {
            user_key: self.user_key@,
            before_state: self.before_state,
            after_state: self.after_state,
        }
    }
}

/// The pointer of a state, if it has one, is to a record with a key of that length.
pub open spec fn state_fits(state: ValueState, key_len: nat) -> bool {
    match state {
        ValueState::Absent => true,
        ValueState::Present(pointer) => pointer.valid() && pointer.record_layout().key_len
            == key_len,
    }
}

pub open spec fn state_bytes(state: ValueState) -> Seq<u8> {
    match state {
        ValueState::Absent => seq![0u8],
        ValueState::Present(pointer) => seq![1u8] + pointer.encoded(),
    }
}

impl MutationView {
    pub open spec fn valid(self) -> bool {
        &&& 1 <= self.user_key.len() <= MAX_KEY_VALUE_SIZE
        &&& state_fits(self.before_state, self.user_key.len())
        &&& state_fits(self.after_state, self.user_key.len())
    }

    pub open spec fn encoded(self) -> Seq<u8> {
        le_bytes(self.user_key.len(), 2) + self.user_key + state_bytes(self.before_state)
            + state_bytes(self.after_state)
    }
}

/// The pointer whose fields some bytes hold.
pub open spec fn pointer_fields(b: Seq<u8>) -> ValuePointer {
    ValuePointer {
        format_version: u16_at(b, 0),
        file_id: u32_at(b, 2),
        record_offset: u32_at(b, 6),
        record_len: u32_at(b, 10),
        value_len: u16_at(b, 14),
    }
}

/// The state at the start of some bytes and its length, or why there is none.
pub open spec fn parsed_state(b: Seq<u8>) -> std::result::Result<
    (ValueState, nat),
    StorageErrorKind,
> {
    if b.len() == 0 || b[0] > 1 || (b[0] == 1 && b.len() < 17) {
        Err(StorageErrorKind::Corruption)
    } else if b[0] == 0 {
        Ok((ValueState::Absent, 1))
    } else {
        let pointer = pointer_fields(b.subrange(1, 17));
        match pointer.refusal() {
            Some(kind) => Err(kind),
            None => Ok((ValueState::Present(pointer), 17)),
        }
    }
}

/// An encoded changed key goes as far as its key, and the key is one that a user can have.
pub open spec fn holds_key(b: Seq<u8>) -> bool {
    b.len() >= 2 && 0 < u16_at(b, 0) <= MAX_KEY_VALUE_SIZE && b.len() >= 2 + u16_at(b, 0)
}

/// The changed key that bytes encode, or why they encode none.
pub open spec fn parsed_mutation(b: Seq<u8>) -> std::result::Result<
    MutationView,
    StorageErrorKind,
> {
    let key_len = u16_at(b, 0);
    if !holds_key(b) {
        Err(StorageErrorKind::Corruption)
    } else {
        match parsed_state(b.skip(2 + key_len)) {
            Err(kind) => Err(kind),
            Ok((before_state, before_len)) => match parsed_state(
                b.skip(2 + key_len + before_len),
            ) {
                Err(kind) => Err(kind),
                Ok((after_state, after_len)) => {
                    let mutation = MutationView {
                        user_key: b.subrange(2, 2 + key_len),
                        before_state,
                        after_state,
                    };
                    if 2 + key_len + before_len + after_len != b.len() || !mutation.valid() {
                        Err(StorageErrorKind::Corruption)
                    } else {
                        Ok(mutation)
                    }
                },
            },
        }
    }
}

fn is_fitting_state(state: ValueState, key_len: usize) -> (fits: bool)
    ensures
        fits == state_fits(state, key_len as nat),
{
    match state {
        ValueState::Absent => true,
        ValueState::Present(pointer) => match pointer.layout() {
            Ok(layout) => layout.key_len as usize == key_len,
            Err(_) => false,
        },
    }
}

fn state_encoded_len(state: ValueState) -> (length: usize)
    ensures
        length == (if state is Absent {
            1int
        } else {
            17int
        }),
{
    match state {
        ValueState::Absent => 1,
        ValueState::Present(_) => 17,
    }
}

fn append_state(out: &mut Vec<u8>, state: ValueState)
    requires
        state matches ValueState::Present(pointer) ==> pointer.valid(),
    ensures
        final(out)@ == old(out)@ + state_bytes(state),
{
    match state {
        ValueState::Absent => out.push(0),
        ValueState::Present(pointer) => {
            out.push(1);
            match pointer.encode() {
                Ok(encoded) => append_bytes(out, encoded.as_slice()),
                Err(_) => {},
            }
        },
    }
    proof {
        assert(out@ =~= old(out)@ + state_bytes(state));
    }
}

/// How long an encoded state is.
proof fn lemma_state_length(state: ValueState)
    ensures
        state_bytes(state).len() == (if state is Absent {
            1nat
        } else {
            17
        }),
{
    match state {
        ValueState::Absent => {},
        ValueState::Present(pointer) => lemma_pointer_layout(pointer),
    }
}

/// Encodes a changed key.
pub fn encode_tx_mutation(memory: &mut Memory, mutation: &TxMutation) -> (result: Result<Vec<u8>>)
    requires
        !old(memory).refused(),
    ensures
        final(memory).refused() ==> (result matches Err(error) && error@ == metadata_encode_view(
            StorageErrorKind::ResourceExhausted,
        )),
        !final(memory).refused() ==> match result {
            Ok(encoded) => mutation@.valid() && encoded@ == mutation@.encoded(),
            Err(error) => !mutation@.valid() && error@ == metadata_encode_view(
                StorageErrorKind::InvalidArgument,
            ),
        },
        if mutation@.valid() {
            asked(*old(memory), *final(memory), 1, mutation@.encoded().len())
        } else {
            *final(memory) == *old(memory)
        },
{
    let key_len: usize = mutation.user_key.len();
    if key_len == 0 || key_len > MAX_KEY_VALUE_SIZE || !is_fitting_state(
        mutation.before_state,
        key_len,
    ) || !is_fitting_state(mutation.after_state, key_len) {
        return Err(metadata_encode_error(StorageErrorKind::InvalidArgument));
    }
    let encoded_len: usize = 2 + key_len + state_encoded_len(mutation.before_state)
        + state_encoded_len(mutation.after_state);
    proof {
        lemma_le_bytes_len(key_len as nat, 2);
        lemma_state_length(mutation.before_state);
        lemma_state_length(mutation.after_state);
        assert(encoded_len == mutation@.encoded().len());
    }
    let mut encoded: Vec<u8> = Vec::new();
    if !memory.reserve_exact(&mut encoded, encoded_len) {
        return Err(metadata_encode_error(StorageErrorKind::ResourceExhausted));
    }
    append_le(&mut encoded, key_len as u64, 2);
    append_bytes(&mut encoded, mutation.user_key.as_slice());
    append_state(&mut encoded, mutation.before_state);
    append_state(&mut encoded, mutation.after_state);
    proof {
        assert(encoded@ =~= mutation@.encoded());
    }
    Ok(encoded)
}

/// The state at a place, and the place behind it.
fn read_state(bytes: &[u8], at: usize) -> (result: Result<(ValueState, usize)>)
    requires
        at <= bytes@.len(),
    ensures
        match parsed_state(bytes@.skip(at as int)) {
            Ok((state, length)) => result matches Ok(found) && found.0 == state && found.1 == at
                + length && found.1 <= bytes@.len(),
            Err(kind) => result matches Err(error) && error@ == metadata_decode_view(kind),
        },
{
    let ghost rest = bytes@.skip(at as int);
    let length: usize = bytes.len();
    if at >= length {
        return Err(metadata_decode_error(StorageErrorKind::Corruption));
    }
    let tag: u8 = bytes[at];
    proof {
        assert(rest[0] == tag);
    }
    if tag == 0 {
        return Ok((ValueState::Absent, at + 1));
    }
    if tag != 1 || length - at < 17 {
        return Err(metadata_decode_error(StorageErrorKind::Corruption));
    }
    let encoded = vstd::slice::slice_subrange(bytes, at + 1, at + 17);
    proof {
        assert(encoded@ =~= rest.subrange(1, 17));
        lemma_pointer_fields(encoded@);
    }
    match ValuePointer::decode(encoded) {
        Ok(pointer) => {
            proof {
                lemma_pointer_layout(pointer);
            }
            Ok((ValueState::Present(pointer), at + 17))
        },
        Err(error) => {
            let kind = match error.kind {
                StorageErrorKind::IncompatibleFormat => StorageErrorKind::IncompatibleFormat,
                _ => StorageErrorKind::Corruption,
            };
            proof {
                assert(pointer_fields(encoded@).encoded() == encoded@);
            }
            Err(metadata_decode_error(kind))
        },
    }
}

/// Bytes are the encoding of the pointer whose fields they hold.
proof fn lemma_pointer_fields(b: Seq<u8>)
    requires
        b.len() == VALUE_POINTER_ENCODED_LEN,
    ensures
        pointer_fields(b).encoded() == b,
{
    lemma_fixed_widths(b, 0);
    lemma_fixed_widths(b, 2);
    lemma_fixed_widths(b, 6);
    lemma_fixed_widths(b, 10);
    lemma_fixed_widths(b, 14);
    assert(b =~= b.subrange(0, 2) + b.subrange(2, 6) + b.subrange(6, 10) + b.subrange(10, 14)
        + b.subrange(14, 16));
}

/// Decodes a changed key.
pub fn decode_tx_mutation(memory: &mut Memory, encoded: &[u8]) -> (result: Result<TxMutation>)
    requires
        !old(memory).refused(),
    ensures
        final(memory).refused() ==> (result matches Err(error) && error@ == metadata_decode_view(
            StorageErrorKind::ResourceExhausted,
        )),
        !final(memory).refused() ==> match parsed_mutation(encoded@) {
            Ok(found) => result matches Ok(mutation) && mutation@ == found,
            Err(kind) => result matches Err(error) && error@ == metadata_decode_view(kind),
        },
        if holds_key(encoded@) {
            asked(*old(memory), *final(memory), 1, u16_at(encoded@, 0) as nat)
        } else {
            *final(memory) == *old(memory)
        },
{
    let length: usize = encoded.len();
    if length < 2 {
        return Err(metadata_decode_error(StorageErrorKind::Corruption));
    }
    let key_len: usize = read_u16(encoded, 0) as usize;
    if key_len == 0 || key_len > MAX_KEY_VALUE_SIZE || length < 2 + key_len {
        return Err(metadata_decode_error(StorageErrorKind::Corruption));
    }
    let key_end: usize = 2 + key_len;
    let key_bytes = vstd::slice::slice_subrange(encoded, 2, key_end);
    let user_key = match memory.copy(key_bytes) {
        Some(user_key) => user_key,
        None => return Err(metadata_decode_error(StorageErrorKind::ResourceExhausted)),
    };
    let (before_state, after_start) = read_state(encoded, key_end)?;
    let (after_state, consumed) = read_state(encoded, after_start)?;
    let mutation = TxMutation { user_key, before_state, after_state };
    proof {
        assert(mutation@.user_key =~= encoded@.subrange(2, 2 + key_len));
    }
    if consumed != length || !is_fitting_state(before_state, key_len) || !is_fitting_state(
        after_state,
        key_len,
    ) {
        return Err(metadata_decode_error(StorageErrorKind::Corruption));
    }
    Ok(mutation)
}

/// A state is found again at the start of what it was encoded to.
proof fn lemma_state_round_trip(state: ValueState, tail: Seq<u8>)
    requires
        state matches ValueState::Present(pointer) ==> pointer.valid(),
    ensures
        parsed_state(state_bytes(state) + tail) == Ok::<(ValueState, nat), StorageErrorKind>(
            (state, state_bytes(state).len()),
        ),
{
    let b = state_bytes(state) + tail;
    assert(b[0] == state_bytes(state)[0]);
    match state {
        ValueState::Absent => {},
        ValueState::Present(pointer) => {
            lemma_pointer_layout(pointer);
            assert(b.subrange(1, 17) =~= pointer.encoded());
        },
    }
}

/// A parsed state encodes to the bytes that it was parsed from.
proof fn lemma_parsed_state(b: Seq<u8>)
    requires
        parsed_state(b) is Ok,
    ensures
        ({
            let (state, length) = parsed_state(b)->Ok_0;
            &&& length <= b.len()
            &&& b.take(length as int) == state_bytes(state)
            &&& state_bytes(state).len() == length
            &&& state matches ValueState::Present(pointer) ==> pointer.valid()
        }),
{
    let (state, length) = parsed_state(b)->Ok_0;
    if b[0] == 1 {
        lemma_pointer_fields(b.subrange(1, 17));
        assert(b.take(17) =~= seq![1u8] + b.subrange(1, 17));
    } else {
        assert(b.take(1) =~= seq![0u8]);
    }
}

/// What is read from an encoded changed key is what was written.
pub proof fn law_mutation_round_trip(mutation: MutationView)
    requires
        mutation.valid(),
    ensures
        parsed_mutation(mutation.encoded()) == Ok::<MutationView, StorageErrorKind>(mutation),
{
    let b = mutation.encoded();
    let key_len = mutation.user_key.len();
    let front = le_bytes(key_len, 2) + mutation.user_key;
    lemma_byte_limits();
    lemma_le_bytes_len(key_len, 2);
    assert(b.subrange(0, 2) =~= le_bytes(key_len, 2));
    lemma_written_number(b, 0, key_len, 2);
    let before = state_bytes(mutation.before_state);
    let after = state_bytes(mutation.after_state);
    assert(b.skip(2 + key_len as int) =~= before + after);
    assert(b.skip(2 + key_len as int + before.len()) =~= after + Seq::empty());
    lemma_state_round_trip(mutation.before_state, after);
    lemma_state_round_trip(mutation.after_state, Seq::empty());
    assert(b.subrange(2, 2 + key_len as int) =~= mutation.user_key);
}

/// A parsed changed key encodes to the bytes that it was parsed from.
pub proof fn lemma_parsed_mutation(b: Seq<u8>)
    requires
        parsed_mutation(b) is Ok,
    ensures
        (parsed_mutation(b)->Ok_0).valid(),
        (parsed_mutation(b)->Ok_0).encoded() == b,
{
    let mutation = parsed_mutation(b)->Ok_0;
    let key_len = u16_at(b, 0) as int;
    let rest = b.skip(2 + key_len);
    let (before_state, before_len) = parsed_state(rest)->Ok_0;
    let last = b.skip(2 + key_len + before_len);
    lemma_fixed_widths(b, 0);
    lemma_parsed_state(rest);
    lemma_parsed_state(last);
    let (after_state, after_len) = parsed_state(last)->Ok_0;
    assert(last.take(after_len as int) =~= last);
    assert(b =~= b.subrange(0, 2) + b.subrange(2, 2 + key_len) + rest.take(before_len as int)
        + last);
    assert(mutation.encoded() =~= b);
}

/// The length of an encoded changed key.
pub proof fn lemma_mutation_length(mutation: MutationView)
    requires
        mutation.valid(),
    ensures
        mutation.encoded().len() <= 2 + MAX_KEY_VALUE_SIZE + 34,
{
    lemma_le_bytes_len(mutation.user_key.len(), 2);
    match mutation.before_state {
        ValueState::Absent => {},
        ValueState::Present(pointer) => lemma_pointer_layout(pointer),
    }
    match mutation.after_state {
        ValueState::Absent => {},
        ValueState::Present(pointer) => lemma_pointer_layout(pointer),
    }
}

/// A transaction: its head and the keys that it changed.
#[derive(Debug)]
pub struct TransactionDescriptor {
    pub meta: TxMeta,
    pub mutations: Vec<TxMutation>,
}

/// A transaction as a mathematical value.
#[verifier::ext_equal]
pub struct DescriptorView {
    pub meta: MetaView,
    pub mutations: Seq<MutationView>,
}

pub open spec fn mutation_views(mutations: Seq<TxMutation>) -> Seq<MutationView> {
    Seq::new(mutations.len(), |i: int| mutations[i]@)
}

impl View for TransactionDescriptor {
    type V = DescriptorView;

    open spec fn view(&self) -> DescriptorView {
        DescriptorView { meta: self.meta@, mutations: mutation_views(self.mutations@) }
    }
}

/// Some key occurs among the first changed keys.
pub open spec fn changes_key(mutations: Seq<MutationView>, key: Seq<u8>) -> bool {
    exists|i: int| 0 <= i < mutations.len() && (#[trigger] mutations[i]).user_key == key
}

/// No key occurs twice.
pub open spec fn keys_distinct(mutations: Seq<MutationView>) -> bool {
    forall|i: int, j: int|
        0 <= i < j < mutations.len() ==> (#[trigger] mutations[i]).user_key != (
        #[trigger] mutations[j]).user_key
}

impl DescriptorView {
    pub open spec fn valid(self) -> bool {
        &&& self.meta.valid()
        &&& self.meta.distinct_key_count == self.mutations.len()
        &&& forall|i: int| 0 <= i < self.mutations.len() ==> (#[trigger] self.mutations[i]).valid()
        &&& keys_distinct(self.mutations)
    }

    /// The head is a good one, and says how many keys are changed.
    pub open spec fn headed(self) -> bool {
        &&& self.meta.valid()
        &&& self.meta.distinct_key_count == self.mutations.len()
        &&& self.meta.distinct_key_count <= usize::MAX
    }

    /// The entries that are kept for the changed keys.
    pub open spec fn entries(self) -> Seq<EntryView> {
        Seq::new(
            self.mutations.len(),
            |i: int|
                EntryView {
                    key: tx_mutation_key(self.meta.commit_seq, i as u64),
                    value: self.mutations[i].encoded(),
                },
        )
    }

    pub open spec fn checksum(self) -> u32 {
        descriptor_checksum(self.meta.front(), self.entries())
    }

    pub open spec fn encoded(self) -> EncodedView {
        EncodedView {
            meta_key: tx_meta_key(self.meta.commit_seq),
            meta_value: self.meta.front() + le_bytes(self.checksum() as nat, 4),
            mutations: self.entries(),
        }
    }
}

/// An entry of the index, by its key.
#[derive(Clone, Debug)]
pub struct IndexEntry {
    pub key: Vec<u8>,
    pub value: Vec<u8>,
}

#[verifier::ext_equal]
pub struct EntryView {
    pub key: Seq<u8>,
    pub value: Seq<u8>,
}

impl View for IndexEntry {
    type V = EntryView;

    open spec fn view(&self) -> EntryView {
        EntryView { key: self.key@, value: self.value@ }
    }
}

pub open spec fn entry_views(entries: Seq<IndexEntry>) -> Seq<EntryView> {
    Seq::new(entries.len(), |i: int| entries[i]@)
}

/// Everything that the index keeps of a transaction.
#[derive(Clone, Debug)]
pub struct EncodedDescriptor {
    pub meta_key: Vec<u8>,
    pub meta_value: Vec<u8>,
    pub mutations: Vec<IndexEntry>,
}

#[verifier::ext_equal]
pub struct EncodedView {
    pub meta_key: Seq<u8>,
    pub meta_value: Seq<u8>,
    pub mutations: Seq<EntryView>,
}

impl View for EncodedDescriptor {
    type V = EncodedView;

    open spec fn view(&self) -> EncodedView {
        EncodedView {
            meta_key: self.meta_key@,
            meta_value: self.meta_value@,
            mutations: entry_views(self.mutations@),
        }
    }
}

/// The checksum over the front of a head and over entries, each with the length of its value.
pub open spec fn descriptor_checksum(front: Seq<u8>, entries: Seq<EntryView>) -> u32
    decreases entries.len(),
{
    if entries.len() == 0 {
        crc32c_appended(crc32c_of(le_bytes(DESCRIPTOR_CRC_MAGIC as nat, 7)), front)
    } else {
        extended_checksum(descriptor_checksum(front, entries.drop_last()), entries.last())
    }
}

/// A checksum carried on over an entry.
pub open spec fn extended_checksum(checksum: u32, entry: EntryView) -> u32 {
    crc32c_appended(
        crc32c_appended(
            crc32c_appended(checksum, entry.key),
            le_bytes(entry.value.len(), 4),
        ),
        entry.value,
    )
}

fn start_checksum(front: &[u8]) -> (checksum: u32)
    ensures
        checksum == descriptor_checksum(front@, Seq::empty()),
{
    let mut magic: Vec<u8> = Vec::new();
    append_le(&mut magic, DESCRIPTOR_CRC_MAGIC, 7);
    proof {
        assert(magic@ =~= le_bytes(DESCRIPTOR_CRC_MAGIC as nat, 7));
    }
    let checksum = crc32c_checksum(magic.as_slice());
    crc32c_extend(checksum, front)
}

fn extend_checksum(checksum: u32, key: &[u8], value: &[u8]) -> (extended: u32)
    requires
        value@.len() <= u32::MAX,
    ensures
        extended == extended_checksum(checksum, EntryView { key: key@, value: value@ }),
{
    let mut length: Vec<u8> = Vec::new();
    append_le(&mut length, value.len() as u64, 4);
    proof {
        assert(length@ =~= le_bytes(value@.len(), 4));
    }
    let with_key = crc32c_extend(checksum, key);
    let with_length = crc32c_extend(with_key, length.as_slice());
    crc32c_extend(with_length, value)
}

/// What encoding a transaction gives.
pub open spec fn encoding(descriptor: DescriptorView) -> std::result::Result<
    EncodedView,
    StorageErrorKind,
> {
    if descriptor.meta.distinct_key_count > usize::MAX {
        Err(StorageErrorKind::CapacityExceeded)
    } else if !descriptor.valid() {
        Err(StorageErrorKind::InvalidArgument)
    } else {
        Ok(descriptor.encoded())
    }
}

/// Encodes a transaction.
pub fn encode_descriptor(memory: &mut Memory, descriptor: &TransactionDescriptor) -> (result: Result<
    EncodedDescriptor,
>)
    requires
        !old(memory).refused(),
    ensures
        final(memory).refused() ==> (result matches Err(error) && error@ == metadata_encode_view(
            StorageErrorKind::ResourceExhausted,
        )),
        !final(memory).refused() ==> match encoding(descriptor@) {
            Ok(encoded) => result matches Ok(made) && made@ == encoded,
            Err(kind) => result matches Err(error) && error@ == metadata_encode_view(kind),
        },
        if descriptor@.headed() {
            &&& asked_within(
                *old(memory),
                *final(memory),
                3 + descriptor@.mutations.len(),
                descriptor@.mutations.len() + MAX_TX_MUTATION_LEN as nat,
            )
            &&& descriptor@.valid() ==> asked(
                *old(memory),
                *final(memory),
                3 + descriptor@.mutations.len(),
                descriptor@.mutations.len() + MAX_TX_MUTATION_LEN as nat,
            )
        } else {
            *final(memory) == *old(memory)
        },
{
    let ghost view = descriptor@;
    let count: usize = descriptor.mutations.len();
    if descriptor.meta.distinct_key_count > usize::MAX as u64 {
        return Err(metadata_encode_error(StorageErrorKind::CapacityExceeded));
    }
    if descriptor.meta.distinct_key_count != count as u64 || !descriptor.meta.is_valid() {
        return Err(metadata_encode_error(StorageErrorKind::InvalidArgument));
    }
    let mut seen = match KeyIndex::reserved(memory, count) {
        Some(seen) => seen,
        None => return Err(metadata_encode_error(StorageErrorKind::ResourceExhausted)),
    };
    let mut entries: Vec<IndexEntry> = Vec::new();
    if !memory.reserve_exact(&mut entries, count) {
        return Err(metadata_encode_error(StorageErrorKind::ResourceExhausted));
    }
    let front = descriptor.meta.encode_front();
    let mut checksum: u32 = start_checksum(front.as_slice());
    let mut index: usize = 0;
    proof {
        assert(entry_views(entries@) =~= view.entries().take(0));
        assert(view.entries().take(0) =~= Seq::empty());
    }
    while index < count
        invariant
            !old(memory).refused(),
            view.headed(),
            asked(
                *old(memory),
                *memory,
                3 + index as nat,
                view.mutations.len() + MAX_TX_MUTATION_LEN as nat,
            ),
            index <= count,
            count == descriptor.mutations@.len(),
            view == descriptor@,
            view.meta.valid(),
            view.meta.distinct_key_count == view.mutations.len(),
            view.meta.distinct_key_count <= usize::MAX,
            !memory.refused(),
            front@ == view.meta.front(),
            entry_views(entries@) == view.entries().take(index as int),
            checksum == descriptor_checksum(front@, view.entries().take(index as int)),
            forall|i: int| 0 <= i < index ==> (#[trigger] view.mutations[i]).valid(),
            keys_distinct(view.mutations.take(index as int)),
            forall|key: Seq<u8>| #[trigger]
                seen@.dom().contains(key) == changes_key(view.mutations.take(index as int), key),
        decreases count - index,
    {
        let mutation = &descriptor.mutations[index];
        proof {
            assert(view.mutations[index as int] == mutation@);
            lemma_next_key(view.mutations, index as int);
        }
        if !seen.insert(mutation.user_key.as_slice(), index) {
            proof {
                lemma_repeated_key(view.mutations, index as int);
            }
            return Err(metadata_encode_error(StorageErrorKind::InvalidArgument));
        }
        let key = encode_tx_mutation_key(descriptor.meta.commit_seq, index as u64)?;
        proof {
            if mutation@.valid() {
                lemma_mutation_length(mutation@);
            }
        }
        let value = encode_tx_mutation(memory, mutation)?;
        proof {
            assert(view.entries()[index as int] == (EntryView { key: key@, value: value@ }));
            assert(view.entries().take(index + 1).drop_last() =~= view.entries().take(
                index as int,
            ));
        }
        checksum = extend_checksum(checksum, key.as_slice(), value.as_slice());
        entries.push(IndexEntry { key, value });
        index = index + 1;
        proof {
            assert(entry_views(entries@) =~= view.entries().take(index as int));
        }
    }
    proof {
        assert(view.entries().take(count as int) =~= view.entries());
        assert(view.mutations.take(count as int) =~= view.mutations);
    }
    let meta_key = encode_tx_meta_key(descriptor.meta.commit_seq)?;
    let mut meta_value = front;
    append_le(&mut meta_value, checksum as u64, 4);
    Ok(EncodedDescriptor { meta_key, meta_value, mutations: entries })
}

/// One more key keeps the keys distinct exactly if it is new.
proof fn lemma_next_key(mutations: Seq<MutationView>, i: int)
    requires
        0 <= i < mutations.len(),
        keys_distinct(mutations.take(i)),
    ensures
        forall|key: Seq<u8>| #[trigger]
            changes_key(mutations.take(i + 1), key) == (changes_key(mutations.take(i), key) || key
                == mutations[i].user_key),
        !changes_key(mutations.take(i), mutations[i].user_key) ==> keys_distinct(
            mutations.take(i + 1),
        ),
{
    let front = mutations.take(i);
    let next = mutations.take(i + 1);
    assert forall|key: Seq<u8>| #[trigger]
        changes_key(next, key) == (changes_key(front, key) || key == mutations[i].user_key) by {
        if changes_key(next, key) {
            let k = choose|k: int| 0 <= k < next.len() && (#[trigger] next[k]).user_key == key;
            if k < i {
                assert(front[k].user_key == key);
            }
        }
        if changes_key(front, key) {
            let k = choose|k: int| 0 <= k < front.len() && (#[trigger] front[k]).user_key == key;
            assert(next[k].user_key == key);
        }
        if key == mutations[i].user_key {
            assert(next[i].user_key == key);
        }
    }
    if !changes_key(front, mutations[i].user_key) {
        assert forall|a: int, b: int| 0 <= a < b < next.len() implies (#[trigger] next[a]).user_key
            != (#[trigger] next[b]).user_key by {
            assert(front[a] == next[a]);
            if b < i {
                assert(front[b] == next[b]);
            }
        }
    }
}

/// A key that occurs again makes the keys not distinct.
proof fn lemma_repeated_key(mutations: Seq<MutationView>, i: int)
    requires
        0 <= i < mutations.len(),
        changes_key(mutations.take(i), mutations[i].user_key),
    ensures
        !keys_distinct(mutations),
{
    let k = choose|k: int|
        0 <= k < mutations.take(i).len() && (#[trigger] mutations.take(i)[k]).user_key
            == mutations[i].user_key;
    assert(mutations[k].user_key == mutations[i].user_key);
}

/// The changed key that an entry encodes, or why it encodes none.
pub open spec fn parsed_entry(commit_seq: CommitSeq, ordinal: u64, entry: EntryView) -> std::result::Result<
    MutationView,
    StorageErrorKind,
> {
    if entry.key != tx_mutation_key(commit_seq, ordinal) {
        Err(StorageErrorKind::Corruption)
    } else {
        parsed_mutation(entry.value)
    }
}

fn decode_entry(
    memory: &mut Memory,
    commit_seq: CommitSeq,
    ordinal: u64,
    entry: &IndexEntry,
) -> (result: Result<TxMutation>)
    requires
        !old(memory).refused(),
        commit_seq != 0,
    ensures
        final(memory).refused() ==> (result matches Err(error) && error@ == metadata_decode_view(
            StorageErrorKind::ResourceExhausted,
        )),
        !final(memory).refused() ==> match parsed_entry(commit_seq, ordinal, entry@) {
            Ok(found) => result matches Ok(mutation) && mutation@ == found,
            Err(kind) => result matches Err(error) && error@ == metadata_decode_view(kind),
        },
        asked_within(*old(memory), *final(memory), 1, MAX_KEY_VALUE_SIZE as nat),
        parsed_entry(commit_seq, ordinal, entry@) is Ok ==> asked(
            *old(memory),
            *final(memory),
            1,
            MAX_KEY_VALUE_SIZE as nat,
        ),
        entry@.key != tx_mutation_key(commit_seq, ordinal) ==> *final(memory) == *old(memory),
{
    let found = decode_tx_mutation_key(entry.key.as_slice())?;
    proof {
        lemma_tx_mutation_key(found.0, found.1);
        lemma_tx_mutation_key(commit_seq, ordinal);
    }
    if found.0 != commit_seq || found.1 != ordinal {
        return Err(metadata_decode_error(StorageErrorKind::Corruption));
    }
    decode_tx_mutation(memory, entry.value.as_slice())
}

/// One more changed key changes one key more.
proof fn lemma_pushed_key(before: Seq<MutationView>, mutation: MutationView)
    ensures
        forall|k: Seq<u8>| #[trigger]
            changes_key(before.push(mutation), k) == (changes_key(before, k) || k
                == mutation.user_key),
{
    let after = before.push(mutation);
    assert forall|k: Seq<u8>| #[trigger]
        changes_key(after, k) == (changes_key(before, k) || k == mutation.user_key) by {
        if changes_key(before, k) {
            let i = choose|i: int| 0 <= i < before.len() && (#[trigger] before[i]).user_key == k;
            assert(after[i].user_key == k);
        }
        if k == mutation.user_key {
            assert(after[before.len() as int].user_key == k);
        }
        if changes_key(after, k) {
            let i = choose|i: int| 0 <= i < after.len() && (#[trigger] after[i]).user_key == k;
            if i < before.len() {
                assert(before[i].user_key == k);
            }
        }
    }
}

/// The changed keys that the first entries encode, or why they encode none.
pub open spec fn parsed_entries(commit_seq: CommitSeq, entries: Seq<EntryView>, count: int) -> std::result::Result<
    Seq<MutationView>,
    StorageErrorKind,
>
    decreases count,
{
    if count <= 0 {
        Ok(Seq::empty())
    } else {
        match parsed_entries(commit_seq, entries, count - 1) {
            Err(kind) => Err(kind),
            Ok(found) => {
                match parsed_entry(commit_seq, (count - 1) as u64, entries[count - 1]) {
                    Err(kind) => Err(kind),
                    Ok(mutation) => if changes_key(found, mutation.user_key) {
                        Err(StorageErrorKind::Corruption)
                    } else {
                        Ok(found.push(mutation))
                    },
                }
            },
        }
    }
}

/// Bytes are the key of the head of some transaction.
pub open spec fn is_meta_key(b: Seq<u8>) -> bool {
    exists|commit_seq: CommitSeq| commit_seq != 0 && b == #[trigger] tx_meta_key(commit_seq)
}

impl EncodedView {
    /// The head is a good one, lies under its key, and says how many entries there are.
    pub open spec fn headed(self) -> bool {
        &&& is_meta_key(self.meta_key)
        &&& parsed_meta(self.meta_value) matches Ok(meta) && self.meta_key == tx_meta_key(
            meta.commit_seq,
        ) && self.mutations.len() == meta.distinct_key_count
    }
}

/// The transaction that entries of the index encode, or why they encode none.
pub open spec fn parsed_descriptor(encoded: EncodedView) -> std::result::Result<
    DescriptorView,
    StorageErrorKind,
> {
    if !is_meta_key(encoded.meta_key) {
        Err(StorageErrorKind::Corruption)
    } else {
        match parsed_meta(encoded.meta_value) {
            Err(kind) => Err(kind),
            Ok(meta) => if encoded.meta_key != tx_meta_key(meta.commit_seq)
                || encoded.mutations.len() != meta.distinct_key_count {
                Err(StorageErrorKind::Corruption)
            } else {
                match parsed_entries(
                    meta.commit_seq,
                    encoded.mutations,
                    encoded.mutations.len() as int,
                ) {
                    Err(kind) => Err(kind),
                    Ok(mutations) => if descriptor_checksum(
                        encoded.meta_value.take(82),
                        encoded.mutations,
                    ) != u32_at(encoded.meta_value, 82) {
                        Err(StorageErrorKind::Corruption)
                    } else {
                        Ok(DescriptorView { meta, mutations })
                    },
                }
            },
        }
    }
}

/// Decodes the entries of a transaction, and sums them up behind the front of its head.
fn decode_entries(
    memory: &mut Memory,
    commit_seq: CommitSeq,
    front: &[u8],
    entries: &[IndexEntry],
) -> (result: Result<(Vec<TxMutation>, u32)>)
    requires
        !old(memory).refused(),
        commit_seq != 0,
    ensures
        final(memory).refused() ==> (result matches Err(error) && error@ == metadata_decode_view(
            StorageErrorKind::ResourceExhausted,
        )),
        !final(memory).refused() ==> match parsed_entries(
            commit_seq,
            entry_views(entries@),
            entries@.len() as int,
        ) {
            Ok(found) => result matches Ok(decoded) && mutation_views(decoded.0@) == found
                && decoded.1 == descriptor_checksum(front@, entry_views(entries@)),
            Err(kind) => result matches Err(error) && error@ == metadata_decode_view(kind),
        },
        asked_within(
            *old(memory),
            *final(memory),
            3 + entries@.len(),
            entries@.len() + MAX_KEY_VALUE_SIZE as nat,
        ),
        parsed_entries(commit_seq, entry_views(entries@), entries@.len() as int) is Ok ==> asked(
            *old(memory),
            *final(memory),
            3 + entries@.len(),
            entries@.len() + MAX_KEY_VALUE_SIZE as nat,
        ),
{
    let ghost view = entry_views(entries@);
    let count: usize = entries.len();
    let mut seen = match KeyIndex::reserved(memory, count) {
        Some(seen) => seen,
        None => return Err(metadata_decode_error(StorageErrorKind::ResourceExhausted)),
    };
    let mut mutations: Vec<TxMutation> = Vec::new();
    if !memory.reserve_exact(&mut mutations, count) {
        return Err(metadata_decode_error(StorageErrorKind::ResourceExhausted));
    }
    proof {
        assert(mutation_views(mutations@) =~= Seq::empty());
        assert(view.take(0) =~= Seq::empty());
    }
    let mut checksum: u32 = start_checksum(front);
    let mut index: usize = 0;
    while index < count
        invariant
            !old(memory).refused(),
            asked(
                *old(memory),
                *memory,
                3 + index as nat,
                entries@.len() + MAX_KEY_VALUE_SIZE as nat,
            ),
            index <= count,
            count == entries@.len(),
            view == entry_views(entries@),
            !memory.refused(),
            commit_seq != 0,
            parsed_entries(commit_seq, view, index as int) == Ok::<
                Seq<MutationView>,
                StorageErrorKind,
            >(mutation_views(mutations@)),
            checksum == descriptor_checksum(front@, view.take(index as int)),
            forall|key: Seq<u8>| #[trigger]
                seen@.dom().contains(key) == changes_key(mutation_views(mutations@), key),
        decreases count - index,
    {
        let entry = &entries[index];
        proof {
            assert(view[index as int] == entry@);
            lemma_entries_stop(commit_seq, view, index as int, count as int);
        }
        let mutation = decode_entry(memory, commit_seq, index as u64, entry)?;
        let value = entry.value.as_slice();
        proof {
            lemma_parsed_mutation(value@);
            lemma_mutation_length(mutation@);
            lemma_mutation_key(value@);
        }
        let key_end: usize = 2 + mutation.user_key.len();
        let key = vstd::slice::slice_subrange(value, 2, key_end);
        if !seen.insert(key, index) {
            return Err(metadata_decode_error(StorageErrorKind::Corruption));
        }
        checksum = extend_checksum(checksum, entry.key.as_slice(), value);
        let ghost before = mutation_views(mutations@);
        let ghost last = mutation@;
        mutations.push(mutation);
        proof {
            assert(mutation_views(mutations@) =~= before.push(last));
            lemma_pushed_key(before, last);
            assert(view.take(index + 1).drop_last() =~= view.take(index as int));
        }
        index = index + 1;
    }
    proof {
        assert(view.take(count as int) =~= view);
    }
    Ok((mutations, checksum))
}

/// Decodes a transaction.
pub fn decode_descriptor(
    memory: &mut Memory,
    meta_key: &[u8],
    meta_value: &[u8],
    entries: &[IndexEntry],
) -> (result: Result<TransactionDescriptor>)
    requires
        !old(memory).refused(),
    ensures
        final(memory).refused() ==> (result matches Err(error) && error@ == metadata_decode_view(
            StorageErrorKind::ResourceExhausted,
        )),
        !final(memory).refused() ==> match parsed_descriptor(
            EncodedView {
                meta_key: meta_key@,
                meta_value: meta_value@,
                mutations: entry_views(entries@),
            },
        ) {
            Ok(found) => result matches Ok(descriptor) && descriptor@ == found
                && descriptor.meta.descriptor_crc32c == u32_at(meta_value@, 82),
            Err(kind) => result matches Err(error) && error@ == metadata_decode_view(kind),
        },
        ({
            let encoded = EncodedView {
                meta_key: meta_key@,
                meta_value: meta_value@,
                mutations: entry_views(entries@),
            };
            let most = entries@.len() + MAX_KEY_VALUE_SIZE as nat;
            if encoded.headed() {
                &&& asked_within(*old(memory), *final(memory), 3 + entries@.len(), most)
                &&& parsed_descriptor(encoded) is Ok ==> asked(
                    *old(memory),
                    *final(memory),
                    3 + entries@.len(),
                    most,
                )
            } else {
                *final(memory) == *old(memory)
            }
        }),
{
    let key_commit_seq: u64 = decode_tx_meta_key(meta_key)?;
    proof {
        assert(meta_key@ == tx_meta_key(key_commit_seq));
        lemma_tx_meta_key(key_commit_seq);
    }
    let meta = decode_tx_meta(meta_value)?;
    proof {
        lemma_tx_meta_key(meta.commit_seq);
    }
    if key_commit_seq != meta.commit_seq || entries.len() as u64 != meta.distinct_key_count {
        return Err(metadata_decode_error(StorageErrorKind::Corruption));
    }
    let front = vstd::slice::slice_subrange(meta_value, 0, 82);
    proof {
        assert(front@ =~= meta_value@.take(82));
    }
    let (mutations, checksum) = decode_entries(memory, meta.commit_seq, front, entries)?;
    if checksum != meta.descriptor_crc32c {
        return Err(metadata_decode_error(StorageErrorKind::Corruption));
    }
    Ok(TransactionDescriptor { meta, mutations })
}

/// Where a changed key has its key.
proof fn lemma_mutation_key(b: Seq<u8>)
    requires
        parsed_mutation(b) is Ok,
    ensures
        ({
            let key = (parsed_mutation(b)->Ok_0).user_key;
            2 + key.len() <= b.len() && b.subrange(2, 2 + key.len() as int) == key
        }),
{
}

/// Entries that are bad up to a place are bad.
proof fn lemma_entries_stop(commit_seq: CommitSeq, entries: Seq<EntryView>, index: int, count: int)
    requires
        0 <= index < count <= entries.len(),
    ensures
        parsed_entries(commit_seq, entries, index + 1) is Err ==> parsed_entries(
            commit_seq,
            entries,
            count,
        ) == parsed_entries(commit_seq, entries, index + 1),
    decreases count - index,
{
    if index + 1 < count {
        lemma_entries_stop(commit_seq, entries, index + 1, count);
    }
}

/// An entry of a transaction parses to the key that it changes.
proof fn lemma_entry_round_trip(descriptor: DescriptorView, i: int)
    requires
        descriptor.valid(),
        0 <= i < descriptor.mutations.len(),
    ensures
        parsed_entry(descriptor.meta.commit_seq, i as u64, descriptor.entries()[i]) == Ok::<
            MutationView,
            StorageErrorKind,
        >(descriptor.mutations[i]),
{
    let mutation = descriptor.mutations[i];
    assert(mutation.valid());
    law_mutation_round_trip(mutation);
    assert(descriptor.entries()[i] == (EntryView {
        key: tx_mutation_key(descriptor.meta.commit_seq, i as u64),
        value: mutation.encoded(),
    }));
}

/// An entry parses to a changed key.
#[verifier::opaque]
spec fn parses_to(
    commit_seq: CommitSeq,
    entries: Seq<EntryView>,
    i: int,
    mutation: MutationView,
) -> bool {
    parsed_entry(commit_seq, i as u64, entries[i]) == Ok::<MutationView, StorageErrorKind>(mutation)
}

/// The first entries parse to changed keys.
#[verifier::opaque]
spec fn all_parse_to(
    commit_seq: CommitSeq,
    entries: Seq<EntryView>,
    found: Seq<MutationView>,
) -> bool {
    parsed_entries(commit_seq, entries, found.len() as int) == Ok::<
        Seq<MutationView>,
        StorageErrorKind,
    >(found)
}

/// One more entry that parses, of a key that was not changed yet, parses behind the others.
proof fn lemma_entries_step(
    commit_seq: CommitSeq,
    entries: Seq<EntryView>,
    found: Seq<MutationView>,
    mutation: MutationView,
)
    requires
        all_parse_to(commit_seq, entries, found),
        parses_to(commit_seq, entries, found.len() as int, mutation),
        !changes_key(found, mutation.user_key),
    ensures
        all_parse_to(commit_seq, entries, found.push(mutation)),
{
    reveal(parses_to);
    reveal(all_parse_to);
}

/// Entries that each parse, of distinct keys, parse together.
proof fn lemma_entries_parse(
    commit_seq: CommitSeq,
    entries: Seq<EntryView>,
    mutations: Seq<MutationView>,
    count: int,
)
    requires
        0 <= count <= mutations.len(),
        keys_distinct(mutations),
        forall|i: int|
            0 <= i < mutations.len() ==> #[trigger] parses_to(commit_seq, entries, i, mutations[i]),
    ensures
        all_parse_to(commit_seq, entries, mutations.take(count)),
    decreases count,
{
    if count == 0 {
        reveal(all_parse_to);
        assert(mutations.take(0) =~= Seq::empty());
    } else {
        lemma_entries_parse(commit_seq, entries, mutations, count - 1);
        let mutation = mutations[count - 1];
        let found = mutations.take(count - 1);
        if changes_key(found, mutation.user_key) {
            lemma_repeated_key(mutations, count - 1);
        }
        assert(parses_to(commit_seq, entries, count - 1, mutation));
        lemma_entries_step(commit_seq, entries, found, mutation);
        assert(mutations.take(count) =~= found.push(mutation));
    }
}

/// The entries of a transaction parse to its changed keys.
proof fn lemma_entries_round_trip(descriptor: DescriptorView)
    requires
        descriptor.valid(),
    ensures
        parsed_entries(
            descriptor.meta.commit_seq,
            descriptor.entries(),
            descriptor.mutations.len() as int,
        ) == Ok::<Seq<MutationView>, StorageErrorKind>(descriptor.mutations),
{
    let commit_seq = descriptor.meta.commit_seq;
    let entries = descriptor.entries();
    let mutations = descriptor.mutations;
    assert forall|i: int| 0 <= i < mutations.len() implies #[trigger] parses_to(
        commit_seq,
        entries,
        i,
        mutations[i],
    ) by {
        reveal(parses_to);
        lemma_entry_round_trip(descriptor, i);
    }
    lemma_entries_parse(commit_seq, entries, mutations, mutations.len() as int);
    assert(mutations.take(mutations.len() as int) =~= mutations);
    reveal(all_parse_to);
}

/// A transaction that was encoded is decoded to itself.
pub proof fn law_descriptor_round_trip(descriptor: DescriptorView)
    requires
        descriptor.valid(),
    ensures
        parsed_descriptor(descriptor.encoded()) == Ok::<DescriptorView, StorageErrorKind>(
            descriptor,
        ),
{
    let encoded = descriptor.encoded();
    let crc = le_bytes(descriptor.checksum() as nat, 4);
    lemma_byte_limits();
    lemma_le_bytes_len(descriptor.checksum() as nat, 4);
    lemma_meta_layout(descriptor.meta, crc);
    lemma_written_number(encoded.meta_value, 82, descriptor.checksum() as nat, 4);
    lemma_entries_round_trip(descriptor);
    assert(encoded.meta_key == tx_meta_key(descriptor.meta.commit_seq));
}

/// Every commit has a head that can be written: it follows the one before it, lies between two
/// places of the log, and changes a key, and no more keys than it has operations.
pub proof fn law_heads_of_every_commit(meta: MetaView)
    ensures
        meta.valid() <==> {
            &&& meta.commit_seq >= 1 && meta.commit_seq == meta.prev_seq + 1
            &&& is_identifier(meta.tx_uuid)
            &&& meta.vlog_begin.file_id <= 999_999 && meta.vlog_begin.offset <= 4_294_967_296
            &&& meta.vlog_end.file_id <= 999_999 && meta.vlog_end.offset <= 4_294_967_296
            &&& position_before(meta.vlog_begin, meta.vlog_end)
            &&& meta.distinct_key_count >= 1 && meta.logical_op_count >= meta.distinct_key_count
        },
{
}

/// Every change of a key can be written down: of any key of one to sixty thousand bytes, from and
/// to no value, or a value whose record has a key of that length. It is only that.
pub proof fn law_changes_of_every_key(
    mutation: MutationView,
    user_key: Seq<u8>,
    pointer: ValuePointer,
    other: ValuePointer,
)
    requires
        pointer.valid() && pointer.record_len - 55 - pointer.value_len == user_key.len(),
        other.valid() && other.record_len - 55 - other.value_len == user_key.len(),
        1 <= user_key.len() <= 60_000,
    ensures
        (MutationView {
            user_key,
            before_state: ValueState::Absent,
            after_state: ValueState::Absent,
        }).valid(),
        (MutationView {
            user_key,
            before_state: ValueState::Absent,
            after_state: ValueState::Present(pointer),
        }).valid(),
        (MutationView {
            user_key,
            before_state: ValueState::Present(other),
            after_state: ValueState::Absent,
        }).valid(),
        (MutationView {
            user_key,
            before_state: ValueState::Present(other),
            after_state: ValueState::Present(pointer),
        }).valid(),
        mutation.valid() ==> 1 <= mutation.user_key.len() <= 60_000,
        mutation.valid() ==> (mutation.before_state matches ValueState::Present(at) ==> at.valid()
            && at.record_len - 55 - at.value_len == mutation.user_key.len()),
        mutation.valid() ==> (mutation.after_state matches ValueState::Present(at) ==> at.valid()
            && at.record_len - 55 - at.value_len == mutation.user_key.len()),
{
}

/// A transaction is encoded where its head is good, counts the keys that are changed, and no key is
/// changed twice: what is encoded is read back. Else nothing is encoded.
pub proof fn law_good_transaction_is_encoded(descriptor: DescriptorView)
    ensures
        encoding(descriptor) is Ok <==> {
            &&& descriptor.meta.valid()
            &&& descriptor.meta.distinct_key_count == descriptor.mutations.len() <= usize::MAX
            &&& forall|i: int|
                0 <= i < descriptor.mutations.len() ==> (
                #[trigger] descriptor.mutations[i]).valid()
            &&& forall|i: int, j: int|
                0 <= i < descriptor.mutations.len() && 0 <= j < descriptor.mutations.len() && (
                #[trigger] descriptor.mutations[i]).user_key == (
                #[trigger] descriptor.mutations[j]).user_key ==> i == j
        },
        encoding(descriptor) matches Ok(encoded) ==> parsed_descriptor(encoded) == Ok::<
            DescriptorView,
            StorageErrorKind,
        >(descriptor),
        encoding(descriptor) matches Err(kind) ==> (kind == StorageErrorKind::CapacityExceeded <==>
            descriptor.meta.distinct_key_count > usize::MAX) && (kind
            == StorageErrorKind::CapacityExceeded || kind == StorageErrorKind::InvalidArgument),
{
    if descriptor.valid() {
        law_descriptor_round_trip(descriptor);
    }
}

} // verus!
