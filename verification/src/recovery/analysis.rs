//! What the index says of itself when a database is opened.

use vstd::prelude::*;

use crate::bytes::le_bytes;
use crate::commit::metadata::{
    check_identity, decode_head_seq, frontier_of_other_version, identity_refusal,
    law_frontier_round_trip, law_recovery_state_round_trip, metadata_decode_view,
    recovery_state_of_other_version, CommitSeq, DurableFrontier, RecoveryState,
    HEAD_SEQ_ENCODED_LEN,
};
use crate::error::{ErrorView, Result, StorageErrorKind};
use crate::recovery::{
    recovery_context, recovery_corruption, recovery_corruption_view, seen_by_recovery,
};

verus! {

/// What was read of an entry of the index.
pub type IndexRead = Result<Option<Vec<u8>>>;

/// What the index says of itself.
#[derive(Debug)]
pub struct IndexState {
    pub database_identity: Vec<u8>,
    pub durable_frontier: DurableFrontier,
    pub head_seq: CommitSeq,
    pub recovery_state: Option<RecoveryState>,
}

/// An entry that has to be there.
pub open spec fn required(read: IndexRead) -> std::result::Result<Seq<u8>, ErrorView> {
    match read {
        Err(failure) => Err(seen_by_recovery(failure@)),
        Ok(None) => Err(recovery_corruption_view()),
        Ok(Some(bytes)) => Ok(bytes@),
    }
}

/// A record that cannot be read.
pub open spec fn unreadable(other_version: bool) -> ErrorView {
    seen_by_recovery(
        metadata_decode_view(
            if other_version {
                StorageErrorKind::IncompatibleFormat
            } else {
                StorageErrorKind::Corruption
            },
        ),
    )
}

/// Why the identity that was read is refused.
pub open spec fn identity_failure(
    read: IndexRead,
    database_format_version: u32,
    database_uuid: Seq<u8>,
) -> Option<ErrorView> {
    match required(read) {
        Err(failure) => Some(failure),
        Ok(bytes) => match identity_refusal(bytes, database_format_version, database_uuid) {
            Some(kind) => Some(seen_by_recovery(metadata_decode_view(kind))),
            None => None,
        },
    }
}

/// The frontier that was read.
pub open spec fn frontier_read(read: IndexRead) -> std::result::Result<DurableFrontier, ErrorView> {
    match required(read) {
        Err(failure) => Err(failure),
        Ok(bytes) => if exists|frontier: DurableFrontier|
            frontier.valid() && bytes == #[trigger] frontier.encoded() {
            Ok(
                choose|frontier: DurableFrontier|
                    frontier.valid() && bytes == #[trigger] frontier.encoded(),
            )
        } else {
            Err(unreadable(frontier_of_other_version(bytes)))
        },
    }
}

/// The head that was read.
pub open spec fn head_read(read: IndexRead) -> std::result::Result<CommitSeq, ErrorView> {
    match required(read) {
        Err(failure) => Err(failure),
        Ok(bytes) => if bytes.len() == HEAD_SEQ_ENCODED_LEN {
            Ok(choose|head: CommitSeq| bytes == #[trigger] le_bytes(head as nat, 8))
        } else {
            Err(unreadable(false))
        },
    }
}

/// The state of a recovery that was read, if there is one.
pub open spec fn state_read(read: IndexRead) -> std::result::Result<
    Option<RecoveryState>,
    ErrorView,
> {
    match read {
        Err(failure) => Err(seen_by_recovery(failure@)),
        Ok(None) => Ok(None),
        Ok(Some(bytes)) => if exists|state: RecoveryState|
            state.valid() && bytes@ == #[trigger] state.encoded() {
            Ok(
                Some(
                    choose|state: RecoveryState|
                        state.valid() && bytes@ == #[trigger] state.encoded(),
                ),
            )
        } else {
            Err(unreadable(recovery_state_of_other_version(bytes@)))
        },
    }
}

/// What the entries of the index say together, or the first thing that is wrong with them.
pub open spec fn index_state(
    identity: IndexRead,
    frontier: IndexRead,
    head: IndexRead,
    state: IndexRead,
    database_format_version: u32,
    database_uuid: Seq<u8>,
    same_geometry: bool,
) -> std::result::Result<(DurableFrontier, CommitSeq, Option<RecoveryState>), ErrorView> {
    match identity_failure(identity, database_format_version, database_uuid) {
        Some(failure) => Err(failure),
        None => if !same_geometry {
            Err(recovery_corruption_view())
        } else {
            match frontier_read(frontier) {
                Err(failure) => Err(failure),
                Ok(durable) => match head_read(head) {
                    Err(failure) => Err(failure),
                    Ok(last) => if durable.durable_seq > last {
                        Err(recovery_corruption_view())
                    } else {
                        match state_read(state) {
                            Err(failure) => Err(failure),
                            Ok(begun) => Ok((durable, last, begun)),
                        }
                    },
                },
            }
        },
    }
}

fn required_entry(read: IndexRead) -> (result: Result<Vec<u8>>)
    ensures
        match required(read) {
            Ok(bytes) => result matches Ok(found) && found@ == bytes,
            Err(failure) => result matches Err(error) && error@ == failure,
        },
{
    match read {
        Ok(Some(bytes)) => Ok(bytes),
        Ok(None) => Err(recovery_corruption()),
        Err(error) => Err(recovery_context(error)),
    }
}

fn read_frontier(read: IndexRead) -> (result: Result<DurableFrontier>)
    ensures
        match frontier_read(read) {
            Ok(frontier) => result matches Ok(found) && found == frontier && frontier.valid(),
            Err(failure) => result matches Err(error) && error@ == failure,
        },
{
    let bytes = required_entry(read)?;
    match DurableFrontier::decode(bytes.as_slice()) {
        Ok(frontier) => {
            proof {
                let other = choose|other: DurableFrontier|
                    other.valid() && bytes@ == #[trigger] other.encoded();
                law_frontier_round_trip(frontier, other);
            }
            Ok(frontier)
        },
        Err(error) => Err(recovery_context(error)),
    }
}

fn read_head(read: IndexRead) -> (result: Result<CommitSeq>)
    ensures
        match head_read(read) {
            Ok(head) => result matches Ok(found) && found == head,
            Err(failure) => result matches Err(error) && error@ == failure,
        },
{
    let bytes = required_entry(read)?;
    match decode_head_seq(bytes.as_slice()) {
        Ok(head) => {
            proof {
                crate::bytes::lemma_le_bytes_len(head as nat, 8);
                let other = choose|other: CommitSeq| bytes@ == #[trigger] le_bytes(
                    other as nat,
                    8,
                );
                assert(bytes@ == le_bytes(head as nat, 8));
                assert(bytes@ == le_bytes(other as nat, 8));
                crate::bytes::lemma_byte_limits();
                crate::bytes::lemma_le_value_of_bytes(head as nat, 8);
                crate::bytes::lemma_le_value_of_bytes(other as nat, 8);
            }
            Ok(head)
        },
        Err(error) => Err(recovery_context(error)),
    }
}

fn read_state(read: IndexRead) -> (result: Result<Option<RecoveryState>>)
    ensures
        match state_read(read) {
            Ok(state) => result matches Ok(found) && found == state,
            Err(failure) => result matches Err(error) && error@ == failure,
        },
{
    let bytes = match read {
        Ok(Some(bytes)) => bytes,
        Ok(None) => return Ok(None),
        Err(error) => return Err(recovery_context(error)),
    };
    match RecoveryState::decode(bytes.as_slice()) {
        Ok(state) => {
            proof {
                let other = choose|other: RecoveryState|
                    other.valid() && bytes@ == #[trigger] other.encoded();
                law_recovery_state_round_trip(state, other);
            }
            Ok(Some(state))
        },
        Err(error) => Err(recovery_context(error)),
    }
}

/// Reads what the index says of itself.
pub fn read_index_state(
    identity: IndexRead,
    frontier: IndexRead,
    head: IndexRead,
    state: IndexRead,
    database_format_version: u32,
    database_uuid: &[u8; 16],
    same_geometry: bool,
) -> (result: Result<IndexState>)
    ensures
        match index_state(
            identity,
            frontier,
            head,
            state,
            database_format_version,
            database_uuid@,
            same_geometry,
        ) {
            Ok((durable, last, begun)) => result matches Ok(found) && {
                &&& Ok::<Seq<u8>, ErrorView>(found.database_identity@) == required(identity)
                &&& found.durable_frontier == durable
                &&& found.head_seq == last
                &&& found.recovery_state == begun
            },
            Err(failure) => result matches Err(error) && error@ == failure,
        },
{
    let database_identity = required_entry(identity)?;
    match check_identity(database_identity.as_slice(), database_format_version, database_uuid) {
        Ok(_) => {},
        Err(error) => return Err(recovery_context(error)),
    }
    if !same_geometry {
        return Err(recovery_corruption());
    }
    let durable_frontier = read_frontier(frontier)?;
    let head_seq = read_head(head)?;
    match durable_frontier.validate_against_head(head_seq) {
        Ok(_) => {},
        Err(error) => return Err(recovery_context(error)),
    }
    let recovery_state = read_state(state)?;
    Ok(IndexState { database_identity, durable_frontier, head_seq, recovery_state })
}

/// What the index says of itself is valid: the frontier, which is not behind the head, and the
/// state of a recovery where one was begun.
pub proof fn law_index_state_is_valid(
    identity: IndexRead,
    frontier: IndexRead,
    head: IndexRead,
    state: IndexRead,
    database_format_version: u32,
    database_uuid: Seq<u8>,
    same_geometry: bool,
)
    ensures
        index_state(
            identity,
            frontier,
            head,
            state,
            database_format_version,
            database_uuid,
            same_geometry,
        ) matches Ok((durable, last, begun)) ==> {
            &&& durable.valid()
            &&& durable.durable_seq <= last
            &&& begun matches Some(begun) ==> begun.valid()
        },
{
}

/// What the index says of itself is what was written there: a frontier, a head that is not behind
/// it, and the state of a recovery where one was begun, each from the bytes that stand for it.
/// Everything else is refused.
pub proof fn law_index_state_is_what_was_written(
    identity: IndexRead,
    frontier: IndexRead,
    head: IndexRead,
    state: IndexRead,
    database_format_version: u32,
    database_uuid: Seq<u8>,
    same_geometry: bool,
    durable: DurableFrontier,
    last: CommitSeq,
    begun: Option<RecoveryState>,
)
    ensures
        index_state(
            identity,
            frontier,
            head,
            state,
            database_format_version,
            database_uuid,
            same_geometry,
        ) == Ok::<(DurableFrontier, CommitSeq, Option<RecoveryState>), ErrorView>(
            (durable, last, begun),
        ) <==> {
            &&& identity matches Ok(Some(stored)) && identity_refusal(
                stored@,
                database_format_version,
                database_uuid,
            ) is None
            &&& same_geometry
            &&& frontier matches Ok(Some(bytes)) && bytes@ == durable.encoded()
            &&& durable.valid()
            &&& head matches Ok(Some(bytes)) && bytes@ == le_bytes(last as nat, 8)
            &&& durable.durable_seq <= last
            &&& match begun {
                None => state matches Ok(None),
                Some(begun) => begun.valid() && (state matches Ok(Some(bytes)) && bytes@
                    == begun.encoded()),
            }
        },
{
    crate::bytes::lemma_byte_limits();
    if frontier is Ok && frontier->Ok_0 is Some {
        let bytes = frontier->Ok_0->0@;
        let read = frontier_read(frontier);
        if read is Ok {
            if bytes == durable.encoded() {
                law_frontier_round_trip(read->Ok_0, durable);
            }
        }
        if durable.valid() && bytes == durable.encoded() {
            assert(read is Ok);
        }
    }
    if head is Ok && head->Ok_0 is Some {
        let bytes = head->Ok_0->0@;
        crate::bytes::lemma_le_bytes_len(last as nat, 8);
        crate::bytes::lemma_le_value_of_bytes(last as nat, 8);
        if bytes.len() == 8 {
            lemma_some_head(bytes);
            let read = choose|read: CommitSeq| bytes == #[trigger] le_bytes(read as nat, 8);
            crate::bytes::lemma_le_value_of_bytes(read as nat, 8);
        }
    }
    if state is Ok && state->Ok_0 is Some {
        let bytes = state->Ok_0->0@;
        let read = state_read(state);
        if begun is Some && read is Ok && read->Ok_0 is Some && bytes == (begun->0).encoded() {
            law_recovery_state_round_trip(read->Ok_0->0, begun->0);
        }
        if begun is Some && (begun->0).valid() && bytes == (begun->0).encoded() {
            assert(read is Ok);
        }
    }
}

/// Eight bytes stand for some head.
proof fn lemma_some_head(bytes: Seq<u8>)
    requires
        bytes.len() == 8,
    ensures
        exists|read: CommitSeq| bytes == #[trigger] le_bytes(read as nat, 8),
{
    crate::bytes::lemma_byte_limits();
    crate::bytes::lemma_le_value_bound(bytes);
    crate::bytes::lemma_le_bytes_of_value(bytes);
    let value = crate::bytes::le_value(bytes);
    assert(bytes == le_bytes((value as u64) as nat, 8));
}

} // verus!
