//! Finding the transactions that are not yet known to be on disk.

use vstd::prelude::*;

use crate::batch::MAX_KEY_VALUE_SIZE;
use crate::bytes::{
    be_bytes, byte_order_less, le_bytes, lemma_be_round_trip, lemma_byte_limits,
    lemma_byte_order_total, lemma_le_bytes_len,
};
use crate::commit::descriptor::{
    decode_descriptor, entry_views, parsed_descriptor, DescriptorView, EncodedView, EntryView,
    IndexEntry, TransactionDescriptor,
};
use crate::commit::metadata::{
    decode_tx_meta_key, decode_tx_mutation_key, encode_tx_meta_key, lemma_tx_meta_key,
    lemma_tx_mutation_key, metadata_decode_view, tx_meta_key, tx_mutation_key, CommitSeq,
    DurableVLogEnd, TX_KEY_MAGIC, TX_META_KEY_ENCODED_LEN, TX_META_KIND,
    TX_MUTATION_KEY_ENCODED_LEN, TX_MUTATION_KIND,
};
use crate::error::{ErrorView, Result, StorageErrorKind};
use crate::index::range::{
    lemma_big_endian_order, lemma_order_before_tail, lemma_order_behind_prefix, InternalKeyRange,
    RangeView,
};
use crate::memory::{asked, asked_within, Memory};
use crate::recovery::{
    recovery_context, recovery_corruption, recovery_corruption_view, recovery_resource,
    recovery_resource_view, seen_by_recovery,
};
use crate::vlog::geometry::VLogPosition;

verus! {

/// What the keys of a transaction begin with.
pub open spec fn sequence_prefix(commit_seq: CommitSeq) -> Seq<u8> {
    le_bytes(TX_KEY_MAGIC as nat, 2) + be_bytes(commit_seq as nat, 8)
}

/// The length of what the keys of a transaction begin with.
pub const SEQUENCE_PREFIX_LEN: usize = 10;

/// The prefix of the keys of a transaction.
pub fn owned_tx_sequence_prefix(memory: &mut Memory, commit_seq: CommitSeq) -> (result: Result<
    Vec<u8>,
>)
    requires
        commit_seq != 0,
        !old(memory).refused(),
    ensures
        match result {
            Ok(prefix) => !final(memory).refused() && prefix@ == sequence_prefix(commit_seq),
            Err(error) => final(memory).refused() && error@ == recovery_resource_view(),
        },
        asked(*old(memory), *final(memory), 1, SEQUENCE_PREFIX_LEN as nat),
{
    let key = match encode_tx_meta_key(commit_seq) {
        Ok(key) => key,
        Err(error) => return Err(recovery_context(error)),
    };
    proof {
        lemma_tx_meta_key(commit_seq);
        lemma_byte_limits();
        lemma_be_round_trip(commit_seq as nat, 8);
        lemma_le_bytes_len(TX_KEY_MAGIC as nat, 2);
        lemma_le_bytes_len(commit_seq as nat, 8);
    }
    let prefix = vstd::slice::slice_subrange(key.as_slice(), 0, SEQUENCE_PREFIX_LEN);
    proof {
        assert(prefix@ =~= sequence_prefix(commit_seq));
    }
    match memory.copy(prefix) {
        Some(owned) => Ok(owned),
        None => Err(recovery_resource()),
    }
}

/// The range of everything behind the durable commits. It has no upper end, so that whatever
/// lies behind the head is found and refused.
pub fn unstable_descriptor_range(memory: &mut Memory, durable_seq: CommitSeq, head_seq: CommitSeq) -> (result:
    Result<Option<InternalKeyRange>>)
    requires
        !old(memory).refused(),
    ensures
        final(memory).refused() ==> (result matches Err(error) && error@
            == recovery_resource_view()),
        !final(memory).refused() ==> if durable_seq > head_seq {
            result matches Err(error) && error@ == recovery_corruption_view()
        } else if durable_seq == u64::MAX {
            result matches Ok(range) && range is None
        } else {
            result matches Ok(Some(range)) && range@ == (RangeView {
                start_inclusive: Some(sequence_prefix((durable_seq + 1) as u64)),
                end_exclusive: None,
            })
        },
        if durable_seq <= head_seq && durable_seq < u64::MAX {
            asked(*old(memory), *final(memory), 1, SEQUENCE_PREFIX_LEN as nat)
        } else {
            *final(memory) == *old(memory)
        },
{
    if durable_seq > head_seq {
        return Err(recovery_corruption());
    }
    if durable_seq == u64::MAX {
        return Ok(None);
    }
    let start = owned_tx_sequence_prefix(memory, durable_seq + 1)?;
    Ok(Some(InternalKeyRange { start_inclusive: Some(start), end_exclusive: None }))
}

/// The range of the entries of one transaction.
pub open spec fn range_of(commit_seq: CommitSeq) -> RangeView {
    RangeView {
        start_inclusive: Some(sequence_prefix(commit_seq)),
        end_exclusive: if commit_seq == u64::MAX {
            None
        } else {
            Some(sequence_prefix((commit_seq + 1) as u64))
        },
    }
}

pub fn descriptor_range(memory: &mut Memory, commit_seq: CommitSeq) -> (result: Result<
    InternalKeyRange,
>)
    requires
        commit_seq != 0,
        !old(memory).refused(),
    ensures
        match result {
            Ok(range) => !final(memory).refused() && range@ == range_of(commit_seq),
            Err(error) => final(memory).refused() && error@ == recovery_resource_view(),
        },
        asked(
            *old(memory),
            *final(memory),
            if commit_seq < u64::MAX {
                2
            } else {
                1
            },
            SEQUENCE_PREFIX_LEN as nat,
        ),
{
    let start = owned_tx_sequence_prefix(memory, commit_seq)?;
    let end_exclusive = match commit_seq.checked_add(1) {
        Some(next) => Some(owned_tx_sequence_prefix(memory, next)?),
        None => None,
    };
    Ok(InternalKeyRange { start_inclusive: Some(start), end_exclusive })
}

/// A key of a commit lies in the range of a commit exactly if it is the same one.
proof fn lemma_in_range(a: CommitSeq, b: CommitSeq, tail: Seq<u8>)
    ensures
        range_of(a).contains(sequence_prefix(b) + tail) == (a == b),
        !byte_order_less(sequence_prefix(b) + tail, sequence_prefix(a)) == (a <= b),
{
    let magic = le_bytes(TX_KEY_MAGIC as nat, 2);
    let key = sequence_prefix(b) + tail;
    lemma_byte_limits();
    lemma_le_bytes_len(TX_KEY_MAGIC as nat, 2);
    lemma_prefix_order(a, b, tail);
    if a < u64::MAX {
        lemma_prefix_order((a + 1) as u64, b, tail);
    }
}

pub proof fn lemma_prefix_order(a: CommitSeq, b: CommitSeq, tail: Seq<u8>)
    ensures
        byte_order_less(sequence_prefix(b) + tail, sequence_prefix(a)) == (b < a),
{
    let magic = le_bytes(TX_KEY_MAGIC as nat, 2);
    let low = be_bytes(a as nat, 8);
    let high = be_bytes(b as nat, 8);
    lemma_byte_limits();
    lemma_be_round_trip(a as nat, 8);
    lemma_be_round_trip(b as nat, 8);
    assert(sequence_prefix(b) + tail =~= magic + (high + tail));
    lemma_order_behind_prefix(magic, high + tail, low);
    if b < a {
        lemma_big_endian_order(b as nat, a as nat, 8);
        lemma_order_before_tail(high, low, tail, Seq::empty());
        assert(low + Seq::<u8>::empty() =~= low);
    } else if b > a {
        lemma_big_endian_order(a as nat, b as nat, 8);
        lemma_order_before_tail(low, high, Seq::empty(), tail);
        assert(low + Seq::<u8>::empty() =~= low);
        lemma_byte_order_total(high + tail, low);
    } else {
        lemma_order_behind_prefix(high, tail, Seq::empty());
        assert(high + Seq::<u8>::empty() =~= high);
    }
}

/// The range of a commit holds the keys of its own entries and of no other commit, and the
/// unstable range holds exactly the keys of the commits behind the durable ones.
pub proof fn law_ranges_hold_their_commits(a: CommitSeq, b: CommitSeq, ordinal: u64)
    ensures
        range_of(a).contains(tx_meta_key(b)) == (a == b),
        range_of(a).contains(tx_mutation_key(b, ordinal)) == (a == b),
        a < u64::MAX ==> ({
            let behind = RangeView {
                start_inclusive: Some(sequence_prefix((a + 1) as u64)),
                end_exclusive: None,
            };
            &&& behind.contains(tx_meta_key(b)) == (b > a)
            &&& behind.contains(tx_mutation_key(b, ordinal)) == (b > a)
        }),
{
    let meta_tail = seq![TX_META_KIND];
    let mutation_tail = seq![TX_MUTATION_KIND] + be_bytes(ordinal as nat, 8);
    assert(tx_meta_key(b) =~= sequence_prefix(b) + meta_tail);
    assert(tx_mutation_key(b, ordinal) =~= sequence_prefix(b) + mutation_tail);
    lemma_in_range(a, b, meta_tail);
    lemma_in_range(a, b, mutation_tail);
    if a < u64::MAX {
        lemma_in_range((a + 1) as u64, b, meta_tail);
        lemma_in_range((a + 1) as u64, b, mutation_tail);
    }
}

/// What stands behind the prefix of a commit does not matter for the order of two commits.
proof fn lemma_commits_in_order(a: CommitSeq, b: CommitSeq, s: Seq<u8>, t: Seq<u8>)
    requires
        a < b,
    ensures
        byte_order_less(sequence_prefix(a) + s, sequence_prefix(b) + t),
{
    let magic = le_bytes(TX_KEY_MAGIC as nat, 2);
    let low = be_bytes(a as nat, 8);
    let high = be_bytes(b as nat, 8);
    lemma_byte_limits();
    lemma_be_round_trip(a as nat, 8);
    lemma_be_round_trip(b as nat, 8);
    lemma_big_endian_order(a as nat, b as nat, 8);
    lemma_order_before_tail(low, high, s, t);
    lemma_order_behind_prefix(magic, low + s, high + t);
    assert(sequence_prefix(a) + s =~= magic + (low + s));
    assert(sequence_prefix(b) + t =~= magic + (high + t));
}

/// The keys of the transaction keyspace lie in the order of the commits; within a commit the
/// head comes first, and the mutations follow in the order of their numbers.
pub proof fn law_transaction_keys_in_order(a: CommitSeq, b: CommitSeq, i: u64, j: u64)
    ensures
        a < b ==> {
            &&& byte_order_less(tx_meta_key(a), tx_meta_key(b))
            &&& byte_order_less(tx_meta_key(a), tx_mutation_key(b, j))
            &&& byte_order_less(tx_mutation_key(a, i), tx_meta_key(b))
            &&& byte_order_less(tx_mutation_key(a, i), tx_mutation_key(b, j))
        },
        byte_order_less(tx_meta_key(a), tx_mutation_key(a, i)),
        i < j ==> byte_order_less(tx_mutation_key(a, i), tx_mutation_key(a, j)),
{
    let head = seq![TX_META_KIND];
    let first = seq![TX_MUTATION_KIND] + be_bytes(i as nat, 8);
    let second = seq![TX_MUTATION_KIND] + be_bytes(j as nat, 8);
    assert(tx_meta_key(a) =~= sequence_prefix(a) + head);
    assert(tx_meta_key(b) =~= sequence_prefix(b) + head);
    assert(tx_mutation_key(a, i) =~= sequence_prefix(a) + first);
    assert(tx_mutation_key(a, j) =~= sequence_prefix(a) + second);
    assert(tx_mutation_key(b, j) =~= sequence_prefix(b) + second);
    if a < b {
        lemma_commits_in_order(a, b, head, head);
        lemma_commits_in_order(a, b, head, second);
        lemma_commits_in_order(a, b, first, head);
        lemma_commits_in_order(a, b, first, second);
    }
    lemma_order_behind_prefix(sequence_prefix(a), head, first);
    assert(byte_order_less(head, first));
    if i < j {
        lemma_byte_limits();
        lemma_big_endian_order(i as nat, j as nat, 8);
        lemma_order_behind_prefix(
            seq![TX_MUTATION_KIND],
            be_bytes(i as nat, 8),
            be_bytes(j as nat, 8),
        );
        lemma_order_behind_prefix(sequence_prefix(a), first, second);
    }
}

/// The commit of a key of the transaction keyspace, and whether it is the key of a head.
pub open spec fn is_descriptor_key(key: Seq<u8>, commit_seq: CommitSeq, is_meta: bool) -> bool {
    &&& commit_seq != 0
    &&& if is_meta {
        key == tx_meta_key(commit_seq)
    } else {
        exists|ordinal: u64| key == #[trigger] tx_mutation_key(commit_seq, ordinal)
    }
}

pub fn decode_descriptor_key(key: &[u8]) -> (result: Result<(CommitSeq, bool)>)
    ensures
        match result {
            Ok(found) => is_descriptor_key(key@, found.0, found.1),
            Err(error) => {
                &&& error@ == recovery_corruption_view()
                &&& forall|commit_seq: CommitSeq, is_meta: bool|
                    !#[trigger] is_descriptor_key(key@, commit_seq, is_meta)
            },
        },
{
    proof {
        assert forall|commit_seq: CommitSeq, is_meta: bool| #[trigger]
            is_descriptor_key(key@, commit_seq, is_meta) implies key@.len() == (if is_meta {
            TX_META_KEY_ENCODED_LEN
        } else {
            TX_MUTATION_KEY_ENCODED_LEN
        }) by {
            if is_meta {
                lemma_tx_meta_key(commit_seq);
            } else {
                let ordinal = choose|ordinal: u64| key@ == #[trigger] tx_mutation_key(
                    commit_seq,
                    ordinal,
                );
                lemma_tx_mutation_key(commit_seq, ordinal);
            }
        }
    }
    if key.len() == TX_META_KEY_ENCODED_LEN {
        match decode_tx_meta_key(key) {
            Ok(commit_seq) => Ok((commit_seq, true)),
            Err(error) => Err(recovery_context(error)),
        }
    } else if key.len() == TX_MUTATION_KEY_ENCODED_LEN {
        match decode_tx_mutation_key(key) {
            Ok(found) => Ok((found.0, false)),
            Err(error) => Err(recovery_context(error)),
        }
    } else {
        Err(recovery_corruption())
    }
}

/// The commit of a key is determined by the key.
pub proof fn lemma_descriptor_key(key: Seq<u8>, a: CommitSeq, b: CommitSeq, x: bool, y: bool)
    requires
        is_descriptor_key(key, a, x),
        is_descriptor_key(key, b, y),
    ensures
        a == b,
        x == y,
{
    lemma_tx_meta_key(a);
    lemma_tx_meta_key(b);
    if !x {
        let i = choose|i: u64| key == #[trigger] tx_mutation_key(a, i);
        lemma_tx_mutation_key(a, i);
    }
    if !y {
        let j = choose|j: u64| key == #[trigger] tx_mutation_key(b, j);
        lemma_tx_mutation_key(b, j);
    }
}

/// The entries of one transaction, as they are found.
#[derive(Debug)]
pub struct DescriptorGroup {
    pub meta: Option<IndexEntry>,
    pub mutations: Vec<IndexEntry>,
}

#[verifier::ext_equal]
pub struct GroupView {
    pub meta: Option<EntryView>,
    pub mutations: Seq<EntryView>,
}

impl View for DescriptorGroup {
    type V = GroupView;

    open spec fn view(&self) -> GroupView {
        GroupView {
            meta: match self.meta {
                Some(meta) => Some(meta@),
                None => None,
            },
            mutations: entry_views(self.mutations@),
        }
    }
}

pub open spec fn group_views(groups: Seq<DescriptorGroup>) -> Seq<GroupView> {
    Seq::new(groups.len(), |i: int| groups[i]@)
}

/// The transactions behind the durable ones, while their entries come in.
pub struct UnstableDescriptors {
    durable_seq: CommitSeq,
    head_seq: CommitSeq,
    groups: Vec<DescriptorGroup>,
}

/// What came in so far.
#[verifier::ext_equal]
pub struct UnstableView {
    pub durable_seq: CommitSeq,
    pub head_seq: CommitSeq,
    pub groups: Seq<GroupView>,
}

impl View for UnstableDescriptors {
    type V = UnstableView;

    closed spec fn view(&self) -> UnstableView {
        UnstableView {
            durable_seq: self.durable_seq,
            head_seq: self.head_seq,
            groups: group_views(self.groups@),
        }
    }
}

pub open spec fn empty_group() -> GroupView {
    GroupView { meta: None, mutations: Seq::empty() }
}

/// What one more entry makes of what came in.
pub open spec fn entry_added(unstable: UnstableView, entry: EntryView) -> std::result::Result<
    UnstableView,
    ErrorView,
> {
    if !(exists|commit_seq: CommitSeq, is_meta: bool|
        is_descriptor_key(entry.key, commit_seq, is_meta)) {
        Err(recovery_corruption_view())
    } else {
        let (commit_seq, is_meta) = choose|commit_seq: CommitSeq, is_meta: bool|
            is_descriptor_key(entry.key, commit_seq, is_meta);
        let i = commit_seq - unstable.durable_seq - 1;
        if commit_seq > unstable.head_seq {
            Err(recovery_corruption_view())
        } else if commit_seq <= unstable.durable_seq {
            Ok(unstable)
        } else if is_meta && unstable.groups[i].meta is Some {
            Err(recovery_corruption_view())
        } else {
            Ok(
                UnstableView {
                    groups: unstable.groups.update(
                        i,
                        if is_meta {
                            GroupView { meta: Some(entry), ..unstable.groups[i] }
                        } else {
                            GroupView {
                                mutations: unstable.groups[i].mutations.push(entry),
                                ..unstable.groups[i]
                            }
                        },
                    ),
                    ..unstable
                },
            )
        }
    }
}

/// The transaction of a group, which has to be the expected one.
pub open spec fn group_parsed(group: GroupView, expected_seq: CommitSeq) -> std::result::Result<
    DescriptorView,
    ErrorView,
> {
    match group.meta {
        None => Err(recovery_corruption_view()),
        Some(meta) => match parsed_descriptor(
            EncodedView {
                meta_key: meta.key,
                meta_value: meta.value,
                mutations: group.mutations,
            },
        ) {
            Err(kind) => Err(seen_by_recovery(metadata_decode_view(kind))),
            Ok(descriptor) => if descriptor.meta.commit_seq != expected_seq {
                Err(recovery_corruption_view())
            } else {
                Ok(descriptor)
            },
        },
    }
}

/// The transactions of the first groups.
pub open spec fn groups_parsed(unstable: UnstableView, count: int) -> std::result::Result<
    Seq<DescriptorView>,
    ErrorView,
>
    decreases count,
{
    if count <= 0 {
        Ok(Seq::empty())
    } else {
        match groups_parsed(unstable, count - 1) {
            Err(refusal) => Err(refusal),
            Ok(found) => match group_parsed(
                unstable.groups[count - 1],
                (unstable.durable_seq + count) as u64,
            ) {
                Err(refusal) => Err(refusal),
                Ok(descriptor) => Ok(found.push(descriptor)),
            },
        }
    }
}

pub open spec fn descriptor_views(descriptors: Seq<TransactionDescriptor>) -> Seq<DescriptorView> {
    Seq::new(descriptors.len(), |i: int| descriptors[i]@)
}

/// Where the log goes on behind an end.
pub open spec fn append_position_of(end: DurableVLogEnd) -> VLogPosition {
    match end {
        DurableVLogEnd::Empty => VLogPosition { file_id: 0, offset: 0 },
        DurableVLogEnd::Position(position) => position,
    }
}

pub fn append_position(end: DurableVLogEnd) -> (position: VLogPosition)
    ensures
        position == append_position_of(end),
{
    match end {
        DurableVLogEnd::Empty => VLogPosition { file_id: 0, offset: 0 },
        DurableVLogEnd::Position(position) => position,
    }
}

/// Each transaction begins in the log where the one before it ends.
pub open spec fn is_chain(durable_end: DurableVLogEnd, descriptors: Seq<DescriptorView>) -> bool {
    forall|i: int| 0 <= i < descriptors.len() ==> #[trigger] is_linked(durable_end, descriptors, i)
}

/// A transaction begins in the log where the one before it ends.
pub open spec fn is_linked(
    durable_end: DurableVLogEnd,
    descriptors: Seq<DescriptorView>,
    i: int,
) -> bool {
    descriptors[i].meta.vlog_begin == (if i == 0 {
        append_position_of(durable_end)
    } else {
        descriptors[i - 1].meta.vlog_end
    })
}

/// What loading the transactions gives.
pub open spec fn loaded(unstable: UnstableView, durable_end: DurableVLogEnd) -> std::result::Result<
    Seq<DescriptorView>,
    ErrorView,
> {
    match groups_parsed(unstable, unstable.groups.len() as int) {
        Err(refusal) => Err(refusal),
        Ok(descriptors) => if is_chain(durable_end, descriptors) {
            Ok(descriptors)
        } else {
            Err(recovery_corruption_view())
        },
    }
}

/// The transactions that are loaded are those behind the durable ones, in their order, and their
/// heads are valid.
pub proof fn law_loaded_heads_are_valid(unstable: UnstableView, durable_end: DurableVLogEnd, i: int)
    requires
        loaded(unstable, durable_end) is Ok,
        0 <= i < (loaded(unstable, durable_end)->Ok_0).len(),
        unstable.durable_seq + unstable.groups.len() <= u64::MAX,
    ensures
        (loaded(unstable, durable_end)->Ok_0).len() == unstable.groups.len(),
        (loaded(unstable, durable_end)->Ok_0)[i].meta.valid(),
        (loaded(unstable, durable_end)->Ok_0)[i].meta.commit_seq == unstable.durable_seq + i + 1,
{
    lemma_groups_parsed(unstable, unstable.groups.len() as int, i);
}

proof fn lemma_groups_parsed(unstable: UnstableView, count: int, i: int)
    requires
        0 <= count <= unstable.groups.len(),
        groups_parsed(unstable, count) is Ok,
        unstable.durable_seq + unstable.groups.len() <= u64::MAX,
    ensures
        (groups_parsed(unstable, count)->Ok_0).len() == count,
        0 <= i < count ==> {
            let found = (groups_parsed(unstable, count)->Ok_0)[i];
            found.meta.valid() && found.meta.commit_seq == unstable.durable_seq + i + 1
        },
    decreases count,
{
    if count > 0 {
        lemma_groups_parsed(unstable, count - 1, i);
    }
}

/// An entry goes to the mutations of an unstable transaction.
pub open spec fn goes_to(unstable: UnstableView, entry: EntryView, commit_seq: CommitSeq) -> bool {
    &&& is_descriptor_key(entry.key, commit_seq, false)
    &&& unstable.durable_seq < commit_seq <= unstable.head_seq
}

/// How many mutations came in.
pub open spec fn mutation_total(groups: Seq<GroupView>) -> nat
    decreases groups.len(),
{
    if groups.len() == 0 {
        0
    } else {
        mutation_total(groups.drop_last()) + groups.last().mutations.len()
    }
}

/// The first groups hold no more mutations than all do, and none of them holds more.
proof fn lemma_mutation_total(groups: Seq<GroupView>, count: int)
    requires
        0 <= count < groups.len(),
    ensures
        mutation_total(groups.take(count + 1)) == mutation_total(groups.take(count))
            + groups[count].mutations.len(),
        mutation_total(groups.take(count + 1)) <= mutation_total(groups),
    decreases groups.len() - count,
{
    assert(groups.take(count + 1).drop_last() =~= groups.take(count));
    if count + 1 < groups.len() {
        lemma_mutation_total(groups, count + 1);
    } else {
        assert(groups.take(count + 1) =~= groups);
    }
}

impl UnstableView {
    /// How many reservations it takes to read the transactions: one for all, and for each three
    /// and one for each of its mutations.
    pub open spec fn reservations(self) -> nat {
        1 + 3 * self.groups.len() + mutation_total(self.groups)
    }

    /// The most elements that a list is to have room for.
    pub open spec fn most_asked(self) -> nat {
        self.groups.len() + mutation_total(self.groups) + MAX_KEY_VALUE_SIZE as nat
    }
}

impl UnstableDescriptors {
    #[verifier::type_invariant]
    spec fn well_formed(&self) -> bool {
        &&& self.durable_seq <= self.head_seq
        &&& self.groups@.len() == self.head_seq - self.durable_seq
    }

    /// Makes room for the transactions behind the durable ones.
    pub fn begin(memory: &mut Memory, durable_seq: CommitSeq, head_seq: CommitSeq) -> (result: Result<
        Self,
    >)
        requires
            !old(memory).refused(),
        ensures
            final(memory).refused() ==> (result matches Err(error) && error@
                == recovery_resource_view()),
            !final(memory).refused() ==> if durable_seq > head_seq {
                result matches Err(error) && error@ == recovery_corruption_view()
            } else if head_seq - durable_seq > usize::MAX {
                result matches Err(error) && error@ == recovery_resource_view()
            } else {
                result matches Ok(unstable) && unstable@ == (UnstableView {
                    durable_seq,
                    head_seq,
                    groups: Seq::new((head_seq - durable_seq) as nat, |i: int| empty_group()),
                })
            },
            if durable_seq <= head_seq && head_seq - durable_seq <= usize::MAX {
                asked(*old(memory), *final(memory), 1, (head_seq - durable_seq) as nat)
            } else {
                *final(memory) == *old(memory)
            },
    {
        if durable_seq > head_seq {
            return Err(recovery_corruption());
        }
        let wanted: u64 = head_seq - durable_seq;
        if wanted > usize::MAX as u64 {
            return Err(recovery_resource());
        }
        let count: usize = wanted as usize;
        let mut groups: Vec<DescriptorGroup> = Vec::new();
        if !memory.reserve_exact(&mut groups, count) {
            return Err(recovery_resource());
        }
        let mut i: usize = 0;
        while i < count
            invariant
                i <= count,
                groups@.len() == i,
                forall|k: int| 0 <= k < i ==> (#[trigger] groups@[k])@ == empty_group(),
            decreases count - i,
        {
            let group = DescriptorGroup { meta: None, mutations: Vec::new() };
            proof {
                assert(group@ =~= empty_group());
            }
            groups.push(group);
            i = i + 1;
        }
        proof {
            assert(group_views(groups@) =~= Seq::new(count as nat, |i: int| empty_group()));
        }
        Ok(UnstableDescriptors { durable_seq, head_seq, groups })
    }

    /// Takes an entry that was found in the unstable range.
    pub fn add(&mut self, memory: &mut Memory, entry: IndexEntry) -> (result: Result<()>)
        requires
            !old(memory).refused(),
        ensures
            final(memory).refused() ==> {
                &&& result matches Err(error) && error@ == recovery_resource_view()
                &&& final(self)@ == old(self)@
            },
            !final(memory).refused() ==> match entry_added(old(self)@, entry@) {
                Ok(next) => result is Ok && final(self)@ == next,
                Err(refusal) => {
                    &&& result matches Err(error) && error@ == refusal
                    &&& final(self)@ == old(self)@
                },
            },
            if exists|commit_seq: CommitSeq| #[trigger] goes_to(old(self)@, entry@, commit_seq) {
                exists|commit_seq: CommitSeq| #[trigger]
                    goes_to(old(self)@, entry@, commit_seq) && asked(
                        *old(memory),
                        *final(memory),
                        1,
                        old(self)@.groups[commit_seq - old(self)@.durable_seq - 1].mutations.len() + 1,
                    )
            } else {
                *final(memory) == *old(memory)
            },
    {
        proof {
            use_type_invariant(&*self);
        }
        let ghost before = self@;
        let ghost view = entry@;
        let (commit_seq, is_meta) = decode_descriptor_key(entry.key.as_slice())?;
        proof {
            let (other, other_meta) = choose|other: CommitSeq, other_meta: bool|
                is_descriptor_key(view.key, other, other_meta);
            lemma_descriptor_key(view.key, commit_seq, other, is_meta, other_meta);
            assert forall|another: CommitSeq| #[trigger]
                goes_to(before, view, another) implies another == commit_seq && !is_meta by {
                lemma_descriptor_key(view.key, commit_seq, another, is_meta, false);
            }
        }
        if commit_seq > self.head_seq {
            return Err(recovery_corruption());
        }
        if commit_seq <= self.durable_seq {
            return Ok(());
        }
        let count: usize = self.groups.len();
        proof {
            assert(commit_seq - self.durable_seq <= count);
        }
        let index: usize = (commit_seq - self.durable_seq - 1) as usize;
        let durable_seq = self.durable_seq;
        let head_seq = self.head_seq;
        proof {
            assert(before.groups[index as int] == self.groups@[index as int]@);
        }
        if is_meta && self.groups[index].meta.is_some() {
            return Err(recovery_corruption());
        }
        let mut taken = UnstableDescriptors {
            durable_seq: head_seq,
            head_seq,
            groups: Vec::new(),
        };
        std::mem::swap(&mut taken, self);
        let mut groups: Vec<DescriptorGroup> = taken.groups;
        let mut group = DescriptorGroup { meta: None, mutations: Vec::new() };
        groups.set_and_swap(index, &mut group);
        if is_meta {
            group.meta = Some(entry);
        } else {
            proof {
                assert(goes_to(before, view, commit_seq));
                assert(group@ =~= before.groups[index as int]);
                assert(group@.mutations.len() == group.mutations@.len());
            }
            let granted = memory.reserve(&mut group.mutations, 1);
            if !granted {
                let ghost unchanged = group@;
                groups.set(index, group);
                proof {
                    assert(unchanged =~= before.groups[index as int]);
                    assert(group_views(groups@) =~= before.groups);
                }
                *self = UnstableDescriptors { durable_seq, head_seq, groups };
                return Err(recovery_resource());
            }
            let ghost known = entry_views(group.mutations@);
            group.mutations.push(entry);
            proof {
                assert(entry_views(group.mutations@) =~= known.push(view));
            }
        }
        let ghost changed = group@;
        groups.set(index, group);
        proof {
            assert(group_views(groups@) =~= before.groups.update(index as int, changed));
        }
        *self = UnstableDescriptors { durable_seq, head_seq, groups };
        Ok(())
    }

    /// Reads the transactions out of what came in.
    pub fn finish(self, memory: &mut Memory, durable_end: DurableVLogEnd) -> (result: Result<
        Vec<TransactionDescriptor>,
    >)
        requires
            !old(memory).refused(),
        ensures
            final(memory).refused() ==> (result matches Err(error) && {
                ||| error@ == recovery_resource_view()
                ||| error@ == seen_by_recovery(
                    metadata_decode_view(StorageErrorKind::ResourceExhausted),
                )
            }),
            final(memory).refused() && old(memory).due_within(1) ==> (result matches Err(error)
                && error@ == recovery_resource_view()),
            final(memory).refused() && old(memory).rehearsing() && !old(memory).due_within(1) ==> (
            result matches Err(error) && error@ == seen_by_recovery(
                metadata_decode_view(StorageErrorKind::ResourceExhausted),
            )),
            !final(memory).refused() ==> match loaded(self@, durable_end) {
                Ok(found) => result matches Ok(descriptors) && descriptor_views(descriptors@)
                    == found,
                Err(refusal) => result matches Err(error) && error@ == refusal,
            },
            asked_within(*old(memory), *final(memory), self@.reservations(), self@.most_asked()),
            groups_parsed(self@, self@.groups.len() as int) is Ok ==> asked(
                *old(memory),
                *final(memory),
                self@.reservations(),
                self@.most_asked(),
            ),
    {
        proof {
            use_type_invariant(&self);
        }
        let ghost view = self@;
        let count: usize = self.groups.len();
        let mut descriptors: Vec<TransactionDescriptor> = Vec::new();
        if !memory.reserve_exact(&mut descriptors, count) {
            return Err(recovery_resource());
        }
        let mut i: usize = 0;
        proof {
            assert(descriptor_views(descriptors@) =~= Seq::empty());
            assert(view.groups.take(0) =~= Seq::empty());
        }
        while i < count
            invariant
                !old(memory).refused(),
                asked(
                    *old(memory),
                    *memory,
                    1 + 3 * i as nat + mutation_total(view.groups.take(i as int)),
                    view.most_asked(),
                ),
                i <= count,
                count == self.groups@.len(),
                count == view.groups.len(),
                view == self@,
                view.durable_seq + count <= u64::MAX,
                !memory.refused(),
                groups_parsed(view, i as int) == Ok::<Seq<DescriptorView>, ErrorView>(
                    descriptor_views(descriptors@),
                ),
            decreases count - i,
        {
            let group = &self.groups[i];
            let ghost group_view = view.groups[i as int];
            proof {
                assert(group_view == group@);
                lemma_groups_stop(view, i as int + 1, count as int);
                lemma_mutation_total(view.groups, i as int);
                assert(group_view.mutations.len() == group.mutations@.len());
            }
            let expected_seq: u64 = self.durable_seq + i as u64 + 1;
            let meta = match &group.meta {
                Some(meta) => meta,
                None => return Err(recovery_corruption()),
            };
            let descriptor = match decode_descriptor(
                memory,
                meta.key.as_slice(),
                meta.value.as_slice(),
                group.mutations.as_slice(),
            ) {
                Ok(descriptor) => descriptor,
                Err(error) => return Err(recovery_context(error)),
            };
            if descriptor.meta.commit_seq != expected_seq {
                return Err(recovery_corruption());
            }
            let ghost before = descriptor_views(descriptors@);
            let ghost last = descriptor@;
            descriptors.push(descriptor);
            proof {
                assert(descriptor_views(descriptors@) =~= before.push(last));
            }
            i = i + 1;
        }
        proof {
            assert(view.groups.take(count as int) =~= view.groups);
        }
        validate_descriptor_chain(durable_end, &descriptors)?;
        Ok(descriptors)
    }
}

/// A group that is bad makes all bad.
proof fn lemma_groups_stop(unstable: UnstableView, i: int, n: int)
    requires
        0 <= i <= n,
    ensures
        groups_parsed(unstable, i) is Err ==> groups_parsed(unstable, n) == groups_parsed(
            unstable,
            i,
        ),
    decreases n - i,
{
    if i < n {
        lemma_groups_stop(unstable, i, n - 1);
    }
}

fn validate_descriptor_chain(durable_end: DurableVLogEnd, descriptors: &Vec<TransactionDescriptor>) -> (result:
    Result<()>)
    ensures
        match result {
            Ok(_) => is_chain(durable_end, descriptor_views(descriptors@)),
            Err(error) => !is_chain(durable_end, descriptor_views(descriptors@)) && error@
                == recovery_corruption_view(),
        },
{
    let ghost views = descriptor_views(descriptors@);
    let mut expected_begin = append_position(durable_end);
    let mut i: usize = 0;
    while i < descriptors.len()
        invariant
            i <= descriptors@.len(),
            views == descriptor_views(descriptors@),
            expected_begin == (if i == 0 {
                append_position_of(durable_end)
            } else {
                views[i - 1].meta.vlog_end
            }),
            forall|k: int| 0 <= k < i ==> #[trigger] is_linked(durable_end, views, k),
        decreases descriptors@.len() - i,
    {
        proof {
            assert(views[i as int] == descriptors@[i as int]@);
        }
        if descriptors[i].meta.vlog_begin != expected_begin {
            proof {
                assert(!is_linked(durable_end, views, i as int));
            }
            return Err(recovery_corruption());
        }
        expected_begin = descriptors[i].meta.vlog_end;
        i = i + 1;
    }
    Ok(())
}

} // verus!
