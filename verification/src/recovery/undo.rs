//! Undoing a transaction: every key goes back to the state that it had before.

use vstd::prelude::*;

use crate::batch::MAX_KEY_VALUE_SIZE;
use crate::bytes::{le_bytes, lemma_le_bytes_len, same_bytes};
use crate::commit::apply::{entry_of, held, lemma_same_map, lemma_states_set, states_set};
use crate::commit::descriptor::{
    changes_key, decode_descriptor, entry_views, keys_distinct, mutation_views, parsed_descriptor,
    DescriptorView, EncodedView, EntryView, IndexEntry, MutationView, TransactionDescriptor,
    TxMutation, ValueState,
};
use crate::commit::metadata::{
    encode_head_seq, metadata_decode_view, CommitSeq, RecoveryState,
};
use crate::error::{Result, StorageErrorKind};
use crate::index::batch::{
    head_seq_key, head_seq_name, is_ordinary, lemma_after_concatenation,
    lemma_system_keys_differ, recovery_state_key, recovery_state_name, ChangeView, IndexAtomicBatch, IndexMutation, IndexView,
    InternalIndexSpace,
};
use crate::memory::{asked, asked_within, Memory};
use crate::recovery::descriptors::{
    decode_descriptor_key, empty_group, is_descriptor_key, lemma_descriptor_key, DescriptorGroup,
    GroupView,
};
use crate::recovery::plan::RecoveryPlan;
use crate::recovery::{
    index_batch_context, recovery_context, recovery_corruption, recovery_corruption_view,
    recovery_resource, recovery_resource_view, seen_by_recovery,
};
use crate::vlog::header::same_uuid;

verus! {

/// The transaction that a plan has under a number.
pub open spec fn planned_descriptor(
    durable_seq: CommitSeq,
    descriptors: Seq<TransactionDescriptor>,
    commit_seq: CommitSeq,
) -> Option<TransactionDescriptor> {
    if durable_seq < commit_seq <= durable_seq + descriptors.len() {
        Some(descriptors[commit_seq - durable_seq - 1])
    } else {
        None
    }
}

pub fn expected_descriptor(plan: &RecoveryPlan, commit_seq: CommitSeq) -> (result: Result<
    &TransactionDescriptor,
>)
    ensures
        match planned_descriptor(
            plan.durable_frontier.durable_seq,
            plan.descriptors@,
            commit_seq,
        ) {
            Some(descriptor) => result matches Ok(found) && *found == descriptor,
            None => result matches Err(error) && error@ == recovery_corruption_view(),
        },
{
    let durable_seq: u64 = plan.durable_frontier.durable_seq;
    if commit_seq <= durable_seq {
        return Err(recovery_corruption());
    }
    let relative: u64 = commit_seq - durable_seq - 1;
    let count: usize = plan.descriptors.len();
    if relative >= count as u64 {
        return Err(recovery_corruption());
    }
    Ok(&plan.descriptors[relative as usize])
}

/// Two transactions say the same, down to the checksum.
pub open spec fn same_transaction(a: TransactionDescriptor, b: TransactionDescriptor) -> bool {
    a@ == b@ && a.meta.descriptor_crc32c == b.meta.descriptor_crc32c
}

fn is_same_descriptor(a: &TransactionDescriptor, b: &TransactionDescriptor) -> (same: bool)
    ensures
        same == same_transaction(*a, *b),
{
    let left = &a.meta;
    let right = &b.meta;
    if left.commit_seq != right.commit_seq || !same_uuid(&left.tx_uuid, &right.tx_uuid)
        || left.prev_seq != right.prev_seq || left.vlog_begin != right.vlog_begin || left.vlog_end
        != right.vlog_end || left.logical_op_count != right.logical_op_count
        || left.distinct_key_count != right.distinct_key_count || left.envelope_crc32c
        != right.envelope_crc32c || left.descriptor_crc32c != right.descriptor_crc32c {
        return false;
    }
    proof {
        assert(left@ =~= right@);
        assert(mutation_views(a.mutations@).len() == a.mutations@.len());
        assert(mutation_views(b.mutations@).len() == b.mutations@.len());
    }
    if a.mutations.len() != b.mutations.len() {
        return false;
    }
    let mut i: usize = 0;
    while i < a.mutations.len()
        invariant
            i <= a.mutations@.len(),
            a.mutations@.len() == b.mutations@.len(),
            forall|k: int|
                0 <= k < i ==> #[trigger] mutation_views(a.mutations@)[k] == mutation_views(
                    b.mutations@,
                )[k],
        decreases a.mutations@.len() - i,
    {
        let x = &a.mutations[i];
        let y = &b.mutations[i];
        proof {
            assert(mutation_views(a.mutations@)[i as int] == x@);
            assert(mutation_views(b.mutations@)[i as int] == y@);
        }
        if !same_bytes(x.user_key.as_slice(), y.user_key.as_slice()) || x.before_state
            != y.before_state || x.after_state != y.after_state {
            return false;
        }
        proof {
            assert(x@ =~= y@);
        }
        i = i + 1;
    }
    proof {
        assert(mutation_views(a.mutations@) =~= mutation_views(b.mutations@));
    }
    true
}

/// The entries of a transaction that is loaded again, while they come in.
#[derive(Debug)]
pub struct DescriptorEntries {
    pub commit_seq: CommitSeq,
    pub group: DescriptorGroup,
}

/// What one more entry makes of those of a transaction: only entries of the transaction may
/// come, and only one head.
pub open spec fn entry_taken(commit_seq: CommitSeq, group: GroupView, entry: EntryView) -> Option<
    GroupView,
> {
    if is_descriptor_key(entry.key, commit_seq, true) && group.meta is None {
        Some(GroupView { meta: Some(entry), ..group })
    } else if is_descriptor_key(entry.key, commit_seq, false) {
        Some(GroupView { mutations: group.mutations.push(entry), ..group })
    } else {
        None
    }
}

impl DescriptorEntries {
    pub fn begin(commit_seq: CommitSeq) -> (entries: Self)
        ensures
            entries.commit_seq == commit_seq,
            entries.group@ == empty_group(),
    {
        let group = DescriptorGroup { meta: None, mutations: Vec::new() };
        proof {
            assert(group@ =~= empty_group());
        }
        DescriptorEntries { commit_seq, group }
    }

    /// Takes an entry that was found in the range of the transaction.
    pub fn add(&mut self, memory: &mut Memory, entry: IndexEntry) -> (result: Result<()>)
        requires
            !old(memory).refused(),
        ensures
            final(self).commit_seq == old(self).commit_seq,
            final(memory).refused() ==> {
                &&& result matches Err(error) && error@ == recovery_resource_view()
                &&& final(self).group@ == old(self).group@
            },
            !final(memory).refused() ==> match entry_taken(
                old(self).commit_seq,
                old(self).group@,
                entry@,
            ) {
                Some(next) => result is Ok && final(self).group@ == next,
                None => {
                    &&& result matches Err(error) && error@ == recovery_corruption_view()
                    &&& final(self).group@ == old(self).group@
                },
            },
            if is_descriptor_key(entry@.key, old(self).commit_seq, false) {
                asked(*old(memory), *final(memory), 1, old(self).group@.mutations.len() + 1)
            } else {
                *final(memory) == *old(memory)
            },
    {
        let ghost before = self.group@;
        let ghost view = entry@;
        let (commit_seq, is_meta) = decode_descriptor_key(entry.key.as_slice())?;
        proof {
            assert forall|x: bool|
                is_descriptor_key(view.key, self.commit_seq, x) implies self.commit_seq
                == commit_seq && x == is_meta by {
                lemma_descriptor_key(view.key, self.commit_seq, commit_seq, x, is_meta);
            }
        }
        if commit_seq != self.commit_seq {
            return Err(recovery_corruption());
        }
        if is_meta {
            if self.group.meta.is_some() {
                return Err(recovery_corruption());
            }
            self.group.meta = Some(entry);
        } else {
            if !memory.reserve(&mut self.group.mutations, 1) {
                proof {
                    assert(self.group@ =~= before);
                }
                return Err(recovery_resource());
            }
            self.group.mutations.push(entry);
            proof {
                assert(entry_views(self.group.mutations@) =~= before.mutations.push(view));
            }
        }
        Ok(())
    }
}

/// A transaction that was loaded again, with its entries.
#[derive(Debug)]
pub struct LoadedDescriptor {
    pub descriptor: TransactionDescriptor,
    pub meta_key: Vec<u8>,
    pub entries: Vec<IndexEntry>,
}

/// Reads a transaction again from its entries: it has to be the one that was planned for.
pub fn load_descriptor(
    memory: &mut Memory,
    expected: &TransactionDescriptor,
    meta: Option<IndexEntry>,
    entries: Vec<IndexEntry>,
) -> (result: Result<LoadedDescriptor>)
    requires
        !old(memory).refused(),
    ensures
        final(memory).refused() ==> (result matches Err(error) && error@ == seen_by_recovery(
            metadata_decode_view(StorageErrorKind::ResourceExhausted),
        )),
        !final(memory).refused() ==> match meta {
            None => result matches Err(error) && error@ == recovery_corruption_view(),
            Some(head) => match parsed_descriptor(
                EncodedView {
                    meta_key: head.key@,
                    meta_value: head.value@,
                    mutations: entry_views(entries@),
                },
            ) {
                Err(kind) => result matches Err(error) && error@ == seen_by_recovery(
                    metadata_decode_view(kind),
                ),
                Ok(found) => match result {
                    Ok(loaded) => {
                        &&& loaded.descriptor@ == found && found == expected@
                        &&& crate::bytes::u32_at(head.value@, 82)
                            == expected.meta.descriptor_crc32c
                        &&& loaded.descriptor.meta.descriptor_crc32c
                            == expected.meta.descriptor_crc32c
                        &&& loaded.meta_key@ == head.key@ && loaded.entries@ == entries@
                    },
                    Err(error) => error@ == recovery_corruption_view() && (found != expected@
                        || crate::bytes::u32_at(head.value@, 82)
                        != expected.meta.descriptor_crc32c),
                },
            },
        },
        match meta {
            None => *final(memory) == *old(memory),
            Some(head) => {
                let encoded = EncodedView {
                    meta_key: head.key@,
                    meta_value: head.value@,
                    mutations: entry_views(entries@),
                };
                let most = entries@.len() + MAX_KEY_VALUE_SIZE as nat;
                if encoded.headed() {
                    &&& asked_within(*old(memory), *final(memory), 3 + entries@.len(), most)
                    &&& parsed_descriptor(encoded) is Ok ==> asked(
                        *old(memory),
                        *final(memory),
                        3 + entries@.len(),
                        most,
                    )
                } else {
                    *final(memory) == *old(memory)
                }
            },
        },
{
    let head = match meta {
        Some(head) => head,
        None => return Err(recovery_corruption()),
    };
    let descriptor = match decode_descriptor(
        memory,
        head.key.as_slice(),
        head.value.as_slice(),
        entries.as_slice(),
    ) {
        Ok(descriptor) => descriptor,
        Err(error) => return Err(recovery_context(error)),
    };
    if !is_same_descriptor(&descriptor, expected) {
        return Err(recovery_corruption());
    }
    Ok(LoadedDescriptor { descriptor, meta_key: head.key, entries })
}

/// Checks that a key is still in the state in which a transaction left it.
pub fn check_after_state(mutation: &TxMutation, read: Result<Option<Vec<u8>>>) -> (result: Result<()>)
    requires
        mutation@.valid(),
    ensures
        match read {
            Err(failure) => result matches Err(error) && error@ == seen_by_recovery(failure@),
            Ok(actual) => if crate::commit::prepare::opt_bytes(actual) == entry_of(
                mutation.after_state,
            ) {
                result is Ok
            } else {
                result matches Err(error) && error@ == recovery_corruption_view()
            },
        },
{
    let actual = match read {
        Ok(actual) => actual,
        Err(error) => return Err(recovery_context(error)),
    };
    let matching = match (&mutation.after_state, &actual) {
        (ValueState::Absent, None) => true,
        (ValueState::Present(pointer), Some(bytes)) => {
            let encoded = match pointer.encode() {
                Ok(encoded) => encoded,
                Err(error) => return Err(recovery_context(error)),
            };
            same_bytes(bytes.as_slice(), encoded.as_slice())
        },
        _ => false,
    };
    if matching {
        Ok(())
    } else {
        Err(recovery_corruption())
    }
}

/// The entries of a transaction are removed.
pub open spec fn entries_removed(keys: Seq<EntryView>) -> Seq<ChangeView> {
    Seq::new(
        keys.len(),
        |i: int|
            ChangeView::DeleteInternal {
                space: InternalIndexSpace::Transaction,
                key: keys[i].key,
            },
    )
}

/// What undoing a transaction changes: its keys go back, its entries go, and the head and the
/// state of the recovery move on.
pub open spec fn undo_changes(
    descriptor: DescriptorView,
    meta_key: Seq<u8>,
    entries: Seq<EntryView>,
    next_state: RecoveryState,
) -> Seq<ChangeView> {
    states_set(descriptor.mutations, true) + entries_removed(entries) + seq![
        ChangeView::DeleteInternal { space: InternalIndexSpace::Transaction, key: meta_key },
        ChangeView::PutInternal {
            space: InternalIndexSpace::System,
            key: head_seq_key(),
            value: le_bytes(next_state.next_undo_seq as nat, 8),
        },
        ChangeView::PutInternal {
            space: InternalIndexSpace::System,
            key: recovery_state_key(),
            value: next_state.encoded(),
        },
    ]
}

/// Appends an ordinary change to a batch of the recovery.
pub fn push_recovery(memory: &mut Memory, batch: &mut IndexAtomicBatch, mutation: IndexMutation) -> (result:
    Result<()>)
    requires
        !old(memory).refused(),
        is_ordinary(mutation@),
    ensures
        match result {
            Ok(_) => !final(memory).refused() && final(batch)@ == old(batch)@.push(mutation@),
            Err(error) => final(memory).refused() && error@ == recovery_resource_view()
                && final(batch)@ == old(batch)@,
        },
        asked(*old(memory), *final(memory), 1, old(batch)@.len() + 1),
{
    match batch.try_push(memory, mutation) {
        Ok(_) => Ok(()),
        Err(error) => Err(index_batch_context(error)),
    }
}

fn copy_for_recovery(memory: &mut Memory, bytes: &[u8]) -> (result: Result<Vec<u8>>)
    requires
        !old(memory).refused(),
    ensures
        match result {
            Ok(copy) => !final(memory).refused() && copy@ == bytes@,
            Err(error) => final(memory).refused() && error@ == recovery_resource_view(),
        },
        asked(*old(memory), *final(memory), 1, bytes@.len()),
{
    match memory.copy(bytes) {
        Some(copy) => Ok(copy),
        None => Err(recovery_resource()),
    }
}

/// Appends the head of the index to a batch.
pub fn push_head(memory: &mut Memory, batch: &mut IndexAtomicBatch, head_seq: CommitSeq) -> (result:
    Result<()>)
    requires
        !old(memory).refused(),
    ensures
        match result {
            Ok(_) => !final(memory).refused() && final(batch)@ == old(batch)@.push(
                ChangeView::PutInternal {
                    space: InternalIndexSpace::System,
                    key: head_seq_key(),
                    value: le_bytes(head_seq as nat, 8),
                },
            ),
            Err(error) => final(memory).refused() && error@ == recovery_resource_view()
                && final(batch)@ == old(batch)@,
        },
        asked(*old(memory), *final(memory), 3, head_seq_key().len() + 8 + old(batch)@.len() + 1),
{
    let key = copy_for_recovery(memory, &head_seq_name())?;
    let encoded = encode_head_seq(head_seq);
    proof {
        lemma_le_bytes_len(head_seq as nat, 8);
    }
    let value = copy_for_recovery(memory, encoded.as_slice())?;
    proof {
        lemma_system_keys_differ();
    }
    push_recovery(
        memory,
        batch,
        IndexMutation::PutInternal { space: InternalIndexSpace::System, key, value },
    )
}

/// The most elements that a list is to have room for when the state of a recovery is appended to
/// a batch of some length.
pub open spec fn most_for_state(length: nat, state: RecoveryState) -> nat {
    recovery_state_key().len() + state.encoded().len() + length + 1
}

/// Appends the state of a recovery to a batch.
pub fn push_recovery_state(memory: &mut Memory, batch: &mut IndexAtomicBatch, state: RecoveryState) -> (result:
    Result<()>)
    requires
        !old(memory).refused(),
        state.valid(),
    ensures
        match result {
            Ok(_) => !final(memory).refused() && final(batch)@ == old(batch)@.push(
                ChangeView::PutInternal {
                    space: InternalIndexSpace::System,
                    key: recovery_state_key(),
                    value: state.encoded(),
                },
            ),
            Err(error) => final(memory).refused() && error@ == recovery_resource_view()
                && final(batch)@ == old(batch)@,
        },
        asked(*old(memory), *final(memory), 3, most_for_state(old(batch)@.len(), state)),
{
    let key = copy_for_recovery(memory, &recovery_state_name())?;
    let encoded = match state.encode() {
        Ok(encoded) => encoded,
        Err(error) => return Err(recovery_context(error)),
    };
    let value = copy_for_recovery(memory, encoded.as_slice())?;
    proof {
        lemma_system_keys_differ();
        lemma_le_bytes_len(crate::checksum::crc32c_of(state.body()) as nat, 4);
        assert(state.encoded().len() > 0);
    }
    push_recovery(
        memory,
        batch,
        IndexMutation::PutInternal { space: InternalIndexSpace::System, key, value },
    )
}

/// How many keys had a value.
pub open spec fn present_before_count(mutations: Seq<MutationView>) -> nat
    decreases mutations.len(),
{
    if mutations.len() == 0 {
        0
    } else {
        present_before_count(mutations.drop_last()) + (if mutations.last().before_state is Absent {
            0nat
        } else {
            1
        })
    }
}

/// The first keys that had a value are no more than all of them.
proof fn lemma_present_before_count(mutations: Seq<MutationView>, count: int)
    requires
        0 <= count <= mutations.len(),
    ensures
        present_before_count(mutations.take(count)) <= present_before_count(mutations),
    decreases mutations.len(),
{
    if count < mutations.len() {
        lemma_present_before_count(mutations.drop_last(), count);
        assert(mutations.drop_last().take(count) =~= mutations.take(count));
    } else {
        assert(mutations.take(count) =~= mutations);
    }
}

/// How long the keys of entries are together.
pub open spec fn key_total(entries: Seq<EntryView>) -> nat
    decreases entries.len(),
{
    if entries.len() == 0 {
        0
    } else {
        key_total(entries.drop_last()) + entries.last().key.len()
    }
}

/// One key is no longer than all.
proof fn lemma_key_total(entries: Seq<EntryView>, i: int)
    requires
        0 <= i < entries.len(),
    ensures
        entries[i].key.len() <= key_total(entries),
    decreases entries.len(),
{
    if i < entries.len() - 1 {
        lemma_key_total(entries.drop_last(), i);
    }
}

/// How many reservations the batch that undoes a transaction takes: one for the batch; two for
/// each key, and one for its pointer, if it had one; two for each entry and for the head of the
/// transaction; and three for the head of the index and for the state of the recovery.
pub open spec fn undo_reservations(mutations: Seq<MutationView>, entries: nat) -> nat {
    1 + 2 * mutations.len() + present_before_count(mutations) + 2 * entries + 2 + 3 + 3
}

/// The most elements that a list is to have room for.
pub open spec fn undo_most(
    mutations: Seq<MutationView>,
    meta_key: Seq<u8>,
    entries: Seq<EntryView>,
    next_state: RecoveryState,
) -> nat {
    2 * mutations.len() + entries.len() + 3 + MAX_KEY_VALUE_SIZE as nat + key_total(entries)
        + meta_key.len() + head_seq_key().len() + 8 + most_for_state(0, next_state)
}

/// Makes the batch that undoes a transaction.
pub fn build_undo_batch(memory: &mut Memory, loaded: &LoadedDescriptor, next_state: RecoveryState) -> (result:
    Result<IndexAtomicBatch>)
    requires
        !old(memory).refused(),
        next_state.valid(),
        loaded.descriptor@.valid(),
        loaded.meta_key@.len() > 0,
        forall|i: int|
            0 <= i < loaded.entries@.len() ==> (#[trigger] entry_views(loaded.entries@)[i]).key.len()
                > 0,
        2 * loaded.descriptor@.mutations.len() + 3 <= usize::MAX,
    ensures
        match result {
            Ok(batch) => !final(memory).refused() && batch@ == undo_changes(
                loaded.descriptor@,
                loaded.meta_key@,
                entry_views(loaded.entries@),
                next_state,
            ),
            Err(error) => final(memory).refused() && error@ == recovery_resource_view(),
        },
        asked(
            *old(memory),
            *final(memory),
            undo_reservations(loaded.descriptor@.mutations, loaded.entries@.len()),
            undo_most(
                loaded.descriptor@.mutations,
                loaded.meta_key@,
                entry_views(loaded.entries@),
                next_state,
            ),
        ),
{
    let mutations = &loaded.descriptor.mutations;
    let entries = &loaded.entries;
    let ghost views = mutation_views(mutations@);
    let ghost back = states_set(views, true);
    let ghost keys = entry_views(entries@);
    let capacity: usize = mutations.len() * 2 + 3;
    let mut batch = match IndexAtomicBatch::try_with_capacity(memory, capacity) {
        Ok(batch) => batch,
        Err(error) => return Err(index_batch_context(error)),
    };
    let ghost most = undo_most(views, loaded.meta_key@, keys, next_state);
    let mut i: usize = 0;
    proof {
        assert(views.take(0) =~= Seq::empty());
        assert(keys.len() == entries@.len());
        assert(back.take(0) =~= Seq::empty());
        assert(views == loaded.descriptor@.mutations);
    }
    while i < mutations.len()
        invariant
            !old(memory).refused(),
            views == loaded.descriptor@.mutations,
            keys == entry_views(loaded.entries@),
            keys.len() == loaded.entries@.len(),
            views.len() == mutations@.len(),
            most == undo_most(views, loaded.meta_key@, keys, next_state),
            asked(
                *old(memory),
                *memory,
                1 + 2 * i as nat + present_before_count(views.take(i as int)),
                most,
            ),
            i <= mutations@.len(),
            views == mutation_views(mutations@),
            back == states_set(views, true),
            !memory.refused(),
            forall|k: int| 0 <= k < views.len() ==> (#[trigger] views[k]).valid(),
            batch@ == back.take(i as int),
        decreases mutations@.len() - i,
    {
        let mutation = &mutations[i];
        proof {
            assert(views[i as int] == mutation@);
            assert(views[i as int].valid());
            assert(views.take(i + 1).drop_last() =~= views.take(i as int));
            lemma_present_before_count(views, i + 1);
        }
        let user_key = copy_for_recovery(memory, mutation.user_key.as_slice())?;
        let change = match mutation.before_state {
            ValueState::Absent => IndexMutation::DeleteUser { user_key },
            ValueState::Present(pointer) => {
                proof {
                    crate::vlog::pointer::lemma_pointer_layout(pointer);
                }
                let encoded = match pointer.encode() {
                    Ok(encoded) => encoded,
                    Err(error) => return Err(recovery_context(error)),
                };
                let encoded_pointer = copy_for_recovery(memory, encoded.as_slice())?;
                IndexMutation::PutUser { user_key, encoded_pointer }
            },
        };
        proof {
            assert(change@ == back[i as int]);
        }
        push_recovery(memory, &mut batch, change)?;
        i = i + 1;
        proof {
            assert(back.take(i as int) =~= back.take(i - 1).push(back[i - 1]));
        }
    }
    proof {
        assert(back.take(i as int) =~= back);
        assert(views.take(i as int) =~= views);
    }
    let mut j: usize = 0;
    proof {
        assert(back + entries_removed(keys).take(0) =~= back);
    }
    while j < entries.len()
        invariant
            !old(memory).refused(),
            views == loaded.descriptor@.mutations,
            keys == entry_views(loaded.entries@),
            keys.len() == loaded.entries@.len(),
            back.len() == views.len(),
            entries@.len() == keys.len(),
            most == undo_most(views, loaded.meta_key@, keys, next_state),
            asked(
                *old(memory),
                *memory,
                1 + 2 * views.len() + present_before_count(views) + 2 * j as nat,
                most,
            ),
            j <= entries@.len(),
            keys == entry_views(entries@),
            !memory.refused(),
            forall|k: int| 0 <= k < keys.len() ==> (#[trigger] keys[k]).key.len() > 0,
            batch@ == back + entries_removed(keys).take(j as int),
        decreases entries@.len() - j,
    {
        proof {
            assert(keys[j as int] == entries@[j as int]@);
            lemma_key_total(keys, j as int);
        }
        let key = copy_for_recovery(memory, entries[j].key.as_slice())?;
        push_recovery(
            memory,
            &mut batch,
            IndexMutation::DeleteInternal { space: InternalIndexSpace::Transaction, key },
        )?;
        j = j + 1;
        proof {
            assert(back + entries_removed(keys).take(j as int) =~= (back + entries_removed(
                keys,
            ).take(j - 1)).push(entries_removed(keys)[j - 1]));
        }
    }
    proof {
        assert(entries_removed(keys).take(j as int) =~= entries_removed(keys));
    }
    let meta_key = copy_for_recovery(memory, loaded.meta_key.as_slice())?;
    push_recovery(
        memory,
        &mut batch,
        IndexMutation::DeleteInternal { space: InternalIndexSpace::Transaction, key: meta_key },
    )?;
    push_head(memory, &mut batch, next_state.next_undo_seq)?;
    push_recovery_state(memory, &mut batch, next_state)?;
    proof {
        assert(batch@ =~= undo_changes(
            loaded.descriptor@,
            loaded.meta_key@,
            entry_views(loaded.entries@),
            next_state,
        ));
    }
    Ok(batch)
}

/// A transaction that is undone, with its entries and the state of the recovery behind it.
#[verifier::ext_equal]
pub struct UndoView {
    pub descriptor: DescriptorView,
    pub meta_key: Seq<u8>,
    pub entries: Seq<EntryView>,
    pub next_state: RecoveryState,
}

impl UndoView {
    /// What undoing the transaction changes.
    pub open spec fn changes(self) -> Seq<ChangeView> {
        undo_changes(self.descriptor, self.meta_key, self.entries, self.next_state)
    }
}

/// A transaction wrote down what users saw under its keys, each of which it changes once.
pub open spec fn saw(descriptor: DescriptorView, index: IndexView) -> bool {
    &&& keys_distinct(descriptor.mutations)
    &&& forall|i: int|
        0 <= i < descriptor.mutations.len() ==> held(
            index.user,
            (#[trigger] descriptor.mutations[i]).user_key,
        ) == entry_of(descriptor.mutations[i].before_state)
}

/// The index after transactions set their keys, one after the other.
pub open spec fn after_transactions(index: IndexView, undos: Seq<UndoView>) -> IndexView
    decreases undos.len(),
{
    if undos.len() == 0 {
        index
    } else {
        after_transactions(index, undos.drop_last()).after_all(
            states_set(undos.last().descriptor.mutations, false),
        )
    }
}

/// Each of some transactions wrote down what the ones before it left.
pub open spec fn saw_each_other(index: IndexView, undos: Seq<UndoView>) -> bool
    decreases undos.len(),
{
    undos.len() > 0 ==> {
        &&& saw_each_other(index, undos.drop_last())
        &&& saw(undos.last().descriptor, after_transactions(index, undos.drop_last()))
    }
}

/// The index after transactions were undone, the last one first.
pub open spec fn after_undos(index: IndexView, undos: Seq<UndoView>) -> IndexView
    decreases undos.len(),
{
    if undos.len() == 0 {
        index
    } else {
        after_undos(index.after_all(undos.last().changes()), undos.drop_last())
    }
}

/// Removing entries of transactions leaves all else alone.
proof fn lemma_entries_removed(index: IndexView, entries: Seq<EntryView>)
    ensures
        index.after_all(entries_removed(entries)).user == index.user,
        index.after_all(entries_removed(entries)).system == index.system,
    decreases entries.len(),
{
    let changes = entries_removed(entries);
    if entries.len() > 0 {
        assert(changes.drop_last() =~= entries_removed(entries.drop_last()));
        assert(changes.last() == changes[entries.len() - 1]);
        lemma_entries_removed(index, entries.drop_last());
    }
}

/// What an undo does: the keys of the transaction are set back, and the head and the state of
/// the recovery are written.
proof fn lemma_undo(index: IndexView, undo: UndoView)
    requires
        keys_distinct(undo.descriptor.mutations),
    ensures
        ({
            let back = states_set(undo.descriptor.mutations, true);
            let after = index.after_all(undo.changes());
            &&& after.user == index.after_all(back).user
            &&& after.system == index.system.insert(
                head_seq_key(),
                le_bytes(undo.next_state.next_undo_seq as nat, 8),
            ).insert(recovery_state_key(), undo.next_state.encoded())
        }),
{
    let back = states_set(undo.descriptor.mutations, true);
    let gone = entries_removed(undo.entries);
    let meta = ChangeView::DeleteInternal {
        space: InternalIndexSpace::Transaction,
        key: undo.meta_key,
    };
    let head = ChangeView::PutInternal {
        space: InternalIndexSpace::System,
        key: head_seq_key(),
        value: le_bytes(undo.next_state.next_undo_seq as nat, 8),
    };
    let state = ChangeView::PutInternal {
        space: InternalIndexSpace::System,
        key: recovery_state_key(),
        value: undo.next_state.encoded(),
    };
    let rest = seq![meta, head, state];
    lemma_after_concatenation(index, back + gone, rest);
    lemma_after_concatenation(index, back, gone);
    lemma_states_set(index, undo.descriptor.mutations, true, Seq::empty());
    lemma_entries_removed(index.after_all(back), undo.entries);
    let between = index.after_all(back + gone);
    assert(between.after_all(rest) == between.after(meta).after(head).after(state)) by {
        reveal_with_fuel(IndexView::after_all, 4);
        assert(rest.drop_last() =~= seq![meta, head]);
        assert(rest.drop_last().drop_last() =~= seq![meta]);
        assert(rest.drop_last().drop_last().drop_last() =~= Seq::empty());
    }
}

/// Undoing a transaction brings back what users saw before it.
pub proof fn law_undo_restores_user_keys(before: IndexView, found: IndexView, undo: UndoView)
    requires
        saw(undo.descriptor, before),
        found.user == before.after_all(states_set(undo.descriptor.mutations, false)).user,
    ensures
        found.after_all(undo.changes()).user == before.user,
{
    let mutations = undo.descriptor.mutations;
    let undone = found.after_all(undo.changes());
    lemma_undo(found, undo);
    assert forall|key: Seq<u8>| held(undone.user, key) == held(before.user, key) by {
        lemma_states_set(before, mutations, false, key);
        lemma_states_set(found, mutations, true, key);
        if changes_key(mutations, key) {
            let i = choose|i: int|
                0 <= i < mutations.len() && (#[trigger] mutations[i]).user_key == key;
            assert(held(before.user, mutations[i].user_key) == entry_of(
                mutations[i].before_state,
            ));
        }
    }
    lemma_same_map(undone.user, before.user);
}

/// Undoing transactions, the last one first, brings back what users saw before the first of
/// them. The head of the index is then where the undo of the first one puts it.
pub proof fn law_undos_restore_user_keys(before: IndexView, found: IndexView, undos: Seq<UndoView>)
    requires
        saw_each_other(before, undos),
        found.user == after_transactions(before, undos).user,
    ensures
        after_undos(found, undos).user == before.user,
        undos.len() > 0 ==> held(after_undos(found, undos).system, head_seq_key()) == Some(
            le_bytes(undos.first().next_state.next_undo_seq as nat, 8),
        ),
        undos.len() == 0 ==> after_undos(found, undos) == found,
    decreases undos.len(),
{
    if undos.len() > 0 {
        let front = undos.drop_last();
        let undone = found.after_all(undos.last().changes());
        law_undo_restores_user_keys(after_transactions(before, front), found, undos.last());
        law_undos_restore_user_keys(before, undone, front);
        lemma_undo(found, undos.last());
        lemma_system_keys_differ();
    }
}

proof fn lemma_entries_gone(index: IndexView, entries: Seq<EntryView>, key: Seq<u8>)
    ensures
        ({
            let after = index.after_all(entries_removed(entries)).transaction;
            &&& (exists|i: int| 0 <= i < entries.len() && (#[trigger] entries[i]).key == key)
                ==> !after.dom().contains(key)
            &&& (forall|i: int| 0 <= i < entries.len() ==> (#[trigger] entries[i]).key != key)
                ==> after.dom().contains(key) == index.transaction.dom().contains(key) && (
            index.transaction.dom().contains(key) ==> after[key] == index.transaction[key])
        }),
    decreases entries.len(),
{
    let changes = entries_removed(entries);
    if entries.len() > 0 {
        let front = entries.drop_last();
        let last = entries[entries.len() - 1];
        assert(changes.drop_last() =~= entries_removed(front));
        assert(changes.last() == (ChangeView::DeleteInternal {
            space: InternalIndexSpace::Transaction,
            key: last.key,
        }));
        lemma_entries_gone(index, front, key);
        if exists|i: int| 0 <= i < entries.len() && (#[trigger] entries[i]).key == key {
            let i = choose|i: int| 0 <= i < entries.len() && (#[trigger] entries[i]).key == key;
            if i < front.len() {
                assert(front[i].key == key);
            }
        } else {
            assert forall|i: int| 0 <= i < front.len() implies (#[trigger] front[i]).key != key by {
                assert(entries[i].key != key);
            }
        }
    }
}

/// An undone transaction leaves nothing of itself in the index: its head and its entries are
/// gone, no other transaction is touched, and head and state of the recovery are the next ones.
pub proof fn law_undo_removes_the_transaction(index: IndexView, undo: UndoView, key: Seq<u8>)
    requires
        keys_distinct(undo.descriptor.mutations),
    ensures
        ({
            let after = index.after_all(undo.changes());
            let own = key == undo.meta_key || exists|i: int|
                0 <= i < undo.entries.len() && (#[trigger] undo.entries[i]).key == key;
            &&& own ==> !after.transaction.dom().contains(key)
            &&& !own ==> after.transaction.dom().contains(key)
                == index.transaction.dom().contains(key) && (index.transaction.dom().contains(key)
                ==> after.transaction[key] == index.transaction[key])
            &&& after.system == index.system.insert(
                head_seq_key(),
                le_bytes(undo.next_state.next_undo_seq as nat, 8),
            ).insert(recovery_state_key(), undo.next_state.encoded())
        }),
{
    lemma_undo(index, undo);
    let back = states_set(undo.descriptor.mutations, true);
    let gone = entries_removed(undo.entries);
    let rest = undo.changes().skip((back + gone).len() as int);
    assert(undo.changes() =~= back + gone + rest);
    lemma_after_concatenation(index, back + gone, rest);
    lemma_after_concatenation(index, back, gone);
    lemma_states_set(index, undo.descriptor.mutations, true, Seq::empty());
    lemma_entries_gone(index.after_all(back), undo.entries, key);
    let between = index.after_all(back + gone);
    assert(between.after_all(rest).transaction == between.transaction.remove(undo.meta_key)) by {
        reveal_with_fuel(IndexView::after_all, 4);
        assert(rest.len() == 3);
        assert(rest.drop_last() =~= seq![rest[0], rest[1]]);
        assert(rest.drop_last().drop_last() =~= seq![rest[0]]);
        assert(rest.drop_last().drop_last().drop_last() =~= Seq::empty());
    }
}

/// Two transactions are the same exactly where all that they say is the same.
pub proof fn law_same_transaction_says_the_same(
    a: TransactionDescriptor,
    b: TransactionDescriptor,
    c: TransactionDescriptor,
)
    ensures
        same_transaction(a, a),
        same_transaction(a, b) ==> same_transaction(b, a),
        same_transaction(a, b) && same_transaction(b, c) ==> same_transaction(a, c),
        same_transaction(a, b) ==> a@.meta == b@.meta && a@.mutations == b@.mutations
            && a.meta.descriptor_crc32c == b.meta.descriptor_crc32c,
        a@.meta == b@.meta && a@.mutations == b@.mutations && a.meta.descriptor_crc32c
            == b.meta.descriptor_crc32c ==> same_transaction(a, b),
{
}

} // verus!
