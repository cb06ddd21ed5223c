//! What a commit does to the index.

use vstd::prelude::*;

use crate::batch::OperationView;
use crate::bytes::le_bytes;
use crate::commit::descriptor::{
    changes_key, keys_distinct, EncodedView, EntryView, MutationView, ValueState,
};
use crate::commit::preflight::{distinct_keys, law_keys_of_a_write};
use crate::commit::prepare::{
    entry_changes, law_prepared_descriptor_is_valid, record_changes, state_after, user_changes,
    CommitInputs,
};
use crate::error::ErrorView;
use crate::index::batch::{
    head_seq_key, lemma_after_concatenation, ChangeView, IndexView, InternalIndexSpace,
};
use crate::vlog::envelope::{envelope, EnvelopeView};
use crate::vlog::layout::can_go_on;
use crate::vlog::pointer::ValuePointer;

verus! {

/// What a map holds for a key.
pub open spec fn held(map: Map<Seq<u8>, Seq<u8>>, key: Seq<u8>) -> Option<Seq<u8>> {
    if map.dom().contains(key) {
        Some(map[key])
    } else {
        None
    }
}

/// What the index holds for a key in some state.
pub open spec fn entry_of(state: ValueState) -> Option<Seq<u8>> {
    match state {
        ValueState::Absent => None,
        ValueState::Present(pointer) => Some(pointer.encoded()),
    }
}

/// The pointers by user key after operations, one after the other.
pub open spec fn user_after(
    user: Map<Seq<u8>, Seq<u8>>,
    operations: Seq<OperationView>,
    pointers: Seq<Option<ValuePointer>>,
) -> Map<Seq<u8>, Seq<u8>>
    decreases operations.len(),
{
    if operations.len() == 0 {
        user
    } else {
        let before = user_after(user, operations.drop_last(), pointers);
        let key = operations.last().key();
        match pointers[operations.len() - 1] {
            Some(pointer) => before.insert(key, pointer.encoded()),
            None => before.remove(key),
        }
    }
}

/// One after the other, the operations leave each key as the last operation on it does.
proof fn lemma_user_after(
    user: Map<Seq<u8>, Seq<u8>>,
    operations: Seq<OperationView>,
    pointers: Seq<Option<ValuePointer>>,
    key: Seq<u8>,
    before: ValueState,
)
    ensures
        distinct_keys(operations).contains(key) ==> held(
            user_after(user, operations, pointers),
            key,
        ) == entry_of(state_after(operations, pointers, key, before)),
        !distinct_keys(operations).contains(key) ==> held(
            user_after(user, operations, pointers),
            key,
        ) == held(user, key),
    decreases operations.len(),
{
    if operations.len() > 0 {
        lemma_user_after(user, operations.drop_last(), pointers, key, before);
        law_keys_of_a_write(operations);
        law_keys_of_a_write(operations.drop_last());
        let front = distinct_keys(operations.drop_last());
        let last = operations.last().key();
        assert(operations[operations.len() - 1].key() == last);
        if key == last {
            assert(distinct_keys(operations).contains(key));
        } else {
            if front.contains(key) {
                let i = choose|i: int|
                    0 <= i < operations.drop_last().len() && (
                    #[trigger] operations.drop_last()[i]).key() == key;
                assert(operations[i].key() == key);
            }
            if distinct_keys(operations).contains(key) {
                let i = choose|i: int|
                    0 <= i < operations.len() && (#[trigger] operations[i]).key() == key;
                assert(operations.drop_last()[i].key() == key);
            }
        }
    }
}

/// The states that changed keys are set to, in one direction or the other.
pub open spec fn states_set(mutations: Seq<MutationView>, back: bool) -> Seq<ChangeView> {
    Seq::new(
        mutations.len(),
        |i: int|
            match (if back {
                mutations[i].before_state
            } else {
                mutations[i].after_state
            }) {
                ValueState::Absent => ChangeView::DeleteUser { user_key: mutations[i].user_key },
                ValueState::Present(pointer) => ChangeView::PutUser {
                    user_key: mutations[i].user_key,
                    encoded_pointer: pointer.encoded(),
                },
            },
    )
}

/// Setting distinct keys to states leaves each of them in its state, and all others alone.
pub proof fn lemma_states_set(
    index: IndexView,
    mutations: Seq<MutationView>,
    back: bool,
    key: Seq<u8>,
)
    requires
        keys_distinct(mutations),
    ensures
        ({
            let after = index.after_all(states_set(mutations, back));
            &&& after.transaction == index.transaction
            &&& after.system == index.system
            &&& forall|i: int|
                0 <= i < mutations.len() && (#[trigger] mutations[i]).user_key == key ==> held(
                    after.user,
                    key,
                ) == entry_of(
                    if back {
                        mutations[i].before_state
                    } else {
                        mutations[i].after_state
                    },
                )
            &&& !changes_key(mutations, key) ==> held(after.user, key) == held(index.user, key)
        }),
    decreases mutations.len(),
{
    let changes = states_set(mutations, back);
    if mutations.len() > 0 {
        let front = mutations.drop_last();
        assert(keys_distinct(front));
        assert(changes.drop_last() =~= states_set(front, back));
        lemma_states_set(index, front, back, key);
        let n = mutations.len() - 1;
        assert(changes.last() == changes[n]);
        assert forall|i: int|
            0 <= i < mutations.len() && (#[trigger] mutations[i]).user_key == key implies held(
            index.after_all(changes).user,
            key,
        ) == entry_of(
            if back {
                mutations[i].before_state
            } else {
                mutations[i].after_state
            },
        ) by {
            if i < n {
                assert(front[i] == mutations[i]);
                assert(mutations[i].user_key != mutations[n].user_key);
            }
        }
        if !changes_key(mutations, key) {
            assert(mutations[n].user_key != key);
            if changes_key(front, key) {
                let i = choose|i: int| 0 <= i < front.len() && (#[trigger] front[i]).user_key == key;
                assert(mutations[i].user_key == key);
            }
        }
    }
}

/// Entries of the transaction keyspace do not touch what users see.
proof fn lemma_entries_put(index: IndexView, entries: Seq<EntryView>)
    ensures
        index.after_all(entry_changes(entries)).user == index.user,
        index.after_all(entry_changes(entries)).system == index.system,
    decreases entries.len(),
{
    if entries.len() > 0 {
        assert(entry_changes(entries).drop_last() =~= entry_changes(entries.drop_last()));
        lemma_entries_put(index, entries.drop_last());
    }
}

/// What a commit records of itself does not touch what users see.
pub proof fn lemma_record_put(index: IndexView, encoded: EncodedView, commit_seq: u64)
    ensures
        ({
            let after = index.after_all(record_changes(encoded, commit_seq));
            &&& after.user == index.user
            &&& after.system == index.system.insert(head_seq_key(), le_bytes(commit_seq as nat, 8))
        }),
{
    let meta = seq![
        ChangeView::PutInternal {
            space: InternalIndexSpace::Transaction,
            key: encoded.meta_key,
            value: encoded.meta_value,
        },
    ];
    let entries = entry_changes(encoded.mutations);
    let head = seq![
        ChangeView::PutInternal {
            space: InternalIndexSpace::System,
            key: head_seq_key(),
            value: le_bytes(commit_seq as nat, 8),
        },
    ];
    lemma_after_concatenation(index, meta + entries, head);
    lemma_after_concatenation(index, meta, entries);
    lemma_one_change(index, meta[0]);
    assert(meta =~= seq![meta[0]]);
    let with_meta = index.after_all(meta);
    lemma_entries_put(with_meta, encoded.mutations);
    let with_entries = with_meta.after_all(entries);
    lemma_one_change(with_entries, head[0]);
    assert(head =~= seq![head[0]]);
}

proof fn lemma_one_change(index: IndexView, change: ChangeView)
    ensures
        index.after_all(seq![change]) == index.after(change),
{
    reveal_with_fuel(IndexView::after_all, 2);
    assert(seq![change].drop_last() =~= Seq::empty());
}

/// A commit does to the users of the index what its operations do one after the other: an
/// operation that repeats a key acts on what the earlier ones left. The head of the index
/// moves to the commit.
pub proof fn law_commit_applies_operations_in_order(
    index: IndexView,
    inputs: CommitInputs,
    written: EnvelopeView,
)
    requires
        inputs.valid(),
        inputs.geometry.valid(),
        can_go_on(inputs.geometry, inputs.append_cursor),
        envelope(inputs.geometry, inputs.append_cursor, inputs.transaction()) == Ok::<
            EnvelopeView,
            ErrorView,
        >(written),
    ensures
        ({
            let prepared = inputs.prepared()->Ok_0;
            let after = index.after_all(prepared.index_batch);
            &&& after.user == user_after(
                index.user,
                inputs.write.operations,
                written.value_pointers,
            )
            &&& after.system == index.system.insert(
                head_seq_key(),
                le_bytes(prepared.commit_seq as nat, 8),
            )
        }),
{
    let operations = inputs.write.operations;
    let pointers = written.value_pointers;
    let plans = inputs.plans(written);
    let prepared = inputs.prepared()->Ok_0;
    let keys = distinct_keys(operations);
    law_prepared_descriptor_is_valid(inputs, written);
    law_keys_of_a_write(operations);
    let users = user_changes(plans);
    assert(users =~= states_set(plans, false));
    let records = record_changes(
        inputs.descriptor(written).encoded(),
        (inputs.head_seq + 1) as u64,
    );
    lemma_after_concatenation(index, users, records);
    let between = index.after_all(users);
    lemma_record_put(between, inputs.descriptor(written).encoded(), (inputs.head_seq + 1) as u64);
    let wanted = user_after(index.user, operations, pointers);
    assert forall|key: Seq<u8>| held(between.user, key) == held(wanted, key) by {
        lemma_states_set(index, plans, false, key);
        if keys.contains(key) {
            let k = choose|k: int| 0 <= k < keys.len() && keys[k] == key;
            lemma_user_after(index.user, operations, pointers, key, inputs.before_states[k]);
            assert(plans[k].user_key == key);
        } else {
            lemma_user_after(index.user, operations, pointers, key, ValueState::Absent);
            if changes_key(plans, key) {
                let i = choose|i: int| 0 <= i < plans.len() && (#[trigger] plans[i]).user_key == key;
                assert(keys[i] == key);
            }
        }
    }
    lemma_same_map(between.user, wanted);
    lemma_states_set(index, plans, false, Seq::empty());
}

/// Maps that hold the same for every key are equal.
pub proof fn lemma_same_map(a: Map<Seq<u8>, Seq<u8>>, b: Map<Seq<u8>, Seq<u8>>)
    requires
        forall|key: Seq<u8>| held(a, key) == held(b, key),
    ensures
        a == b,
{
    assert forall|key: Seq<u8>| a.dom().contains(key) == b.dom().contains(key) by {
        assert(held(a, key) == held(b, key));
    }
    assert forall|key: Seq<u8>| a.dom().contains(key) implies a[key] == b[key] by {
        assert(held(a, key) == held(b, key));
    }
    assert(a =~= b);
}

/// An empty value is a value: a put of it leaves the key present.
pub proof fn law_empty_value_is_present(
    user: Map<Seq<u8>, Seq<u8>>,
    key: Seq<u8>,
    pointer: ValuePointer,
)
    ensures
        held(
            user_after(
                user,
                seq![OperationView::Put { key, value: Seq::empty() }],
                seq![Some(pointer)],
            ),
            key,
        ) == Some(pointer.encoded()),
{
    let operations = seq![OperationView::Put { key, value: Seq::<u8>::empty() }];
    reveal_with_fuel(user_after, 2);
    assert(operations.drop_last() =~= Seq::empty());
}

} // verus!
