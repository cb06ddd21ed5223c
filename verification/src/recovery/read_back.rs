//! What commits wrote down of themselves is found again.

use vstd::prelude::*;

use crate::bytes::le_bytes;
use crate::commit::descriptor::{
    law_descriptor_round_trip, DescriptorView, EntryView, TransactionDescriptor,
};
use crate::commit::metadata::{
    lemma_tx_meta_key, lemma_tx_mutation_key, tx_mutation_key, CommitSeq, DurableFrontier,
    DurableVLogEnd, RecoveryState,
};
use crate::commit::durability::frontier_change;
use crate::commit::prepare::{entry_changes, record_changes};
use crate::error::ErrorView;
use crate::index::batch::{
    durable_frontier_key, head_seq_key, lemma_after_concatenation, lemma_system_keys_differ,
    recovery_state_key, ChangeView, IndexView, InternalIndexSpace,
};
use crate::recovery::descriptors::{
    descriptor_views, empty_group, entry_added, group_parsed, groups_parsed, is_chain,
    is_descriptor_key, lemma_descriptor_key, loaded, GroupView, UnstableView,
};
use crate::recovery::execute::{boundary_of, frontier_changes, BoundaryCheck};
use crate::recovery::plan::RecoveryPlan;
use crate::recovery::undo::{entry_taken, planned_descriptor};

verus! {

/// The entries that a commit leaves in the index, in the order of their keys: its head, and then
/// its changed keys.
pub open spec fn written_entries(descriptor: DescriptorView) -> Seq<EntryView> {
    let encoded = descriptor.encoded();
    seq![EntryView { key: encoded.meta_key, value: encoded.meta_value }] + encoded.mutations
}

/// The entries of several commits, one after the other.
pub open spec fn all_written(descriptors: Seq<DescriptorView>) -> Seq<EntryView>
    decreases descriptors.len(),
{
    if descriptors.len() == 0 {
        Seq::empty()
    } else {
        all_written(descriptors.drop_last()) + written_entries(descriptors.last())
    }
}

/// What entries make of what came in, one after the other.
pub open spec fn entries_added(unstable: UnstableView, entries: Seq<EntryView>) -> std::result::Result<
    UnstableView,
    ErrorView,
>
    decreases entries.len(),
{
    if entries.len() == 0 {
        Ok(unstable)
    } else {
        match entries_added(unstable, entries.drop_last()) {
            Err(refusal) => Err(refusal),
            Ok(before) => entry_added(before, entries.last()),
        }
    }
}

/// The group that the entries of a commit make.
pub open spec fn group_of(descriptor: DescriptorView) -> GroupView {
    let encoded = descriptor.encoded();
    GroupView {
        meta: Some(EntryView { key: encoded.meta_key, value: encoded.meta_value }),
        mutations: encoded.mutations,
    }
}

proof fn lemma_added_concatenation(unstable: UnstableView, a: Seq<EntryView>, b: Seq<EntryView>)
    requires
        entries_added(unstable, a) is Ok,
    ensures
        entries_added(unstable, a + b) == entries_added(entries_added(unstable, a)->Ok_0, b),
    decreases b.len(),
{
    if b.len() == 0 {
        assert(a + b =~= a);
    } else {
        assert((a + b).drop_last() =~= a + b.drop_last());
        lemma_added_concatenation(unstable, a, b.drop_last());
    }
}

/// What one more entry does, where its key is known.
proof fn lemma_entry_added(
    unstable: UnstableView,
    entry: EntryView,
    commit_seq: CommitSeq,
    is_meta: bool,
)
    requires
        is_descriptor_key(entry.key, commit_seq, is_meta),
        unstable.durable_seq < commit_seq <= unstable.head_seq,
        unstable.groups.len() == unstable.head_seq - unstable.durable_seq,
        is_meta ==> unstable.groups[commit_seq - unstable.durable_seq - 1].meta is None,
    ensures
        ({
            let i = commit_seq - unstable.durable_seq - 1;
            let group = unstable.groups[i];
            entry_added(unstable, entry) == Ok::<UnstableView, ErrorView>(
                UnstableView {
                    groups: unstable.groups.update(
                        i,
                        if is_meta {
                            GroupView { meta: Some(entry), ..group }
                        } else {
                            GroupView { mutations: group.mutations.push(entry), ..group }
                        },
                    ),
                    ..unstable
                },
            )
        }),
{
    let (c, m) = choose|c: CommitSeq, m: bool| is_descriptor_key(entry.key, c, m);
    lemma_descriptor_key(entry.key, commit_seq, c, is_meta, m);
}

proof fn lemma_commit_added(unstable: UnstableView, descriptor: DescriptorView, count: int)
    requires
        descriptor.valid(),
        unstable.durable_seq < descriptor.meta.commit_seq <= unstable.head_seq,
        unstable.groups.len() == unstable.head_seq - unstable.durable_seq,
        unstable.groups[descriptor.meta.commit_seq - unstable.durable_seq - 1] == empty_group(),
        0 <= count <= descriptor.mutations.len(),
    ensures
        ({
            let i = descriptor.meta.commit_seq - unstable.durable_seq - 1;
            entries_added(unstable, written_entries(descriptor).take(1 + count)) == Ok::<
                UnstableView,
                ErrorView,
            >(
                UnstableView {
                    groups: unstable.groups.update(
                        i,
                        GroupView {
                            mutations: descriptor.entries().take(count),
                            ..group_of(descriptor)
                        },
                    ),
                    ..unstable
                },
            )
        }),
    decreases count,
{
    let entries = written_entries(descriptor);
    let commit_seq = descriptor.meta.commit_seq;
    let i = commit_seq - unstable.durable_seq - 1;
    let now = entries.take(1 + count);
    if count == 0 {
        reveal_with_fuel(entries_added, 2);
        assert(now.drop_last() =~= Seq::empty());
        assert(is_descriptor_key(now.last().key, commit_seq, true));
        lemma_entry_added(unstable, now.last(), commit_seq, true);
        assert(descriptor.entries().take(0) =~= Seq::empty());
    } else {
        lemma_commit_added(unstable, descriptor, count - 1);
        assert(now.drop_last() =~= entries.take(count));
        assert(now.last() == descriptor.entries()[count - 1]);
        let before = entries_added(unstable, entries.take(count))->Ok_0;
        assert(now.last().key == tx_mutation_key(commit_seq, (count - 1) as u64));
        assert(is_descriptor_key(now.last().key, commit_seq, false));
        lemma_entry_added(before, now.last(), commit_seq, false);
        assert(descriptor.entries().take(count) =~= descriptor.entries().take(count - 1).push(
            now.last(),
        ));
        assert((entries_added(unstable, now)->Ok_0).groups =~= unstable.groups.update(
            i,
            GroupView { mutations: descriptor.entries().take(count), ..group_of(descriptor) },
        ));
    }
}

/// The commits behind the durable ones, each with its number.
pub open spec fn are_numbered(durable_seq: CommitSeq, descriptors: Seq<DescriptorView>) -> bool {
    forall|i: int|
        0 <= i < descriptors.len() ==> (#[trigger] descriptors[i]).valid()
            && descriptors[i].meta.commit_seq == durable_seq + i + 1
}

proof fn lemma_commits_added(
    durable_seq: CommitSeq,
    head_seq: CommitSeq,
    descriptors: Seq<DescriptorView>,
    count: int,
)
    requires
        are_numbered(durable_seq, descriptors),
        durable_seq + descriptors.len() == head_seq,
        0 <= count <= descriptors.len(),
    ensures
        ({
            let empty = UnstableView {
                durable_seq,
                head_seq,
                groups: Seq::new(descriptors.len(), |i: int| empty_group()),
            };
            entries_added(empty, all_written(descriptors.take(count))) == Ok::<
                UnstableView,
                ErrorView,
            >(
                UnstableView {
                    groups: Seq::new(
                        descriptors.len(),
                        |i: int|
                            if i < count {
                                group_of(descriptors[i])
                            } else {
                                empty_group()
                            },
                    ),
                    ..empty
                },
            )
        }),
    decreases count,
{
    let empty = UnstableView {
        durable_seq,
        head_seq,
        groups: Seq::new(descriptors.len(), |i: int| empty_group()),
    };
    let wanted = Seq::new(
        descriptors.len(),
        |i: int|
            if i < count {
                group_of(descriptors[i])
            } else {
                empty_group()
            },
    );
    if count == 0 {
        assert(all_written(descriptors.take(0)) =~= Seq::empty());
        assert(empty.groups =~= wanted);
    } else {
        lemma_commits_added(durable_seq, head_seq, descriptors, count - 1);
        let one = descriptors[count - 1];
        let front = descriptors.take(count - 1);
        assert(descriptors.take(count).drop_last() =~= front);
        assert(descriptors.take(count).last() == one);
        let before = entries_added(empty, all_written(front))->Ok_0;
        lemma_added_concatenation(empty, all_written(front), written_entries(one));
        lemma_commit_added(before, one, one.mutations.len() as int);
        assert(written_entries(one).take(1 + one.mutations.len() as int) =~= written_entries(one));
        assert(one.entries().take(one.mutations.len() as int) =~= one.entries());
        assert(before.groups.update(count - 1, group_of(one)) =~= wanted);
    }
}

proof fn lemma_written_parsed(
    unstable: UnstableView,
    descriptors: Seq<DescriptorView>,
    count: int,
)
    requires
        are_numbered(unstable.durable_seq, descriptors),
        unstable.durable_seq + descriptors.len() <= u64::MAX,
        unstable.groups.len() == descriptors.len(),
        forall|i: int|
            0 <= i < descriptors.len() ==> #[trigger] unstable.groups[i] == group_of(
                descriptors[i],
            ),
        0 <= count <= descriptors.len(),
    ensures
        groups_parsed(unstable, count) == Ok::<Seq<DescriptorView>, ErrorView>(
            descriptors.take(count),
        ),
    decreases count,
{
    if count > 0 {
        lemma_written_parsed(unstable, descriptors, count - 1);
        let one = descriptors[count - 1];
        assert(unstable.groups[count - 1] == group_of(one));
        law_descriptor_round_trip(one);
        assert(descriptors.take(count) =~= descriptors.take(count - 1).push(one));
    } else {
        assert(descriptors.take(0) =~= Seq::empty());
    }
}

/// The commits behind the durable ones are found again when a database is opened: the entries
/// that they left in the index, in the order of their keys, are taken one after the other, and
/// what is loaded from them are the same commits.
pub proof fn law_written_commits_are_loaded(
    durable_seq: CommitSeq,
    head_seq: CommitSeq,
    durable_end: DurableVLogEnd,
    descriptors: Seq<DescriptorView>,
)
    requires
        are_numbered(durable_seq, descriptors),
        durable_seq + descriptors.len() == head_seq,
        is_chain(durable_end, descriptors),
    ensures
        ({
            let empty = UnstableView {
                durable_seq,
                head_seq,
                groups: Seq::new(descriptors.len(), |i: int| empty_group()),
            };
            &&& entries_added(empty, all_written(descriptors)) is Ok
            &&& loaded(entries_added(empty, all_written(descriptors))->Ok_0, durable_end) == Ok::<
                Seq<DescriptorView>,
                ErrorView,
            >(descriptors)
        }),
{
    let count = descriptors.len() as int;
    lemma_commits_added(durable_seq, head_seq, descriptors, count);
    assert(descriptors.take(count) =~= descriptors);
    let empty = UnstableView {
        durable_seq,
        head_seq,
        groups: Seq::new(descriptors.len(), |i: int| empty_group()),
    };
    lemma_written_parsed(entries_added(empty, all_written(descriptors))->Ok_0, descriptors, count);
}

/// An entry of a commit behind the head is refused, and so is a second head of a commit and
/// whatever is no entry of a commit; one of a durable commit changes nothing.
pub proof fn law_stray_entries_are_refused(
    unstable: UnstableView,
    entry: EntryView,
    commit_seq: CommitSeq,
    is_meta: bool,
)
    requires
        unstable.groups.len() == unstable.head_seq - unstable.durable_seq,
    ensures
        is_descriptor_key(entry.key, commit_seq, is_meta) ==> {
            &&& commit_seq > unstable.head_seq ==> entry_added(unstable, entry) is Err
            &&& commit_seq <= unstable.durable_seq && commit_seq <= unstable.head_seq
                ==> entry_added(unstable, entry) == Ok::<UnstableView, ErrorView>(unstable)
            &&& is_meta && unstable.durable_seq < commit_seq <= unstable.head_seq
                && unstable.groups[commit_seq - unstable.durable_seq - 1].meta is Some
                ==> entry_added(unstable, entry) is Err
        },
        (forall|c: CommitSeq, m: bool| !#[trigger] is_descriptor_key(entry.key, c, m))
            ==> entry_added(unstable, entry) is Err,
{
    if is_descriptor_key(entry.key, commit_seq, is_meta) {
        let (c, m) = choose|c: CommitSeq, m: bool| is_descriptor_key(entry.key, c, m);
        lemma_descriptor_key(entry.key, commit_seq, c, is_meta, m);
    }
}

/// What entries of one transaction make of its group, one after the other.
pub open spec fn entries_taken(commit_seq: CommitSeq, group: GroupView, entries: Seq<EntryView>) -> Option<
    GroupView,
>
    decreases entries.len(),
{
    if entries.len() == 0 {
        Some(group)
    } else {
        match entries_taken(commit_seq, group, entries.drop_last()) {
            None => None,
            Some(before) => entry_taken(commit_seq, before, entries.last()),
        }
    }
}

proof fn lemma_entries_taken(descriptor: DescriptorView, count: int)
    requires
        descriptor.valid(),
        0 <= count <= descriptor.mutations.len(),
    ensures
        entries_taken(
            descriptor.meta.commit_seq,
            empty_group(),
            written_entries(descriptor).take(1 + count),
        ) == Some(
            GroupView { mutations: descriptor.entries().take(count), ..group_of(descriptor) },
        ),
    decreases count,
{
    let entries = written_entries(descriptor);
    let commit_seq = descriptor.meta.commit_seq;
    let now = entries.take(1 + count);
    lemma_tx_meta_key(commit_seq);
    if count == 0 {
        reveal_with_fuel(entries_taken, 2);
        assert(now.drop_last() =~= Seq::empty());
        assert(is_descriptor_key(now.last().key, commit_seq, true));
        assert(descriptor.entries().take(0) =~= Seq::empty());
    } else {
        lemma_entries_taken(descriptor, count - 1);
        assert(now.drop_last() =~= entries.take(count));
        assert(now.last() == descriptor.entries()[count - 1]);
        assert(now.last().key == tx_mutation_key(commit_seq, (count - 1) as u64));
        assert(is_descriptor_key(now.last().key, commit_seq, false));
        assert(descriptor.entries().take(count) =~= descriptor.entries().take(count - 1).push(
            now.last(),
        ));
    }
}

/// A commit that is to be undone is found again from its entries, and only from those: an entry
/// of another commit is not taken.
pub proof fn law_commit_is_read_for_its_undo(
    descriptor: DescriptorView,
    group: GroupView,
    entry: EntryView,
    other: CommitSeq,
    is_meta: bool,
)
    requires
        descriptor.valid(),
    ensures
        ({
            let commit_seq = descriptor.meta.commit_seq;
            let taken = entries_taken(commit_seq, empty_group(), written_entries(descriptor));
            &&& taken is Some
            &&& group_parsed(taken->0, commit_seq) == Ok::<DescriptorView, ErrorView>(descriptor)
            &&& is_descriptor_key(entry.key, other, is_meta) && other != commit_seq
                ==> entry_taken(commit_seq, group, entry) is None
            &&& is_descriptor_key(entry.key, commit_seq, true) && group.meta is Some
                ==> entry_taken(commit_seq, group, entry) is None
        }),
{
    let commit_seq = descriptor.meta.commit_seq;
    let count = descriptor.mutations.len() as int;
    lemma_entries_taken(descriptor, count);
    assert(written_entries(descriptor).take(1 + count) =~= written_entries(descriptor));
    assert(descriptor.entries().take(count) =~= descriptor.entries());
    law_descriptor_round_trip(descriptor);
    if is_descriptor_key(entry.key, other, is_meta) {
        if is_descriptor_key(entry.key, commit_seq, true) {
            lemma_descriptor_key(entry.key, commit_seq, other, true, is_meta);
        }
        if is_descriptor_key(entry.key, commit_seq, false) {
            lemma_descriptor_key(entry.key, commit_seq, other, false, is_meta);
        }
    }
    if is_descriptor_key(entry.key, commit_seq, true) && is_descriptor_key(
        entry.key,
        commit_seq,
        false,
    ) {
        lemma_descriptor_key(entry.key, commit_seq, commit_seq, true, false);
    }
}

proof fn lemma_entries_recorded(index: IndexView, descriptor: DescriptorView, count: int)
    requires
        descriptor.valid(),
        0 <= count <= descriptor.mutations.len(),
    ensures
        ({
            let after = index.after_all(entry_changes(descriptor.entries().take(count)));
            &&& forall|i: int|
                0 <= i < count ==> after.transaction.dom().contains(
                    (#[trigger] descriptor.entries()[i]).key,
                ) && after.transaction[descriptor.entries()[i].key]
                    == descriptor.entries()[i].value
            &&& forall|key: Seq<u8>|
                (forall|i: int| 0 <= i < count ==> (#[trigger] descriptor.entries()[i]).key != key)
                    ==> (#[trigger] after.transaction.dom().contains(key))
                    == index.transaction.dom().contains(key) && (index.transaction.dom().contains(
                    key,
                ) ==> after.transaction[key] == index.transaction[key])
            &&& after.user == index.user
            &&& after.system == index.system
        }),
    decreases count,
{
    let entries = descriptor.entries();
    let commit_seq = descriptor.meta.commit_seq;
    let changes = entry_changes(entries.take(count));
    if count > 0 {
        lemma_entries_recorded(index, descriptor, count - 1);
        assert(changes.drop_last() =~= entry_changes(entries.take(count - 1)));
        let last = entries[count - 1];
        assert(changes.last() == (ChangeView::PutInternal {
            space: InternalIndexSpace::Transaction,
            key: last.key,
            value: last.value,
        }));
        let after = index.after_all(changes);
        assert forall|i: int| 0 <= i < count implies after.transaction.dom().contains(
            (#[trigger] entries[i]).key,
        ) && after.transaction[entries[i].key] == entries[i].value by {
            if i < count - 1 {
                lemma_tx_mutation_key(commit_seq, i as u64);
                lemma_tx_mutation_key(commit_seq, (count - 1) as u64);
            }
        }
    } else {
        assert(changes =~= Seq::empty());
    }
}

/// A commit is written down in the index: its head and its changed keys lie under their keys, no
/// other entry of the keyspace is touched, and the head of the index is the commit.
pub proof fn law_commit_is_written_down(
    index: IndexView,
    descriptor: DescriptorView,
    key: Seq<u8>,
)
    requires
        descriptor.valid(),
    ensures
        ({
            let commit_seq = descriptor.meta.commit_seq;
            let encoded = descriptor.encoded();
            let after = index.after_all(record_changes(encoded, commit_seq));
            &&& after.transaction.dom().contains(encoded.meta_key)
            &&& after.transaction[encoded.meta_key] == encoded.meta_value
            &&& forall|i: int|
                0 <= i < descriptor.mutations.len() ==> after.transaction.dom().contains(
                    (#[trigger] encoded.mutations[i]).key,
                ) && after.transaction[encoded.mutations[i].key] == encoded.mutations[i].value
            &&& key != encoded.meta_key && (forall|i: int|
                0 <= i < descriptor.mutations.len() ==> (#[trigger] encoded.mutations[i]).key
                    != key) ==> after.transaction.dom().contains(key)
                == index.transaction.dom().contains(key) && (index.transaction.dom().contains(key)
                ==> after.transaction[key] == index.transaction[key])
            &&& after.user == index.user
            &&& after.system == index.system.insert(
                head_seq_key(),
                le_bytes(commit_seq as nat, 8),
            )
        }),
{
    let commit_seq = descriptor.meta.commit_seq;
    let encoded = descriptor.encoded();
    let changes = record_changes(encoded, commit_seq);
    let meta = seq![
        ChangeView::PutInternal {
            space: InternalIndexSpace::Transaction,
            key: encoded.meta_key,
            value: encoded.meta_value,
        },
    ];
    let entries = entry_changes(encoded.mutations);
    let head = seq![
        ChangeView::PutInternal {
            space: InternalIndexSpace::System,
            key: head_seq_key(),
            value: le_bytes(commit_seq as nat, 8),
        },
    ];
    lemma_after_concatenation(index, meta + entries, head);
    lemma_after_concatenation(index, meta, entries);
    reveal_with_fuel(IndexView::after_all, 2);
    assert(meta.drop_last() =~= Seq::empty());
    assert(head.drop_last() =~= Seq::empty());
    let with_meta = index.after_all(meta);
    lemma_entries_recorded(with_meta, descriptor, descriptor.mutations.len() as int);
    assert(descriptor.entries().take(descriptor.mutations.len() as int) =~= encoded.mutations);
    lemma_tx_meta_key(commit_seq);
    assert forall|i: int| 0 <= i < descriptor.mutations.len() implies (
    #[trigger] encoded.mutations[i]).key != encoded.meta_key by {
        lemma_tx_mutation_key(commit_seq, i as u64);
    }
    assert(with_meta == index.after(meta[0]));
    let between = with_meta.after_all(entries);
    assert(between.after_all(head) == between.after(head[0]));
    assert(changes =~= meta + entries + head);
    assert(between.transaction.dom().contains(encoded.meta_key));
    if key != encoded.meta_key && (forall|i: int|
        0 <= i < descriptor.mutations.len() ==> (#[trigger] encoded.mutations[i]).key != key) {
        assert forall|i: int| 0 <= i < descriptor.mutations.len() implies (
        #[trigger] descriptor.entries()[i]).key != key by {
            assert(encoded.mutations[i].key != key);
        }
        assert(between.transaction.dom().contains(key) == with_meta.transaction.dom().contains(
            key,
        ));
    }
}

/// Head and frontier that a recovery moves can be read again, together with its next state; no
/// other entry of the index is touched.
pub proof fn law_moved_frontier_is_written_down(
    index: IndexView,
    frontier: DurableFrontier,
    state: Option<RecoveryState>,
)
    ensures
        ({
            let after = index.after_all(frontier_changes(frontier, state));
            let moved = index.system.insert(
                head_seq_key(),
                le_bytes(frontier.durable_seq as nat, 8),
            ).insert(durable_frontier_key(), frontier.encoded());
            &&& after.user == index.user
            &&& after.transaction == index.transaction
            &&& after.system == match state {
                None => moved,
                Some(state) => moved.insert(recovery_state_key(), state.encoded()),
            }
        }),
{
    let changes = frontier_changes(frontier, state);
    reveal_with_fuel(IndexView::after_all, 4);
    lemma_system_keys_differ();
    if state is Some {
        assert(changes.drop_last() =~= seq![changes[0], changes[1]]);
        assert(changes.drop_last().drop_last() =~= seq![changes[0]]);
        assert(changes.drop_last().drop_last().drop_last() =~= Seq::empty());
    } else {
        assert(changes.drop_last() =~= seq![changes[0]]);
        assert(changes.drop_last().drop_last() =~= Seq::empty());
    }
}

/// What has to be read again before the frontier moves is what the accepted commit left: the
/// stable envelope where the commit was durable already, and else its own one, which is the one
/// that ends where the log is to end.
pub proof fn law_boundary_is_the_accepted_commit(plan: RecoveryPlan)
    requires
        plan.durable_frontier.durable_seq <= plan.accepted_seq,
        plan.accepted_seq - plan.durable_frontier.durable_seq <= plan.descriptors@.len(),
        plan.accepted_seq > plan.durable_frontier.durable_seq ==> {
            let last = plan.descriptors@[plan.accepted_seq - plan.durable_frontier.durable_seq - 1];
            last.meta.commit_seq == plan.accepted_seq && plan.accepted_end
                == DurableVLogEnd::Position(last.meta.vlog_end)
        },
    ensures
        ({
            let ahead = plan.accepted_seq - plan.durable_frontier.durable_seq;
            match boundary_of(plan) {
                None => false,
                Some(BoundaryCheck::Stable(frontier)) => ahead == 0 && frontier.durable_seq
                    == plan.accepted_seq && frontier.durable_vlog_end == plan.accepted_end,
                Some(BoundaryCheck::Envelope(index)) => ahead > 0 && index + 1 == ahead
                    && plan.descriptors@[index as int].meta.commit_seq == plan.accepted_seq
                    && DurableVLogEnd::Position(plan.descriptors@[index as int].meta.vlog_end)
                    == plan.accepted_end,
            }
        }),
{
    assert(plan.descriptors@.len() == plan.descriptors.len());
}

/// The commit that is undone next is the one with that number, where the commits behind the
/// durable ones are known in their order; there is none in front of them or behind the head.
pub proof fn law_undone_commit_has_its_number(
    durable_seq: CommitSeq,
    descriptors: Seq<TransactionDescriptor>,
    commit_seq: CommitSeq,
)
    requires
        are_numbered(durable_seq, descriptor_views(descriptors)),
    ensures
        planned_descriptor(durable_seq, descriptors, commit_seq) is Some <==> durable_seq
            < commit_seq <= durable_seq + descriptors.len(),
        planned_descriptor(durable_seq, descriptors, commit_seq) matches Some(descriptor)
            ==> descriptor.meta.commit_seq == commit_seq,
{
    if durable_seq < commit_seq <= durable_seq + descriptors.len() {
        let i = commit_seq - durable_seq - 1;
        assert(descriptor_views(descriptors)[i].meta.commit_seq == durable_seq + i + 1);
    }
}

/// The frontier that a commit takes along is in the index once the commit is: head and frontier
/// can be read from there, and nothing of the commit itself is different for it.
pub proof fn law_frontier_goes_along_with_a_commit(
    index: IndexView,
    batch: Seq<ChangeView>,
    frontier: DurableFrontier,
)
    ensures
        ({
            let alone = index.after_all(batch);
            let along = index.after_all(batch.push(frontier_change(frontier)));
            &&& along.user == alone.user
            &&& along.transaction == alone.transaction
            &&& along.system == alone.system.insert(durable_frontier_key(), frontier.encoded())
            &&& alone.system.dom().contains(head_seq_key()) ==> along.system.dom().contains(
                head_seq_key(),
            ) && along.system[head_seq_key()] == alone.system[head_seq_key()]
        }),
{
    let durable = batch.push(frontier_change(frontier));
    assert(durable.drop_last() =~= batch);
    lemma_system_keys_differ();
}

} // verus!
