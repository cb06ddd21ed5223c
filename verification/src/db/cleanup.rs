//! Throwing away what the index keeps of transactions that are wholly on disk.

use vstd::prelude::*;

use crate::commit::metadata::{
    decode_tx_meta_key, decode_tx_mutation_key, encode_tx_meta_key, frontier_of_other_version,
    lemma_tx_meta_key, lemma_tx_mutation_key, metadata_decode_view, tx_meta_key, tx_mutation_key,
    CommitSeq, DurableFrontier, TX_KEY_MAGIC, TX_META_KEY_ENCODED_LEN, TX_META_KIND,
    TX_MUTATION_KEY_ENCODED_LEN, TX_MUTATION_KIND,
};
use crate::bytes::{be_bytes, lemma_be_round_trip, lemma_byte_limits, lemma_le_bytes_len};
use crate::db::background::{
    background_batch_view, background_cleanup_commit_error, background_commit_view,
    background_corruption, background_corruption_view, background_index_error,
    background_internal_index_error, background_memory_view, background_resource_exhausted,
    seen_in_background,
};
use crate::error::{ErrorView, Result, RetryAdvice, StorageError, StorageErrorKind};
use crate::index::batch::{
    index_memory_refused, ChangeView, IndexAtomicBatch, IndexCommitError, IndexCommitMode,
    IndexMutation, InternalIndexSpace,
};
use crate::index::range::{InternalKeyRange, RangeView};
use crate::memory::{asked, Memory};
use crate::recovery::analysis::IndexRead;
use crate::recovery::descriptors::{lemma_prefix_order, sequence_prefix};

verus! {

pub const CLEANUP_MAX_KEYS_PER_BATCH: usize = 1_024;

pub const CLEANUP_MAX_ENCODED_KEY_BYTES: usize = 1_048_576;

/// How far a cleanup has come.
#[derive(Clone, Copy, Debug, PartialEq, Eq, Structural)]
pub struct DescriptorCleanupProgress {
    pub captured_durable_seq: u64,
    pub deleted_mutations: usize,
    pub deleted_meta: usize,
    pub committed_batches: usize,
    pub blocked_by_recovery: bool,
}

/// Whose key it is: of a mutation of a transaction, or of its head.
#[derive(Clone, Copy, Debug, PartialEq, Eq, Structural)]
pub struct CleanupKey {
    pub commit_seq: CommitSeq,
    pub ordinal: Option<u64>,
}

/// A key of the transaction keyspace.
pub open spec fn is_cleanup_key(key: Seq<u8>, owner: CleanupKey) -> bool {
    &&& owner.commit_seq != 0
    &&& match owner.ordinal {
        None => key == tx_meta_key(owner.commit_seq),
        Some(ordinal) => key == tx_mutation_key(owner.commit_seq, ordinal),
    }
}

/// A key has one owner.
pub proof fn lemma_cleanup_key(key: Seq<u8>, a: CleanupKey, b: CleanupKey)
    requires
        is_cleanup_key(key, a),
        is_cleanup_key(key, b),
    ensures
        a == b,
{
    lemma_tx_meta_key(a.commit_seq);
    lemma_tx_meta_key(b.commit_seq);
    if a.ordinal is Some {
        lemma_tx_mutation_key(a.commit_seq, a.ordinal->0);
    }
    if b.ordinal is Some {
        lemma_tx_mutation_key(b.commit_seq, b.ordinal->0);
    }
}

fn decode_cleanup_key(key: &[u8]) -> (result: Result<CleanupKey>)
    ensures
        match result {
            Ok(owner) => is_cleanup_key(key@, owner),
            Err(error) => error@ == background_corruption_view() && forall|owner: CleanupKey|
                !#[trigger] is_cleanup_key(key@, owner),
        },
{
    proof {
        assert forall|owner: CleanupKey| #[trigger] is_cleanup_key(key@, owner) implies key@.len()
            == (if owner.ordinal is None {
            TX_META_KEY_ENCODED_LEN
        } else {
            TX_MUTATION_KEY_ENCODED_LEN
        }) by {
            lemma_tx_meta_key(owner.commit_seq);
            if owner.ordinal is Some {
                lemma_tx_mutation_key(owner.commit_seq, owner.ordinal->0);
            }
        }
    }
    if key.len() == TX_META_KEY_ENCODED_LEN {
        match decode_tx_meta_key(key) {
            Ok(commit_seq) => Ok(CleanupKey { commit_seq, ordinal: None }),
            Err(error) => Err(background_index_error(error)),
        }
    } else if key.len() == TX_MUTATION_KEY_ENCODED_LEN {
        match decode_tx_mutation_key(key) {
            Ok(found) => Ok(CleanupKey { commit_seq: found.0, ordinal: Some(found.1) }),
            Err(error) => Err(background_index_error(error)),
        }
    } else {
        Err(background_corruption())
    }
}

/// The range of everything that the index keeps of the commits up to a durable one.
pub open spec fn stable_range(durable_seq: CommitSeq) -> RangeView {
    RangeView {
        start_inclusive: None,
        end_exclusive: if durable_seq == u64::MAX {
            None
        } else {
            Some(sequence_prefix((durable_seq + 1) as u64))
        },
    }
}

pub fn stable_descriptor_range(memory: &mut Memory, durable_seq: CommitSeq) -> (result: Result<
    InternalKeyRange,
>)
    requires
        !old(memory).refused(),
    ensures
        match result {
            Ok(range) => !final(memory).refused() && range@ == stable_range(durable_seq),
            Err(error) => final(memory).refused() && error@ == background_memory_view(),
        },
        if durable_seq < u64::MAX {
            asked(*old(memory), *final(memory), 1, sequence_prefix((durable_seq + 1) as u64).len())
        } else {
            *final(memory) == *old(memory)
        },
{
    if durable_seq == u64::MAX {
        return Ok(InternalKeyRange::all());
    }
    let next: u64 = durable_seq + 1;
    let key = match encode_tx_meta_key(next) {
        Ok(key) => key,
        Err(error) => return Err(background_index_error(error)),
    };
    proof {
        lemma_tx_meta_key(next);
        lemma_byte_limits();
        lemma_be_round_trip(next as nat, 8);
        lemma_le_bytes_len(TX_KEY_MAGIC as nat, 2);
        lemma_le_bytes_len(next as nat, 8);
    }
    let prefix = vstd::slice::slice_subrange(key.as_slice(), 0, 10);
    proof {
        assert(prefix@ =~= sequence_prefix(next));
    }
    match memory.copy(prefix) {
        Some(end) => Ok(InternalKeyRange { start_inclusive: None, end_exclusive: Some(end) }),
        None => Err(background_resource_exhausted()),
    }
}

/// What a batch deletes.
#[derive(Clone, Copy, Debug, PartialEq, Eq, Structural)]
pub enum Deleting {
    Mutations { count: usize },
    Meta,
}

/// A cleanup on its way. Everything that waits to be deleted belongs to one transaction.
pub struct CleanupRun {
    durable_seq: CommitSeq,
    current: Option<CommitSeq>,
    meta_key: Option<Vec<u8>>,
    last_ordinal: Option<u64>,
    pending: Vec<Vec<u8>>,
    pending_key_bytes: usize,
    waiting: Option<(Vec<u8>, CleanupKey)>,
    ended: bool,
    deleting: Option<Deleting>,
    progress: DescriptorCleanupProgress,
}

/// A cleanup as a mathematical value: the transaction that it is at, the keys of it that wait,
/// the key behind them that waits for its turn, and what is being deleted.
#[verifier::ext_equal]
pub struct CleanupView {
    pub durable_seq: CommitSeq,
    pub current: Option<CommitSeq>,
    pub meta_key: Option<Seq<u8>>,
    pub last_ordinal: Option<u64>,
    pub pending: Seq<Seq<u8>>,
    pub waiting: Option<(Seq<u8>, CleanupKey)>,
    pub ended: bool,
    pub deleting: Option<Deleting>,
    pub progress: DescriptorCleanupProgress,
}

/// What a cleanup has to do next.
pub enum CleanupStep {
    /// Take the next key of the range.
    NextKey,
    /// Commit this batch, in this mode.
    Commit(IndexAtomicBatch, IndexCommitMode),
    /// Nothing: the cleanup has ended.
    Done,
    /// Nothing: the cleanup has failed.
    Failed(StorageError),
}

/// A step as a mathematical value.
pub enum CleanupStepView {
    NextKey,
    Commit(Seq<ChangeView>, IndexCommitMode),
    Done,
    Failed(ErrorView),
}

impl View for CleanupStep {
    type V = CleanupStepView;

    open spec fn view(&self) -> CleanupStepView {
        match self {
            CleanupStep::NextKey => CleanupStepView::NextKey,
            CleanupStep::Commit(batch, mode) => CleanupStepView::Commit(batch@, *mode),
            CleanupStep::Done => CleanupStepView::Done,
            CleanupStep::Failed(error) => CleanupStepView::Failed(error@),
        }
    }
}

pub open spec fn key_views(keys: Seq<Vec<u8>>) -> Seq<Seq<u8>> {
    Seq::new(keys.len(), |i: int| keys[i]@)
}

/// The deletion of some keys.
pub open spec fn deletions(keys: Seq<Seq<u8>>) -> Seq<ChangeView> {
    Seq::new(
        keys.len(),
        |i: int|
            ChangeView::DeleteInternal { space: InternalIndexSpace::Transaction, key: keys[i] },
    )
}

impl View for CleanupRun {
    type V = CleanupView;

    closed spec fn view(&self) -> CleanupView {
        CleanupView {
            durable_seq: self.durable_seq,
            current: self.current,
            meta_key: match self.meta_key {
                Some(key) => Some(key@),
                None => None,
            },
            last_ordinal: self.last_ordinal,
            pending: key_views(self.pending@),
            waiting: match self.waiting {
                Some(found) => Some((found.0@, found.1)),
                None => None,
            },
            ended: self.ended,
            deleting: self.deleting,
            progress: self.progress,
        }
    }
}

impl CleanupView {
    /// A key is one of a mutation of the transaction that the cleanup is at.
    pub open spec fn owns(self, key: Seq<u8>) -> bool {
        self.current matches Some(commit_seq) && exists|ordinal: u64|
            key == #[trigger] tx_mutation_key(commit_seq, ordinal)
    }

    /// What holds of every cleanup: whatever waits is of a durable transaction, and whatever
    /// waits to be deleted of the one that the cleanup is at.
    pub open spec fn valid(self) -> bool {
        &&& self.current matches Some(commit_seq) ==> 0 < commit_seq <= self.durable_seq
        &&& forall|i: int| 0 <= i < self.pending.len() ==> self.owns(#[trigger] self.pending[i])
        &&& self.meta_key matches Some(key) ==> self.current is Some && key == tx_meta_key(
            self.current->0,
        )
        &&& self.waiting matches Some(found) ==> is_cleanup_key(found.0, found.1)
            && found.1.commit_seq <= self.durable_seq
        &&& self.pending.len() < CLEANUP_MAX_KEYS_PER_BATCH
    }

    /// The transaction that the cleanup is at has no further key.
    pub open spec fn complete(self) -> bool {
        self.ended || (self.waiting matches Some(found) && self.current is Some && self.current
            != Some(found.1.commit_seq))
    }

    /// Deletes the mutations that wait.
    pub open spec fn delete_mutations(self) -> (CleanupView, CleanupStepView) {
        (
            CleanupView {
                pending: Seq::empty(),
                deleting: Some(Deleting::Mutations { count: self.pending.len() as usize }),
                ..self
            },
            CleanupStepView::Commit(deletions(self.pending), IndexCommitMode::Buffer),
        )
    }

    /// Deletes the head of the transaction.
    pub open spec fn delete_meta(self, key: Seq<u8>) -> (CleanupView, CleanupStepView) {
        (
            CleanupView { meta_key: None, deleting: Some(Deleting::Meta), ..self },
            CleanupStepView::Commit(deletions(seq![key]), IndexCommitMode::Buffer),
        )
    }

    /// Takes up the key that waits. The head comes before the mutations, and these in the order
    /// of their numbers.
    pub open spec fn take_up(self, key: Seq<u8>, owner: CleanupKey) -> (
        CleanupView,
        CleanupStepView,
    ) {
        let at = CleanupView {
            current: Some(owner.commit_seq),
            last_ordinal: if self.current == Some(owner.commit_seq) {
                self.last_ordinal
            } else {
                None
            },
            waiting: None,
            ..self
        };
        match owner.ordinal {
            None => if at.last_ordinal is Some || at.meta_key is Some {
                (at, CleanupStepView::Failed(background_corruption_view()))
            } else {
                (CleanupView { meta_key: Some(key), ..at }, CleanupStepView::NextKey)
            },
            Some(ordinal) => if at.last_ordinal is Some && at.last_ordinal->0 >= ordinal {
                (at, CleanupStepView::Failed(background_corruption_view()))
            } else {
                let grown = CleanupView {
                    last_ordinal: Some(ordinal),
                    pending: at.pending.push(key),
                    ..at
                };
                if grown.pending.len() >= CLEANUP_MAX_KEYS_PER_BATCH {
                    grown.delete_mutations()
                } else {
                    (grown, CleanupStepView::NextKey)
                }
            },
        }
    }

    /// Goes on, with nothing being deleted: a transaction that is complete loses its mutations,
    /// then its head; then the key that waits is taken up.
    pub open spec fn proceed(self) -> (CleanupView, CleanupStepView) {
        if self.complete() && self.pending.len() > 0 {
            self.delete_mutations()
        } else if self.complete() && self.meta_key is Some {
            self.delete_meta(self.meta_key->0)
        } else {
            match self.waiting {
                Some(found) => self.take_up(found.0, found.1),
                None => (
                    self,
                    if self.ended {
                        CleanupStepView::Done
                    } else {
                        CleanupStepView::NextKey
                    },
                ),
            }
        }
    }

    /// How many reservations it takes to take up a key: one for the mutation, and those of the
    /// batch where the mutations are as many as one deletes.
    pub open spec fn taking_up_reserves(self, key: Seq<u8>, owner: CleanupKey) -> nat {
        match self.take_up(key, owner).1 {
            CleanupStepView::Failed(_) => 0,
            CleanupStepView::Commit(changes, _) => 2 + changes.len(),
            _ => if owner.ordinal is Some {
                1
            } else {
                0
            },
        }
    }

    /// How many reservations it takes to go on. A batch takes one, and one for each of its
    /// changes.
    pub open spec fn reservations(self) -> nat {
        if self.complete() && self.pending.len() > 0 {
            1 + self.pending.len()
        } else if self.complete() && self.meta_key is Some {
            2
        } else {
            match self.waiting {
                Some(found) => self.taking_up_reserves(found.0, found.1),
                None => 0,
            }
        }
    }

    /// What going on asks of memory.
    pub open spec fn asked_to_proceed(self, before: Memory, after: Memory) -> bool {
        if self.reservations() > 0 {
            asked(before, after, self.reservations(), CLEANUP_MAX_KEYS_PER_BATCH as nat)
        } else {
            after == before
        }
    }

    /// What a batch that was committed has deleted.
    pub open spec fn counted(self) -> Option<DescriptorCleanupProgress> {
        let progress = self.progress;
        match self.deleting {
            None => Some(progress),
            Some(Deleting::Mutations { count }) => if progress.deleted_mutations + count
                <= usize::MAX && progress.committed_batches < usize::MAX {
                Some(
                    DescriptorCleanupProgress {
                        deleted_mutations: (progress.deleted_mutations + count) as usize,
                        committed_batches: (progress.committed_batches + 1) as usize,
                        ..progress
                    },
                )
            } else {
                None
            },
            Some(Deleting::Meta) => if progress.deleted_meta < usize::MAX
                && progress.committed_batches < usize::MAX {
                Some(
                    DescriptorCleanupProgress {
                        deleted_meta: (progress.deleted_meta + 1) as usize,
                        committed_batches: (progress.committed_batches + 1) as usize,
                        ..progress
                    },
                )
            } else {
                None
            },
        }
    }
}

/// What a step says, with regard to memory: a batch for which there was none fails.
pub open spec fn stepped(
    expected: (CleanupView, CleanupStepView),
    after: CleanupView,
    step: CleanupStepView,
    refused: bool,
) -> bool {
    if refused {
        step == CleanupStepView::Failed(background_batch_view(index_memory_refused()))
    } else {
        &&& step == expected.1
        &&& step is Failed || after == expected.0
    }
}

fn deletion_batch(memory: &mut Memory, keys: Vec<Vec<u8>>) -> (result: Result<IndexAtomicBatch>)
    requires
        !old(memory).refused(),
        forall|i: int| 0 <= i < keys@.len() ==> (#[trigger] keys@[i])@.len() > 0,
    ensures
        match result {
            Ok(batch) => !final(memory).refused() && batch@ == deletions(key_views(keys@)),
            Err(error) => final(memory).refused() && error@ == background_batch_view(
                index_memory_refused(),
            ),
        },
        asked(*old(memory), *final(memory), 1 + keys@.len(), keys@.len()),
{
    let ghost views = key_views(keys@);
    let mut left = keys;
    let count: usize = left.len();
    let mut batch = match IndexAtomicBatch::try_with_capacity(memory, count) {
        Ok(batch) => batch,
        Err(error) => return Err(background_internal_index_error(error)),
    };
    let mut i: usize = 0;
    while i < count
        invariant
            !old(memory).refused(),
            asked(*old(memory), *memory, 1 + i as nat, count as nat),
            i <= count,
            count == views.len(),
            left@.len() == count,
            views == key_views(keys@),
            !memory.refused(),
            forall|k: int| 0 <= k < views.len() ==> (#[trigger] views[k]).len() > 0,
            forall|k: int| i <= k < count ==> (#[trigger] left@[k])@ == views[k],
            batch@ =~= deletions(views).take(i as int),
        decreases count - i,
    {
        let mut key: Vec<u8> = Vec::new();
        left.set_and_swap(i, &mut key);
        match batch.try_push(
            memory,
            IndexMutation::DeleteInternal { space: InternalIndexSpace::Transaction, key },
        ) {
            Ok(_) => {},
            Err(error) => return Err(background_internal_index_error(error)),
        }
        i = i + 1;
    }
    proof {
        assert(deletions(views).take(count as int) =~= deletions(views));
    }
    Ok(batch)
}

/// Whether a cleanup may begin: not while a recovery is unfinished.
pub enum CleanupStart {
    Blocked(DescriptorCleanupProgress),
    Run(CleanupRun),
}

pub open spec fn no_progress() -> DescriptorCleanupProgress {
    DescriptorCleanupProgress {
        captured_durable_seq: 0,
        deleted_mutations: 0,
        deleted_meta: 0,
        committed_batches: 0,
        blocked_by_recovery: false,
    }
}

impl CleanupRun {
    #[verifier::type_invariant]
    spec fn well_formed(&self) -> bool {
        &&& self@.valid()
        &&& self.pending_key_bytes == TX_MUTATION_KEY_ENCODED_LEN * self.pending@.len()
    }

    /// Begins a cleanup, at what the index says of a recovery and of the durable frontier.
    pub fn begin(recovery_state: IndexRead, frontier: IndexRead) -> (result: Result<CleanupStart>)
        ensures
            match recovery_state {
                Err(failure) => result matches Err(error) && error@ == seen_in_background(
                    failure@,
                ),
                Ok(Some(_)) => result matches Ok(CleanupStart::Blocked(progress)) && progress
                    == (DescriptorCleanupProgress { blocked_by_recovery: true, ..no_progress() }),
                Ok(None) => match frontier {
                    Err(failure) => result matches Err(error) && error@ == seen_in_background(
                        failure@,
                    ),
                    Ok(None) => result matches Err(error) && error@
                        == background_corruption_view(),
                    Ok(Some(encoded)) => match result {
                        Ok(CleanupStart::Blocked(_)) => false,
                        Ok(CleanupStart::Run(run)) => exists|stored: DurableFrontier|
                            stored.valid() && encoded@ == #[trigger] stored.encoded() && run@
                                == (CleanupView {
                                durable_seq: stored.durable_seq,
                                current: None,
                                meta_key: None,
                                last_ordinal: None,
                                pending: Seq::empty(),
                                waiting: None,
                                ended: false,
                                deleting: None,
                                progress: DescriptorCleanupProgress {
                                    captured_durable_seq: stored.durable_seq,
                                    ..no_progress()
                                },
                            }),
                        Err(error) => {
                            &&& error@ == seen_in_background(
                                metadata_decode_view(
                                    if frontier_of_other_version(encoded@) {
                                        StorageErrorKind::IncompatibleFormat
                                    } else {
                                        StorageErrorKind::Corruption
                                    },
                                ),
                            )
                            &&& forall|stored: DurableFrontier|
                                stored.valid() ==> encoded@ != #[trigger] stored.encoded()
                        },
                    },
                },
            },
    {
        let progress = DescriptorCleanupProgress {
            captured_durable_seq: 0,
            deleted_mutations: 0,
            deleted_meta: 0,
            committed_batches: 0,
            blocked_by_recovery: false,
        };
        match recovery_state {
            Err(failure) => return Err(background_index_error(failure)),
            Ok(Some(_)) => {
                return Ok(
                    CleanupStart::Blocked(
                        DescriptorCleanupProgress { blocked_by_recovery: true, ..progress },
                    ),
                );
            },
            Ok(None) => {},
        }
        let encoded = match frontier {
            Err(failure) => return Err(background_index_error(failure)),
            Ok(None) => return Err(background_corruption()),
            Ok(Some(encoded)) => encoded,
        };
        let stored = match DurableFrontier::decode(encoded.as_slice()) {
            Ok(stored) => stored,
            Err(error) => return Err(background_index_error(error)),
        };
        let run = CleanupRun {
            durable_seq: stored.durable_seq,
            current: None,
            meta_key: None,
            last_ordinal: None,
            pending: Vec::new(),
            pending_key_bytes: 0,
            waiting: None,
            ended: false,
            deleting: None,
            progress: DescriptorCleanupProgress {
                captured_durable_seq: stored.durable_seq,
                ..progress
            },
        };
        proof {
            assert(run.pending@ =~= Seq::empty());
            assert(run@.pending =~= Seq::<Seq<u8>>::empty());
        }
        Ok(CleanupStart::Run(run))
    }

    /// Takes up the key that waits.
    fn take_up(self, memory: &mut Memory) -> (stepped_to: (CleanupRun, CleanupStep))
        requires
            !old(memory).refused(),
            self@.waiting is Some,
            self@.deleting is None,
            self@.complete() ==> self@.pending.len() == 0 && self@.meta_key is None,
        ensures
            ({
                let found = self@.waiting->0;
                stepped(
                    self@.take_up(found.0, found.1),
                    stepped_to.0@,
                    stepped_to.1@,
                    final(memory).refused(),
                )
            }),
            ({
                let found = self@.waiting->0;
                let times = self@.taking_up_reserves(found.0, found.1);
                if times > 0 {
                    asked(*old(memory), *final(memory), times, CLEANUP_MAX_KEYS_PER_BATCH as nat)
                } else {
                    *final(memory) == *old(memory)
                }
            }),
    {
        proof {
            use_type_invariant(&self);
        }
        let ghost before = self@;
        let mut run = self;
        let CleanupRun {
            durable_seq,
            current,
            meta_key,
            last_ordinal,
            pending,
            pending_key_bytes,
            waiting,
            ended,
            deleting,
            progress,
        } = run;
        let (key, owner) = match waiting {
            Some(found) => found,
            None => {
                let run = CleanupRun {
                    durable_seq,
                    current,
                    meta_key,
                    last_ordinal,
                    pending,
                    pending_key_bytes,
                    waiting: None,
                    ended,
                    deleting,
                    progress,
                };
                return (run, CleanupStep::NextKey);
            },
        };
        let ghost key_view = key@;
        let same = match current {
            Some(commit_seq) => commit_seq == owner.commit_seq,
            None => false,
        };
        let last_ordinal: Option<u64> = if same {
            last_ordinal
        } else {
            None
        };
        let refused = match owner.ordinal {
            None => last_ordinal.is_some() || meta_key.is_some(),
            Some(ordinal) => match last_ordinal {
                Some(previous) => previous >= ordinal,
                None => false,
            },
        };
        let current: Option<u64> = Some(owner.commit_seq);
        let mut meta_key = meta_key;
        let mut pending = pending;
        let mut pending_key_bytes: usize = pending_key_bytes;
        proof {
            assert(before.pending.len() == pending@.len());
            assert forall|i: int| 0 <= i < pending@.len() implies exists|ordinal: u64|
                (#[trigger] pending@[i])@ == #[trigger] tx_mutation_key(owner.commit_seq, ordinal) by {
                assert(before.owns(before.pending[i]));
            }
        }
        if refused {
            let run = CleanupRun {
                durable_seq,
                current: None,
                meta_key: None,
                last_ordinal: None,
                pending: Vec::new(),
                pending_key_bytes: 0,
                waiting: None,
                ended,
                deleting,
                progress,
            };
            return (run, CleanupStep::Failed(background_corruption()));
        }
        match owner.ordinal {
            None => {
                let run = CleanupRun {
                    durable_seq,
                    current,
                    meta_key: Some(key),
                    last_ordinal,
                    pending,
                    pending_key_bytes,
                    waiting: None,
                    ended,
                    deleting,
                    progress,
                };
                proof {
                    let expected = before.take_up(key_view, owner);
                    assert(run@.pending =~= expected.0.pending);
                    assert(run@ =~= expected.0);
                }
                (run, CleanupStep::NextKey)
            },
            Some(ordinal) => {
                proof {
                    lemma_tx_mutation_key(owner.commit_seq, ordinal);
                    assert(key_views(pending@).push(key_view) =~= key_views(pending@.push(key)));
                }
                if !memory.reserve(&mut pending, 1) {
                    let run = CleanupRun {
                        durable_seq,
                        current: None,
                        meta_key: None,
                        last_ordinal: None,
                        pending: Vec::new(),
                        pending_key_bytes: 0,
                        waiting: None,
                        ended,
                        deleting,
                        progress,
                    };
                    return (run, CleanupStep::Failed(background_resource_exhausted()));
                }
                pending_key_bytes = pending_key_bytes + key.len();
                pending.push(key);
                proof {
                    assert forall|i: int| 0 <= i < pending@.len() implies exists|ordinal: u64|
                        (#[trigger] pending@[i])@ == #[trigger] tx_mutation_key(
                            owner.commit_seq,
                            ordinal,
                        ) by {
                        if i == pending@.len() - 1 {
                            assert(pending@[i]@ == tx_mutation_key(owner.commit_seq, ordinal));
                        }
                    }
                }
                if pending.len() >= CLEANUP_MAX_KEYS_PER_BATCH || pending_key_bytes
                    >= CLEANUP_MAX_ENCODED_KEY_BYTES {
                    let count: usize = pending.len();
                    let batch = deletion_batch(memory, pending);
                    let run = CleanupRun {
                        durable_seq,
                        current,
                        meta_key,
                        last_ordinal: Some(ordinal),
                        pending: Vec::new(),
                        pending_key_bytes: 0,
                        waiting: None,
                        ended,
                        deleting: Some(Deleting::Mutations { count }),
                        progress,
                    };
                    proof {
                        assert(run@.pending =~= Seq::<Seq<u8>>::empty());
                    }
                    match batch {
                        Ok(batch) => (run, CleanupStep::Commit(batch, IndexCommitMode::Buffer)),
                        Err(error) => (run, CleanupStep::Failed(error)),
                    }
                } else {
                    proof {
                        let grown = CleanupView {
                            current,
                            pending: key_views(pending@),
                            ..before
                        };
                        assert forall|i: int| 0 <= i < grown.pending.len() implies grown.owns(
                            #[trigger] grown.pending[i],
                        ) by {
                            assert(grown.pending[i] == pending@[i]@);
                            let k = choose|k: u64|
                                pending@[i]@ == #[trigger] tx_mutation_key(owner.commit_seq, k);
                            assert(pending@[i]@ == tx_mutation_key(owner.commit_seq, k));
                            assert(grown.current == Some(owner.commit_seq));
                            assert(grown.pending[i] == tx_mutation_key(grown.current->0, k));
                            assert(grown.owns(grown.pending[i]));
                        }
                    }
                    let run = CleanupRun {
                        durable_seq,
                        current,
                        meta_key,
                        last_ordinal: Some(ordinal),
                        pending,
                        pending_key_bytes,
                        waiting: None,
                        ended,
                        deleting,
                        progress,
                    };
                    (run, CleanupStep::NextKey)
                }
            },
        }
    }

    /// Goes on, with nothing being deleted.
    fn proceed(self, memory: &mut Memory) -> (stepped_to: (CleanupRun, CleanupStep))
        requires
            !old(memory).refused(),
            self@.deleting is None,
        ensures
            stepped(
                self@.proceed(),
                stepped_to.0@,
                stepped_to.1@,
                final(memory).refused(),
            ),
            self@.asked_to_proceed(*old(memory), *final(memory)),
    {
        proof {
            use_type_invariant(&self);
        }
        let ghost before = self@;
        let complete = self.ended || match (&self.waiting, self.current) {
            (Some(found), Some(commit_seq)) => commit_seq != found.1.commit_seq,
            _ => false,
        };
        if !complete || (self.pending.len() == 0 && self.meta_key.is_none()) {
            if self.waiting.is_some() {
                return self.take_up(memory);
            }
            let ended = self.ended;
            return (
                self,
                if ended {
                    CleanupStep::Done
                } else {
                    CleanupStep::NextKey
                },
            );
        }
        let mut run = self;
        let CleanupRun {
            durable_seq,
            current,
            meta_key,
            last_ordinal,
            pending,
            pending_key_bytes,
            waiting,
            ended,
            deleting,
            progress,
        } = run;
        if pending.len() > 0 {
            proof {
                assert forall|i: int| 0 <= i < pending@.len() implies (
                #[trigger] pending@[i])@.len() > 0 by {
                    assert(before.owns(before.pending[i]));
                    let ordinal = choose|ordinal: u64|
                        before.pending[i] == #[trigger] tx_mutation_key(before.current->0, ordinal);
                    lemma_tx_mutation_key(before.current->0, ordinal);
                }
            }
            let count: usize = pending.len();
            let batch = deletion_batch(memory, pending);
            let run = CleanupRun {
                durable_seq,
                current,
                meta_key,
                last_ordinal,
                pending: Vec::new(),
                pending_key_bytes: 0,
                waiting,
                ended,
                deleting: Some(Deleting::Mutations { count }),
                progress,
            };
            proof {
                assert(run@.pending =~= Seq::<Seq<u8>>::empty());
            }
            return match batch {
                Ok(batch) => (run, CleanupStep::Commit(batch, IndexCommitMode::Buffer)),
                Err(error) => (run, CleanupStep::Failed(error)),
            };
        }
        let mut keys: Vec<Vec<u8>> = Vec::new();
        match meta_key {
            Some(key) => keys.push(key),
            None => {},
        }
        proof {
            lemma_tx_meta_key(before.current->0);
            assert(key_views(keys@) =~= seq![before.meta_key->0]);
        }
        let batch = deletion_batch(memory, keys);
        let run = CleanupRun {
            durable_seq,
            current,
            meta_key: None,
            last_ordinal,
            pending,
            pending_key_bytes,
            waiting,
            ended,
            deleting: Some(Deleting::Meta),
            progress,
        };
        match batch {
            Ok(batch) => (run, CleanupStep::Commit(batch, IndexCommitMode::Buffer)),
            Err(error) => (run, CleanupStep::Failed(error)),
        }
    }

    /// Takes the next key of the range, or why it could not be read.
    pub fn key_read(self, memory: &mut Memory, read: Result<Vec<u8>>) -> (stepped_to: (
        CleanupRun,
        CleanupStep,
    ))
        requires
            !old(memory).refused(),
            self@.deleting is None,
            self@.waiting is None,
            !self@.ended,
        ensures
            match read {
                Err(failure) => stepped_to.1@ == CleanupStepView::Failed(
                    seen_in_background(failure@),
                ),
                Ok(key) => if exists|owner: CleanupKey|
                    #[trigger] is_cleanup_key(key@, owner) && owner.commit_seq
                        <= self@.durable_seq {
                    exists|owner: CleanupKey| #[trigger]
                        is_cleanup_key(key@, owner) && owner.commit_seq <= self@.durable_seq
                            && stepped(
                            (CleanupView { waiting: Some((key@, owner)), ..self@ }).proceed(),
                            stepped_to.0@,
                            stepped_to.1@,
                            final(memory).refused(),
                        )
                } else {
                    stepped_to.1@ == CleanupStepView::Failed(background_corruption_view())
                },
            },
            match read {
                Err(_) => *final(memory) == *old(memory),
                Ok(key) => if exists|owner: CleanupKey|
                    #[trigger] is_cleanup_key(key@, owner) && owner.commit_seq <= self@.durable_seq {
                    exists|owner: CleanupKey| #[trigger]
                        is_cleanup_key(key@, owner) && owner.commit_seq <= self@.durable_seq && (
                        CleanupView { waiting: Some((key@, owner)), ..self@ }).asked_to_proceed(
                            *old(memory),
                            *final(memory),
                        )
                } else {
                    *final(memory) == *old(memory)
                },
            },
    {
        let key = match read {
            Err(failure) => return (self, CleanupStep::Failed(background_index_error(failure))),
            Ok(key) => key,
        };
        let owner = match decode_cleanup_key(key.as_slice()) {
            Ok(owner) => owner,
            Err(error) => return (self, CleanupStep::Failed(error)),
        };
        if owner.commit_seq > self.durable_seq {
            proof {
                assert forall|other: CleanupKey| #[trigger]
                    is_cleanup_key(key@, other) implies other.commit_seq > self@.durable_seq by {
                    lemma_cleanup_key(key@, owner, other);
                }
            }
            return (self, CleanupStep::Failed(background_corruption()));
        }
        let mut run = self;
        proof {
            use_type_invariant(&run);
        }
        let ghost before = run@;
        let ghost key_view = key@;
        run.waiting = Some((key, owner));
        proof {
            assert(run@ =~= (CleanupView { waiting: Some((key_view, owner)), ..before }));
        }
        run.proceed(memory)
    }

    /// There is no further key.
    pub fn keys_ended(self, memory: &mut Memory) -> (stepped_to: (CleanupRun, CleanupStep))
        requires
            !old(memory).refused(),
            self@.deleting is None,
        ensures
            stepped(
                (CleanupView { ended: true, ..self@ }).proceed(),
                stepped_to.0@,
                stepped_to.1@,
                final(memory).refused(),
            ),
            (CleanupView { ended: true, ..self@ }).asked_to_proceed(*old(memory), *final(memory)),
    {
        let mut run = self;
        proof {
            use_type_invariant(&run);
        }
        let ghost before = run@;
        run.ended = true;
        proof {
            assert(run@ =~= (CleanupView { ended: true, ..before }));
        }
        run.proceed(memory)
    }

    /// Takes what became of the batch.
    pub fn batch_ended(
        self,
        memory: &mut Memory,
        ended: std::result::Result<(), IndexCommitError>,
    ) -> (stepped_to: (CleanupRun, CleanupStep))
        requires
            !old(memory).refused(),
        ensures
            match ended {
                Err(failure) => stepped_to.1@ == CleanupStepView::Failed(
                    background_commit_view(failure),
                ),
                Ok(_) => match self@.counted() {
                    None => stepped_to.1@ == CleanupStepView::Failed(background_memory_view()),
                    Some(progress) => stepped(
                        (CleanupView { deleting: None, progress, ..self@ }).proceed(),
                        stepped_to.0@,
                        stepped_to.1@,
                        final(memory).refused(),
                    ),
                },
            },
            if ended is Ok && self@.counted() is Some {
                (CleanupView {
                    deleting: None,
                    progress: self@.counted()->0,
                    ..self@
                }).asked_to_proceed(*old(memory), *final(memory))
            } else {
                *final(memory) == *old(memory)
            },
    {
        match ended {
            Err(failure) => {
                return (self, CleanupStep::Failed(background_cleanup_commit_error(failure)));
            },
            Ok(_) => {},
        }
        let mut run = self;
        proof {
            use_type_invariant(&run);
        }
        let ghost before = run@;
        let mut progress = run.progress;
        match run.deleting {
            None => {},
            Some(deleting) => {
                match deleting {
                    Deleting::Mutations { count } => {
                        match progress.deleted_mutations.checked_add(count) {
                            Some(total) => {
                                progress.deleted_mutations = total;
                            },
                            None => {
                                return (
                                    run,
                                    CleanupStep::Failed(background_resource_exhausted()),
                                );
                            },
                        }
                    },
                    Deleting::Meta => {
                        match progress.deleted_meta.checked_add(1) {
                            Some(total) => {
                                progress.deleted_meta = total;
                            },
                            None => {
                                return (
                                    run,
                                    CleanupStep::Failed(background_resource_exhausted()),
                                );
                            },
                        }
                    },
                }
                match progress.committed_batches.checked_add(1) {
                    Some(total) => {
                        progress.committed_batches = total;
                    },
                    None => {
                        return (run, CleanupStep::Failed(background_resource_exhausted()));
                    },
                }
            },
        }
        run.deleting = None;
        run.progress = progress;
        proof {
            assert(run@ =~= (CleanupView { deleting: None, progress, ..before }));
        }
        run.proceed(memory)
    }

    pub fn progress(&self) -> (progress: DescriptorCleanupProgress)
        ensures
            progress == self@.progress,
    {
        self.progress
    }

    pub fn durable_seq(&self) -> (durable_seq: CommitSeq)
        ensures
            durable_seq == self@.durable_seq,
    {
        self.durable_seq
    }
}

/// A change deletes a key of the keyspace of the transactions.
pub open spec fn is_deletion(change: ChangeView) -> bool {
    change is DeleteInternal && change->DeleteInternal_space == InternalIndexSpace::Transaction
}

/// A cleanup deletes only what belongs to durable transactions, and the head of a transaction
/// only when none of its mutations is left and no further key of it can come: whatever of a
/// transaction is left still has its head. A batch deletes something, no more than a batch may,
/// and nothing outside the transactions; it goes into the buffers.
pub proof fn law_cleanup_deletes_heads_last(run: CleanupView)
    requires
        run.valid(),
        run.deleting is None,
    ensures
        ({
            let (after, step) = run.proceed();
            &&& step matches CleanupStepView::Commit(changes, mode) ==> {
                &&& mode == IndexCommitMode::Buffer
                &&& 1 <= changes.len() <= CLEANUP_MAX_KEYS_PER_BATCH
                &&& forall|i: int| 0 <= i < changes.len() ==> is_deletion(#[trigger] changes[i])
                &&& forall|i: int|
                    0 <= i < changes.len() ==> exists|owner: CleanupKey|
                        #[trigger] is_cleanup_key((#[trigger] changes[i])->DeleteInternal_key, owner)
                            && owner.commit_seq <= run.durable_seq && (after.deleting is Some
                            && after.deleting->0 is Meta ==> owner.ordinal is None)
                &&& after.deleting == Some(Deleting::Meta) ==> changes.len() == 1
            }
            &&& after.deleting == Some(Deleting::Meta) ==> run.pending.len() == 0
                && run.complete() && step is Commit
        }),
{
    let (after, step) = run.proceed();
    if let CleanupStepView::Commit(changes, _) = step {
        assert forall|i: int| 0 <= i < changes.len() implies exists|owner: CleanupKey|
            #[trigger] is_cleanup_key((#[trigger] changes[i])->DeleteInternal_key, owner)
                && owner.commit_seq <= run.durable_seq && (after.deleting is Some
                && after.deleting->0 is Meta ==> owner.ordinal is None) by {
            let key = changes[i]->DeleteInternal_key;
            if after.deleting == Some(Deleting::Meta) {
                assert(is_cleanup_key(
                    key,
                    CleanupKey { commit_seq: run.current->0, ordinal: None },
                ));
            } else if i < run.pending.len() {
                assert(run.owns(run.pending[i]));
                let ordinal = choose|ordinal: u64|
                    key == #[trigger] tx_mutation_key(run.current->0, ordinal);
                assert(is_cleanup_key(
                    key,
                    CleanupKey { commit_seq: run.current->0, ordinal: Some(ordinal) },
                ));
            } else {
                let found = run.waiting->0;
                assert(is_cleanup_key(key, found.1));
            }
        }
    }
}

/// The range that a cleanup goes through holds exactly the keys of the commits that were durable
/// when it began.
pub proof fn law_stable_range_holds_durable_commits(
    durable_seq: CommitSeq,
    commit_seq: CommitSeq,
    ordinal: u64,
)
    ensures
        stable_range(durable_seq).contains(tx_meta_key(commit_seq)) == (commit_seq <= durable_seq),
        stable_range(durable_seq).contains(tx_mutation_key(commit_seq, ordinal)) == (commit_seq
            <= durable_seq),
{
    if durable_seq < u64::MAX {
        let meta_tail = seq![TX_META_KIND];
        let mutation_tail = seq![TX_MUTATION_KIND] + be_bytes(ordinal as nat, 8);
        assert(tx_meta_key(commit_seq) =~= sequence_prefix(commit_seq) + meta_tail);
        assert(tx_mutation_key(commit_seq, ordinal) =~= sequence_prefix(commit_seq)
            + mutation_tail);
        lemma_prefix_order((durable_seq + 1) as u64, commit_seq, meta_tail);
        lemma_prefix_order((durable_seq + 1) as u64, commit_seq, mutation_tail);
    }
}

/// A cleanup holds a key: it waits to be deleted or for its turn.
pub open spec fn holds(run: CleanupView, key: Seq<u8>) -> bool {
    ||| run.pending.contains(key)
    ||| run.meta_key == Some(key)
    ||| (run.waiting matches Some(found) && found.0 == key)
}

/// A batch deletes a key.
pub open spec fn deletes(step: CleanupStepView, key: Seq<u8>) -> bool {
    step matches CleanupStepView::Commit(changes, mode) && changes.contains(
        ChangeView::DeleteInternal { space: InternalIndexSpace::Transaction, key },
    )
}

/// A cleanup loses no key: whatever it holds it goes on to hold or deletes, and it deletes nothing
/// that it did not hold. It ends exactly when it is told that there are no further keys and it
/// holds none. It fails exactly at a key that comes out of its order: a head behind another key
/// of its transaction, or a mutation behind one with a number that is not smaller.
pub proof fn law_cleanup_loses_no_key(run: CleanupView, key: Seq<u8>)
    requires
        run.valid(),
        run.deleting is None,
    ensures
        ({
            let (after, step) = run.proceed();
            let finishes = run.complete() && (run.pending.len() > 0 || run.meta_key is Some);
            let stray = !finishes && (run.waiting matches Some(found) && run.current == Some(
                found.1.commit_seq,
            ) && match found.1.ordinal {
                None => run.last_ordinal is Some || run.meta_key is Some,
                Some(ordinal) => run.last_ordinal matches Some(last) && last >= ordinal,
            });
            &&& step is Failed <==> stray
            &&& !(step is Failed) ==> (holds(run, key) <==> holds(after, key) || deletes(step, key))
            &&& step is Done <==> run.ended && run.pending.len() == 0 && run.meta_key is None
                && run.waiting is None
            &&& step is NextKey ==> after.waiting is None && (run.waiting is Some || !run.ended)
            &&& step is Commit <==> finishes || (!stray && (run.waiting matches Some(found)
                && found.1.ordinal is Some && run.pending.len() + 1 >= CLEANUP_MAX_KEYS_PER_BATCH))
            &&& after.durable_seq == run.durable_seq
            &&& after.progress == run.progress
        }),
{
    let (after, step) = run.proceed();
    let all = run.pending;
    assert forall|i: int| 0 <= i < all.len() implies deletions(all).contains(
        ChangeView::DeleteInternal {
            space: InternalIndexSpace::Transaction,
            key: #[trigger] all[i],
        },
    ) by {
        assert(deletions(all)[i] == (ChangeView::DeleteInternal {
            space: InternalIndexSpace::Transaction,
            key: all[i],
        }));
    }
    if let Some(found) = run.waiting {
        let grown = all.push(found.0);
        assert(grown[all.len() as int] == found.0);
        assert forall|i: int| 0 <= i < grown.len() implies deletions(grown).contains(
            ChangeView::DeleteInternal {
                space: InternalIndexSpace::Transaction,
                key: #[trigger] grown[i],
            },
        ) by {
            assert(deletions(grown)[i] == (ChangeView::DeleteInternal {
                space: InternalIndexSpace::Transaction,
                key: grown[i],
            }));
        }
        if all.contains(key) {
            let i = choose|i: int| 0 <= i < all.len() && all[i] == key;
            assert(grown[i] == key);
        }
        if grown.contains(key) {
            let i = choose|i: int| 0 <= i < grown.len() && grown[i] == key;
            if i < all.len() {
                assert(all[i] == key);
            }
        }
    }
    if run.meta_key is Some {
        assert(deletions(seq![run.meta_key->0])[0] == (ChangeView::DeleteInternal {
            space: InternalIndexSpace::Transaction,
            key: run.meta_key->0,
        }));
    }
}

/// What a cleanup counts is what it deleted: every batch once, and every key of it as a mutation
/// or as the head of a transaction.
pub proof fn law_cleanup_counts_what_it_deletes(run: CleanupView)
    requires
        run.valid(),
        run.deleting is None,
        run.progress.deleted_mutations + CLEANUP_MAX_KEYS_PER_BATCH <= usize::MAX,
        run.progress.deleted_meta < usize::MAX,
        run.progress.committed_batches < usize::MAX,
    ensures
        ({
            let (after, step) = run.proceed();
            step matches CleanupStepView::Commit(changes, mode) ==> {
                &&& after.counted() matches Some(progress) && {
                    &&& progress.committed_batches == run.progress.committed_batches + 1
                    &&& progress.deleted_mutations + progress.deleted_meta
                        == run.progress.deleted_mutations + run.progress.deleted_meta
                        + changes.len()
                    &&& progress.deleted_meta == run.progress.deleted_meta + (if run.complete()
                        && run.pending.len() == 0 {
                        1int
                    } else {
                        0
                    })
                    &&& progress.captured_durable_seq == run.progress.captured_durable_seq
                    &&& progress.blocked_by_recovery == run.progress.blocked_by_recovery
                }
            }
        }),
{
}

/// A cleanup begins with nothing done.
pub proof fn law_cleanup_begins_with_nothing()
    ensures
        no_progress().captured_durable_seq == 0 && no_progress().deleted_mutations == 0,
        no_progress().deleted_meta == 0 && no_progress().committed_batches == 0,
        !no_progress().blocked_by_recovery,
{
}

/// A step for which there is no memory fails, and may be tried again. Every other step says what is
/// to be done.
pub proof fn law_cleanup_step_without_memory_fails(
    expected: (CleanupView, CleanupStepView),
    after: CleanupView,
    step: CleanupStepView,
    refused: bool,
)
    requires
        stepped(expected, after, step, refused),
    ensures
        refused ==> step is Failed && step->Failed_0.kind == StorageErrorKind::ResourceExhausted
            && step->Failed_0.retry_advice == RetryAdvice::RetrySameInstance
            && step->Failed_0.write_outcome is None,
        !refused ==> step == expected.1,
        !refused && !(step is Failed) ==> after == expected.0,
{
}

/// A key that is taken up decides what may come behind it: its transaction is the current one, and
/// the number of a mutation is the last one seen. What is deleted changes neither. A batch has at
/// most 1024 keys, and fewer are kept back.
pub proof fn law_cleanup_remembers_its_place(run: CleanupView)
    requires
        run.valid(),
        run.deleting is None,
    ensures
        ({
            let (after, step) = run.proceed();
            let takes = !(step is Failed) && run.waiting is Some && after.waiting is None;
            let found = run.waiting->0;
            &&& run.pending.len() <= 1_023
            &&& !(step is Failed) ==> after.pending.len() <= 1_023
            &&& step matches CleanupStepView::Commit(changes, mode) ==> changes.len() <= 1_024
            &&& takes ==> after.current == Some(found.1.commit_seq)
            &&& takes && found.1.ordinal is Some ==> after.last_ordinal == found.1.ordinal
            &&& takes && found.1.ordinal is None ==> after.last_ordinal is None && after.meta_key
                == Some(found.0)
            &&& !takes && !(step is Failed) ==> after.current == run.current && after.last_ordinal
                == run.last_ordinal && after.waiting == run.waiting
            &&& after.ended == run.ended
        }),
{
}

} // verus!
