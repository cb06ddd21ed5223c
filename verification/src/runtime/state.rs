//! The state of an instance, which only gets worse, and the queue of its writes.

use vstd::prelude::*;

use crate::error::{
    ErrorView, InstanceState, Operation, ProtocolStage, Result, RetryAdvice, StorageError,
    StorageErrorKind, WriteOutcome,
};
use crate::runtime::write_gate::{
    abandoned_active_write_error, abandoned_view, admission_error, admission_view,
};
use crate::stats::{
    latched_summary, runtime_update_applies, DbStats, LatchedErrorSummary, StatsState,
};

verus! {

/// The state of an instance, and how often it has changed.
#[derive(Clone, Copy, Debug, PartialEq, Eq, Structural)]
pub struct StateSnapshot {
    pub instance_state: InstanceState,
    pub state_epoch: u64,
}

/// What a failure did to the state of an instance.
#[derive(Clone, Copy, Debug, PartialEq, Eq, Structural)]
pub struct StateTransition {
    pub previous: StateSnapshot,
    pub current: StateSnapshot,
    pub changed: bool,
    pub cancelled_writes: usize,
}

/// How bad a state is.
pub open spec fn rank(state: InstanceState) -> int {
    match state {
        InstanceState::Healthy => 0,
        InstanceState::WriteStopped => 1,
        InstanceState::Poisoned => 2,
    }
}

fn state_rank(state: InstanceState) -> (value: u8)
    ensures
        value == rank(state),
{
    match state {
        InstanceState::Healthy => 0,
        InstanceState::WriteStopped => 1,
        InstanceState::Poisoned => 2,
    }
}

/// The number of epochs that a word has room for.
pub const EPOCH_COUNT: u64 = 0x4000_0000_0000_0000;

/// A state and its epoch as one word. The two highest bits of an epoch have no room in it.
pub open spec fn state_word(snapshot: StateSnapshot) -> int {
    4 * (snapshot.state_epoch % EPOCH_COUNT) + rank(snapshot.instance_state)
}

/// Packs a state and its epoch into one word, which the caller can publish atomically.
pub fn encode_state(snapshot: StateSnapshot) -> (word: u64)
    ensures
        word == state_word(snapshot),
{
    (snapshot.state_epoch % EPOCH_COUNT) * 4 + state_rank(snapshot.instance_state) as u64
}

/// Unpacks a word. A word that no state has reads as poisoned.
pub fn decode_state(word: u64) -> (snapshot: StateSnapshot)
    ensures
        snapshot.state_epoch == word / 4,
        word % 4 < 3 ==> state_word(snapshot) == word,
        word % 4 == 3 ==> snapshot.instance_state == InstanceState::Poisoned,
{
    let low: u64 = word % 4;
    let instance_state = if low == 0 {
        InstanceState::Healthy
    } else if low == 1 {
        InstanceState::WriteStopped
    } else {
        InstanceState::Poisoned
    };
    StateSnapshot { instance_state, state_epoch: word / 4 }
}

/// A packed state whose epoch has room in a word is unpacked to itself.
pub proof fn law_state_word_round_trip(snapshot: StateSnapshot, decoded: StateSnapshot)
    requires
        snapshot.state_epoch < EPOCH_COUNT,
        decoded.state_epoch < EPOCH_COUNT,
        state_word(snapshot) == state_word(decoded),
    ensures
        snapshot == decoded,
{
}

/// The state that an error demands by itself.
pub open spec fn demanded_state(error: ErrorView) -> InstanceState {
    if error.write_outcome == Some(WriteOutcome::CommitUnknown) || error.protocol_stage
        == ProtocolStage::VLogSync || error.kind == StorageErrorKind::Corruption || error.kind
        == StorageErrorKind::InvalidLayout || error.kind == StorageErrorKind::IncompatibleFormat
        || error.kind == StorageErrorKind::StoragePoisoned || error.kind
        == StorageErrorKind::Unrecoverable {
        InstanceState::Poisoned
    } else if error.kind == StorageErrorKind::StorageWriteStopped {
        InstanceState::WriteStopped
    } else {
        InstanceState::Healthy
    }
}

/// The worse of a target and of what an error demands.
pub open spec fn failure_state(target: InstanceState, error: ErrorView) -> InstanceState {
    if rank(demanded_state(error)) > rank(target) {
        demanded_state(error)
    } else {
        target
    }
}

pub fn required_failure_state(target: InstanceState, error: &StorageError) -> (required: InstanceState)
    ensures
        required == failure_state(target, error@),
{
    let demanded = if error.write_outcome == Some(WriteOutcome::CommitUnknown)
        || error.protocol_stage == ProtocolStage::VLogSync || error.kind
        == StorageErrorKind::Corruption || error.kind == StorageErrorKind::InvalidLayout
        || error.kind == StorageErrorKind::IncompatibleFormat || error.kind
        == StorageErrorKind::StoragePoisoned || error.kind == StorageErrorKind::Unrecoverable {
        InstanceState::Poisoned
    } else if error.kind == StorageErrorKind::StorageWriteStopped {
        InstanceState::WriteStopped
    } else {
        InstanceState::Healthy
    };
    if state_rank(demanded) > state_rank(target) {
        demanded
    } else {
        target
    }
}

/// The state of an instance and the queue of its writes. The caller guards it with a lock of
/// its own.
pub struct RuntimeControl {
    word: u64,
    first_latched_error: Option<LatchedErrorSummary>,
    accepting_writes: bool,
    queue: Vec<u64>,
    active: Option<u64>,
}

/// What a control holds: the write that is active, and those that wait, the next one first.
#[verifier::ext_equal]
pub struct RuntimeView {
    pub state: StateSnapshot,
    pub first_latched_error: Option<LatchedErrorSummary>,
    pub accepting_writes: bool,
    pub queue: Seq<u64>,
    pub active: Option<u64>,
}

spec fn word_state(word: u64) -> StateSnapshot {
    StateSnapshot {
        instance_state: if word % 4 == 0 {
            InstanceState::Healthy
        } else if word % 4 == 1 {
            InstanceState::WriteStopped
        } else {
            InstanceState::Poisoned
        },
        state_epoch: word / 4,
    }
}

impl View for RuntimeControl {
    type V = RuntimeView;

    closed spec fn view(&self) -> RuntimeView {
        RuntimeView {
            state: word_state(self.word),
            first_latched_error: self.first_latched_error,
            accepting_writes: self.accepting_writes,
            queue: self.queue@,
            active: self.active,
        }
    }
}

/// The writes that wait are sent away where a failure makes the instance worse.
pub open spec fn sent_away(before: RuntimeView, after: RuntimeView) -> Seq<u64> {
    if after.state == before.state {
        Seq::empty()
    } else {
        before.queue
    }
}

impl RuntimeView {
    /// What holds of every control: each change of the state made it worse, so that there are
    /// no more changes than states; writes are let in, and wait, only at a healthy instance;
    /// none waits while none is active; no write is in the queue twice, or active and in the
    /// queue; and the first error is kept exactly if there was one.
    pub open spec fn valid(self) -> bool {
        &&& self.state.state_epoch <= rank(self.state.instance_state)
        &&& self.accepting_writes == (self.state.instance_state == InstanceState::Healthy)
        &&& self.queue.len() > 0 ==> self.accepting_writes && self.active is Some
        &&& self.queue.no_duplicates()
        &&& self.active matches Some(id) ==> !self.queue.contains(id)
        &&& self.first_latched_error is Some == (self.state.instance_state
            != InstanceState::Healthy)
    }

    /// A write is neither active nor waiting.
    pub open spec fn lacks(self, id: u64) -> bool {
        self.active != Some(id) && !self.queue.contains(id)
    }

    /// The control after a failure.
    pub open spec fn latched(self, target: InstanceState, error: ErrorView) -> RuntimeView {
        let required = failure_state(target, error);
        if rank(required) <= rank(self.state.instance_state) {
            self
        } else {
            RuntimeView {
                state: StateSnapshot {
                    instance_state: required,
                    state_epoch: (self.state.state_epoch + 1) as u64,
                },
                first_latched_error: if self.state.instance_state == InstanceState::Healthy {
                    Some(latched_summary(error))
                } else {
                    self.first_latched_error
                },
                accepting_writes: false,
                queue: Seq::empty(),
                active: self.active,
            }
        }
    }

    /// What a failure changes.
    pub open spec fn transition(self, target: InstanceState, error: ErrorView) -> StateTransition {
        let after = self.latched(target, error);
        let changed = rank(failure_state(target, error)) > rank(self.state.instance_state);
        StateTransition {
            previous: self.state,
            current: after.state,
            changed,
            cancelled_writes: if changed {
                self.queue.len() as usize
            } else {
                0
            },
        }
    }

    /// The control after the active write has ended: the next one becomes active.
    pub open spec fn finished(self) -> RuntimeView {
        if self.accepting_writes && self.queue.len() > 0 {
            RuntimeView { active: Some(self.queue[0]), queue: self.queue.skip(1), ..self }
        } else {
            RuntimeView { active: None, ..self }
        }
    }
}

/// What became of a write that its holder dropped.
pub enum Abandoned {
    /// It was neither active nor waiting.
    NotHeld,
    /// It was waiting, and is sent away.
    Dequeued,
    /// It was active: the instance is poisoned, and the waiting writes are sent away.
    Poisoned { transition: StateTransition, cancelled: Vec<u64> },
}

impl RuntimeControl {
    #[verifier::type_invariant]
    spec fn well_formed(&self) -> bool {
        self@.valid()
    }

    /// The control of a healthy instance.
    pub fn new() -> (control: Self)
        ensures
            control@ == (RuntimeView {
                state: StateSnapshot {
                    instance_state: InstanceState::Healthy,
                    state_epoch: 0,
                },
                first_latched_error: None,
                accepting_writes: true,
                queue: Seq::empty(),
                active: None,
            }),
    {
        RuntimeControl {
            word: 0,
            first_latched_error: None,
            accepting_writes: true,
            queue: Vec::new(),
            active: None,
        }
    }

    pub fn state(&self) -> (state: StateSnapshot)
        ensures
            state == self@.state,
            self@.valid(),
    {
        proof {
            use_type_invariant(self);
        }
        decode_state(self.word)
    }

    pub fn first_latched_error(&self) -> (error: Option<LatchedErrorSummary>)
        ensures
            error == self@.first_latched_error,
    {
        self.first_latched_error
    }

    pub fn active_request(&self) -> (active: Option<u64>)
        ensures
            active == self@.active,
    {
        self.active
    }

    pub fn queued_write_count(&self) -> (count: usize)
        ensures
            count == self@.queue.len(),
    {
        self.queue.len()
    }

    /// Whether a write that needs no turn may complete.
    pub fn check_write_admission(&self, operation: Operation) -> (result: Result<()>)
        ensures
            match result {
                Ok(_) => self@.state.instance_state == InstanceState::Healthy,
                Err(error) => self@.state.instance_state != InstanceState::Healthy && error@
                    == admission_view(operation, self@.state.instance_state),
            },
    {
        proof {
            use_type_invariant(self);
        }
        let state = self.state();
        if state.instance_state != InstanceState::Healthy || !self.accepting_writes {
            return Err(admission_error(operation, state.instance_state));
        }
        Ok(())
    }

    /// Lets a write in, and says whether it starts now. Otherwise it waits behind the others.
    pub fn enqueue_write(&mut self, operation: Operation, id: u64) -> (result: Result<bool>)
        requires
            old(self)@.lacks(id),
        ensures
            match result {
                Ok(starts_now) => {
                    &&& old(self)@.state.instance_state == InstanceState::Healthy
                    &&& starts_now == (old(self)@.active is None)
                    &&& final(self)@ == (if starts_now {
                        RuntimeView { active: Some(id), ..old(self)@ }
                    } else {
                        RuntimeView { queue: old(self)@.queue.push(id), ..old(self)@ }
                    })
                },
                Err(error) => {
                    &&& old(self)@.state.instance_state != InstanceState::Healthy
                    &&& error@ == admission_view(operation, old(self)@.state.instance_state)
                    &&& final(self)@ == old(self)@
                },
            },
    {
        proof {
            use_type_invariant(&*self);
        }
        self.check_write_admission(operation)?;
        let ghost before = self@;
        if self.active.is_none() && self.queue.len() == 0 {
            self.active = Some(id);
            return Ok(true);
        }
        let mut taken = RuntimeControl::new();
        std::mem::swap(&mut taken, self);
        let mut queue: Vec<u64> = taken.queue;
        queue.push(id);
        proof {
            lemma_push_distinct(before.queue, id);
            let active = before.active->0;
            assert(queue@ =~= before.queue.push(id));
            assert(!queue@.contains(active)) by {
                if queue@.contains(active) {
                    let k = choose|k: int| 0 <= k < queue@.len() && queue@[k] == active;
                    if k < before.queue.len() {
                        assert(before.queue[k] == active);
                    }
                }
            }
        }
        *self = RuntimeControl {
            word: taken.word,
            first_latched_error: taken.first_latched_error,
            accepting_writes: taken.accepting_writes,
            queue,
            active: taken.active,
        };
        Ok(false)
    }

    /// Takes a failure. The state gets as bad as the failure demands, never better; the first
    /// failure is kept; and the writes that wait are sent away, in their order.
    pub fn latch_failure(&mut self, target: InstanceState, error: &StorageError) -> (latched: (
        StateTransition,
        Vec<u64>,
    ))
        ensures
            final(self)@ == old(self)@.latched(target, error@),
            latched.0 == old(self)@.transition(target, error@),
            latched.1@ == (if latched.0.changed {
                old(self)@.queue
            } else {
                Seq::empty()
            }),
    {
        proof {
            use_type_invariant(&*self);
        }
        let required = required_failure_state(target, error);
        let previous = self.state();
        if state_rank(required) <= state_rank(previous.instance_state) {
            let transition = StateTransition {
                previous,
                current: previous,
                changed: false,
                cancelled_writes: 0,
            };
            return (transition, Vec::new());
        }
        let current = StateSnapshot {
            instance_state: required,
            state_epoch: previous.state_epoch + 1,
        };
        let first_latched_error = if previous.instance_state == InstanceState::Healthy {
            Some(LatchedErrorSummary::from_storage_error(error))
        } else {
            self.first_latched_error
        };
        let mut taken = RuntimeControl::new();
        std::mem::swap(&mut taken, self);
        let cancelled: Vec<u64> = taken.queue;
        *self = RuntimeControl {
            word: encode_state(current),
            first_latched_error,
            accepting_writes: false,
            queue: Vec::new(),
            active: taken.active,
        };
        let transition = StateTransition {
            previous,
            current,
            changed: true,
            cancelled_writes: cancelled.len(),
        };
        (transition, cancelled)
    }

    /// Reports the state to the statistics.
    pub fn publish_stats(&self, stats: &mut StatsState)
        ensures
            final(stats)@ == (if runtime_update_applies(
                old(stats)@,
                self@.state.instance_state,
                self@.state.state_epoch,
            ) {
                DbStats {
                    instance_state: self@.state.instance_state,
                    state_epoch: self@.state.state_epoch,
                    first_latched_error: self@.first_latched_error,
                    ..old(stats)@
                }
            } else {
                old(stats)@
            }),
    {
        let state = self.state();
        stats.update_runtime_state(
            state.instance_state,
            state.state_epoch,
            self.first_latched_error,
        );
    }

    /// The statistics, with the state as it is now.
    pub fn stats(&self, stats: &StatsState) -> (snapshot: DbStats)
        ensures
            snapshot == (DbStats {
                instance_state: self@.state.instance_state,
                state_epoch: self@.state.state_epoch,
                first_latched_error: self@.first_latched_error,
                ..stats@
            }),
            snapshot.well_formed(),
    {
        proof {
            use_type_invariant(self);
        }
        let state = self.state();
        let snapshot = stats.snapshot();
        DbStats {
            instance_state: state.instance_state,
            state_epoch: state.state_epoch,
            first_latched_error: self.first_latched_error,
            ..snapshot
        }
    }

    fn place(&self, id: u64) -> (place: Option<usize>)
        ensures
            match place {
                Some(i) => i < self.queue@.len() && self.queue@[i as int] == id,
                None => !self.queue@.contains(id),
            },
    {
        let mut i: usize = 0;
        while i < self.queue.len()
            invariant
                i <= self.queue@.len(),
                forall|k: int| 0 <= k < i ==> self.queue@[k] != id,
            decreases self.queue@.len() - i,
        {
            if self.queue[i] == id {
                return Some(i);
            }
            i = i + 1;
        }
        None
    }

    /// Sends a waiting write away, and says whether it was waiting.
    pub fn cancel_queued_write(&mut self, id: u64) -> (removed: bool)
        ensures
            removed == old(self)@.queue.contains(id),
            match removed {
                true => exists|i: int|
                    0 <= i < old(self)@.queue.len() && #[trigger] old(self)@.queue[i] == id
                        && final(self)@ == (RuntimeView {
                        queue: old(self)@.queue.remove(i),
                        ..old(self)@
                    }),
                false => final(self)@ == old(self)@,
            },
    {
        proof {
            use_type_invariant(&*self);
        }
        let ghost before = self@;
        let i: usize = match self.place(id) {
            Some(i) => i,
            None => return false,
        };
        let mut taken = RuntimeControl::new();
        std::mem::swap(&mut taken, self);
        let mut queue: Vec<u64> = taken.queue;
        queue.remove(i);
        proof {
            assert(before.queue[i as int] == id);
            assert(queue@ =~= before.queue.remove(i as int));
            lemma_removed(before.queue, i as int);
        }
        *self = RuntimeControl {
            word: taken.word,
            first_latched_error: taken.first_latched_error,
            accepting_writes: taken.accepting_writes,
            queue,
            active: taken.active,
        };
        true
    }

    /// The active write has ended. Says whether it was the active one, and which one starts.
    pub fn finish_write(&mut self, id: u64) -> (finished: (bool, Option<u64>))
        ensures
            finished.0 == (old(self)@.active == Some(id)),
            finished.0 ==> final(self)@ == old(self)@.finished(),
            finished.0 ==> finished.1 == final(self)@.active,
            !finished.0 ==> final(self)@ == old(self)@ && finished.1 is None,
    {
        proof {
            use_type_invariant(&*self);
        }
        if self.active != Some(id) {
            return (false, None);
        }
        let ghost before = self@;
        let mut taken = RuntimeControl::new();
        std::mem::swap(&mut taken, self);
        let accepting_writes = taken.accepting_writes;
        let mut queue: Vec<u64> = taken.queue;
        let next: Option<u64> = if accepting_writes && queue.len() > 0 {
            let next: u64 = queue.remove(0);
            proof {
                assert(queue@ =~= before.queue.skip(1));
                lemma_removed(before.queue, 0);
                assert(before.queue.remove(0) =~= before.queue.skip(1));
                assert(!queue@.contains(next)) by {
                    if queue@.contains(next) {
                        let k = choose|k: int| 0 <= k < queue@.len() && queue@[k] == next;
                        assert(before.queue[k + 1] == before.queue[0]);
                    }
                }
            }
            Some(next)
        } else {
            None
        };
        *self = RuntimeControl {
            word: taken.word,
            first_latched_error: taken.first_latched_error,
            accepting_writes,
            queue,
            active: next,
        };
        (true, next)
    }

    /// The holder of a write dropped it.
    pub fn abandon_write(&mut self, operation: Operation, id: u64) -> (abandoned: Abandoned)
        ensures
            if old(self)@.queue.contains(id) {
                &&& abandoned is Dequeued
                &&& exists|i: int|
                    0 <= i < old(self)@.queue.len() && #[trigger] old(self)@.queue[i] == id
                        && final(self)@ == (RuntimeView {
                        queue: old(self)@.queue.remove(i),
                        ..old(self)@
                    })
            } else if old(self)@.active == Some(id) {
                &&& final(self)@ == old(self)@.latched(
                    InstanceState::Poisoned,
                    abandoned_view(operation),
                ).finished()
                &&& abandoned matches Abandoned::Poisoned { transition, cancelled } && {
                    &&& transition == old(self)@.transition(
                        InstanceState::Poisoned,
                        abandoned_view(operation),
                    )
                    &&& cancelled@ == (if transition.changed {
                        old(self)@.queue
                    } else {
                        Seq::empty()
                    })
                }
            } else {
                abandoned is NotHeld && final(self)@ == old(self)@
            },
    {
        if self.cancel_queued_write(id) {
            return Abandoned::Dequeued;
        }
        if self.active != Some(id) {
            return Abandoned::NotHeld;
        }
        let error = abandoned_active_write_error(operation);
        let (transition, cancelled) = self.latch_failure(InstanceState::Poisoned, &error);
        self.finish_write(id);
        Abandoned::Poisoned { transition, cancelled }
    }
}

proof fn lemma_push_distinct(s: Seq<u64>, x: u64)
    requires
        s.no_duplicates(),
        !s.contains(x),
    ensures
        s.push(x).no_duplicates(),
{
    let t = s.push(x);
    assert forall|i: int, j: int| 0 <= i < t.len() && 0 <= j < t.len() && i != j implies t[i]
        != t[j] by {
        if i == s.len() {
            assert(s[j] != x);
        } else if j == s.len() {
            assert(s[i] != x);
        }
    }
}

proof fn lemma_removed(s: Seq<u64>, i: int)
    requires
        s.no_duplicates(),
        0 <= i < s.len(),
    ensures
        s.remove(i).no_duplicates(),
        forall|x: u64| #[trigger] s.remove(i).contains(x) ==> s.contains(x),
{
    let t = s.remove(i);
    assert forall|a: int, b: int| 0 <= a < t.len() && 0 <= b < t.len() && a != b implies t[a]
        != t[b] by {
        let x = if a < i { a } else { a + 1 };
        let y = if b < i { b } else { b + 1 };
        assert(t[a] == s[x]);
        assert(t[b] == s[y]);
    }
    assert forall|x: u64| #[trigger] t.contains(x) implies s.contains(x) by {
        let a = choose|a: int| 0 <= a < t.len() && t[a] == x;
        assert(s[if a < i { a } else { a + 1 }] == x);
    }
}

/// An instance never gets better, its epoch counts its changes, and the first error stays the
/// first.
pub proof fn law_state_only_gets_worse(
    before: RuntimeView,
    target: InstanceState,
    error: ErrorView,
)
    requires
        before.valid(),
    ensures
        ({
            let after = before.latched(target, error);
            &&& after.valid()
            &&& rank(after.state.instance_state) >= rank(before.state.instance_state)
            &&& rank(after.state.instance_state) >= rank(target)
            &&& after.state == before.state || (rank(after.state.instance_state) > rank(
                before.state.instance_state,
            ) && after.state.state_epoch == before.state.state_epoch + 1)
            &&& before.first_latched_error is Some ==> after.first_latched_error
                == before.first_latched_error
        }),
{
}

/// Writes start in the order in which they came: the one that starts is the one that has waited
/// longest, and nothing else moves.
pub proof fn law_writes_start_in_order(before: RuntimeView)
    requires
        before.valid(),
        before.active is Some,
    ensures
        ({
            let after = before.finished();
            &&& before.queue.len() > 0 ==> after.active == Some(before.queue[0]) && after.queue
                == before.queue.skip(1)
            &&& before.queue.len() == 0 ==> after.active is None
            &&& after.state == before.state
        }),
{
}

/// A failure leaves the instance in the worse of the state that is asked for and the state that
/// the error itself calls for: a commit whose outcome is not known, a failed sync of the log and
/// damaged contents poison it; an error that stops writes stops them; any other error by itself
/// changes nothing.
pub proof fn law_failure_leaves_worse_state(target: InstanceState, error: ErrorView)
    ensures
        ({
            let state = failure_state(target, error);
            let damaged = error.kind == StorageErrorKind::Corruption || error.kind
                == StorageErrorKind::InvalidLayout || error.kind
                == StorageErrorKind::IncompatibleFormat || error.kind
                == StorageErrorKind::StoragePoisoned || error.kind
                == StorageErrorKind::Unrecoverable;
            let unknown = error.write_outcome == Some(WriteOutcome::CommitUnknown)
                || error.protocol_stage == ProtocolStage::VLogSync;
            &&& state == InstanceState::Poisoned <==> target == InstanceState::Poisoned || damaged
                || unknown
            &&& state == InstanceState::Healthy <==> target == InstanceState::Healthy && !damaged
                && !unknown && error.kind != StorageErrorKind::StorageWriteStopped
        }),
{
}

/// A failure that makes the instance worse sends away every write that waits, lets no other one
/// in, and leaves the active one its turn; the error is kept if the instance was healthy. Any
/// other failure changes nothing.
pub proof fn law_failure_sends_waiting_writes_away(
    before: RuntimeView,
    target: InstanceState,
    error: ErrorView,
)
    requires
        before.valid(),
        before.queue.len() <= usize::MAX,
    ensures
        ({
            let after = before.latched(target, error);
            let transition = before.transition(target, error);
            let worse = after.state.instance_state != before.state.instance_state;
            &&& after.state.instance_state == failure_state(target, error) || (!worse
                && before.state.instance_state != InstanceState::Healthy)
            &&& transition.previous == before.state
            &&& transition.current == after.state
            &&& transition.changed == worse
            &&& !worse ==> after == before && transition.cancelled_writes == 0
            &&& worse ==> {
                &&& after.queue.len() == 0
                &&& transition.cancelled_writes == before.queue.len()
                &&& sent_away(before, after) == before.queue
                &&& !after.accepting_writes
                &&& after.active == before.active
                &&& after.state.state_epoch == before.state.state_epoch + 1
                &&& before.state.instance_state == InstanceState::Healthy ==> {
                    let kept = after.first_latched_error->0;
                    &&& after.first_latched_error is Some
                    &&& kept.kind == error.kind
                    &&& kept.operation == error.operation
                    &&& kept.protocol_stage == error.protocol_stage
                    &&& kept.retry_advice == error.retry_advice
                    &&& kept.os_code == error.os_code
                    &&& kept.commit_seq == error.commit_seq
                    &&& kept.vlog_file_id == error.vlog_file_id
                    &&& kept.vlog_offset == error.vlog_offset
                }
            }
        }),
{
}

/// A write that is dropped while it is active poisons the instance, whatever its state was; the
/// writes behind it never start.
pub proof fn law_dropped_active_write_poisons(before: RuntimeView, operation: Operation)
    requires
        before.valid(),
        before.active is Some,
    ensures
        ({
            let after = before.latched(
                InstanceState::Poisoned,
                abandoned_view(operation),
            ).finished();
            &&& after.valid()
            &&& after.state.instance_state == InstanceState::Poisoned
            &&& after.active is None
            &&& after.queue.len() == 0
        }),
{
}

/// An answer to a write that is not let in says that nothing was committed and what state the
/// instance is in. A stopped instance wants its surroundings mended before it is opened again; a
/// poisoned one wants to be opened and checked.
pub proof fn law_write_is_sent_away_with_state(operation: Operation, state: InstanceState)
    ensures
        ({
            let error = admission_view(operation, state);
            &&& error.operation == operation
            &&& error.protocol_stage == ProtocolStage::Admission
            &&& error.write_outcome == Some(WriteOutcome::NotCommitted)
            &&& error.instance_state == Some(state)
            &&& demanded_state(error) == state
            &&& (error.kind == StorageErrorKind::Busy) == (state == InstanceState::Healthy)
            &&& (error.retry_advice == RetryAdvice::RetrySameInstance) == (state
                == InstanceState::Healthy)
            &&& (error.retry_advice == RetryAdvice::FixEnvironmentAndReopen) == (state
                == InstanceState::WriteStopped)
            &&& (error.retry_advice == RetryAdvice::ReopenAndVerify) == (state
                == InstanceState::Poisoned)
        }),
{
}

/// What a failure changes is reported: statistics that show the state before it take over the
/// state after it, and never go back.
pub proof fn law_worse_state_is_reported(
    before: RuntimeView,
    target: InstanceState,
    error: ErrorView,
    stats: DbStats,
)
    requires
        before.valid(),
        stats.instance_state == before.state.instance_state,
        stats.state_epoch == before.state.state_epoch,
    ensures
        ({
            let after = before.latched(target, error).state;
            let taken = DbStats {
                instance_state: after.instance_state,
                state_epoch: after.state_epoch,
                ..stats
            };
            &&& runtime_update_applies(stats, after.instance_state, after.state_epoch)
            &&& after != before.state ==> !runtime_update_applies(
                taken,
                before.state.instance_state,
                before.state.state_epoch,
            )
        }),
{
}

} // verus!
