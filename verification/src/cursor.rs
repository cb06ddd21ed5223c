//! Walking through the keys in their order.

use vstd::prelude::*;

use crate::batch::MAX_KEY_VALUE_SIZE;
use crate::bytes::{byte_order_less, bytes_less, lemma_byte_order_total};
use crate::db::read::{
    invalid_read_argument, invalid_read_view, poisoned_read_error, poisoned_read_view,
    read_memory_error, read_memory_view,
};
use crate::error::{ErrorView, Operation, Result, StorageError};
use crate::index::range::UserKeyRange;
use crate::memory::{asked, Memory};
use crate::runtime::state::StateSnapshot;

verus! {

#[derive(Clone, Copy, Debug, PartialEq, Eq, Structural)]
pub enum CursorState {
    Unpositioned,
    Valid,
    Exhausted,
    Failed,
}

#[derive(Clone, Copy, Debug, PartialEq, Eq, Structural)]
pub enum CursorDirection {
    Forward,
    Reverse,
}

/// A cursor over the keys of one fixed view. The caller keeps the view and an iterator over it;
/// the cursor says what to do with them.
pub struct DbIterator {
    operation: Operation,
    state: CursorState,
    direction: Option<CursorDirection>,
    current: Option<(Vec<u8>, Vec<u8>)>,
    error: Option<StorageError>,
    has_view: bool,
    has_iterator: bool,
}

/// A cursor as a mathematical value. `current` is the key and the value it stands at.
#[verifier::ext_equal]
pub struct CursorView {
    pub operation: Operation,
    pub state: CursorState,
    pub direction: Option<CursorDirection>,
    pub current: Option<(Seq<u8>, Seq<u8>)>,
    pub error: Option<ErrorView>,
    pub has_view: bool,
    pub has_iterator: bool,
}

/// What a cursor has to do next.
pub enum CursorStep {
    /// Nothing: the move has ended.
    Settled,
    /// Open an iterator of the view over a range.
    CreateIterator { range: UserKeyRange, direction: CursorDirection },
    /// Take the next entry of the iterator, from its front or from its back.
    ReadEntry(CursorDirection),
}

impl View for DbIterator {
    type V = CursorView;

    closed spec fn view(&self) -> CursorView {
        CursorView {
            operation: self.operation,
            state: self.state,
            direction: self.direction,
            current: match self.current {
                Some(entry) => Some((entry.0@, entry.1@)),
                None => None,
            },
            error: match self.error {
                Some(error) => Some(error@),
                None => None,
            },
            has_view: self.has_view,
            has_iterator: self.has_iterator,
        }
    }
}

impl CursorView {
    /// What holds of every cursor: it keeps an error exactly if it has failed, and then it stands
    /// nowhere; only a valid cursor stands at an entry, and it came there by its iterator.
    pub open spec fn well_formed(self) -> bool {
        &&& self.error is Some == (self.state == CursorState::Failed)
        &&& self.current is Some ==> self.state == CursorState::Valid
        &&& self.current is Some ==> self.direction is Some
        &&& self.direction is Some ==> self.has_iterator
    }

    pub open spec fn valid(self) -> bool {
        self.state == CursorState::Valid && self.current is Some
    }

    /// The key that a valid cursor stands at.
    pub open spec fn key(self) -> Seq<u8> {
        let entry = self.current->0;
        entry.0
    }

    /// The value that a valid cursor stands at.
    pub open spec fn value(self) -> Seq<u8> {
        let entry = self.current->0;
        entry.1
    }

    /// The cursor after a failure. The first failure is final.
    pub open spec fn failed(self, error: ErrorView) -> CursorView {
        if self.state == CursorState::Failed {
            self
        } else {
            CursorView {
                state: CursorState::Failed,
                direction: None,
                current: None,
                error: Some(error),
                has_iterator: false,
                ..self
            }
        }
    }

    /// The cursor behind the last entry.
    pub open spec fn exhausted(self) -> CursorView {
        if self.state == CursorState::Failed {
            self
        } else {
            CursorView {
                state: CursorState::Exhausted,
                direction: None,
                current: None,
                error: None,
                has_iterator: false,
                ..self
            }
        }
    }

    /// The cursor at an entry.
    pub open spec fn at(self, key: Seq<u8>, value: Seq<u8>) -> CursorView {
        CursorView {
            state: CursorState::Valid,
            current: Some((key, value)),
            error: None,
            ..self
        }
    }

    /// The cursor on its way, with an iterator that is read in a direction.
    pub open spec fn moving(self, direction: CursorDirection) -> CursorView {
        CursorView {
            direction: Some(direction),
            current: None,
            has_iterator: true,
            ..self
        }
    }

    /// A new cursor still has the iterator over every key that it was made with.
    pub open spec fn fresh(self) -> bool {
        self.state == CursorState::Unpositioned && self.direction is None && self.has_iterator
    }

    /// A move to the first or the last key has begun.
    pub open spec fn sought_end(
        self,
        after: CursorView,
        step: CursorStep,
        begun: Result<StateSnapshot>,
        direction: CursorDirection,
    ) -> bool {
        if self.state == CursorState::Failed {
            after == self && step is Settled
        } else {
            match begun {
                Err(error) => after == self.failed(error@) && step is Settled,
                Ok(_) => if self.fresh() {
                    after == self.moving(direction) && step == CursorStep::ReadEntry(direction)
                } else if !self.has_view {
                    after == self.exhausted() && step is Settled
                } else {
                    &&& after == self
                    &&& step matches CursorStep::CreateIterator { range, direction: d } && d
                        == direction && forall|key: Seq<u8>| #[trigger] range.contains(key)
                },
            }
        }
    }

    /// A move from the current entry to the next one in a direction has begun.
    pub open spec fn advanced(
        self,
        after: CursorView,
        step: CursorStep,
        begun: Result<StateSnapshot>,
        direction: CursorDirection,
    ) -> bool {
        if self.state != CursorState::Valid {
            after == self && step is Settled
        } else {
            match begun {
                Err(error) => after == self.failed(error@) && step is Settled,
                Ok(_) => match self.current {
                    None => after == self.failed(poisoned_read_view(self.operation))
                        && step is Settled,
                    Some(current) => if self.direction == Some(direction) {
                        after == self.moving(direction) && step == CursorStep::ReadEntry(
                            direction,
                        )
                    } else if !self.has_view {
                        after == self.exhausted() && step is Settled
                    } else {
                        &&& after == CursorView { current: None, ..self }
                        &&& step matches CursorStep::CreateIterator { range, direction: d } && d
                            == direction && forall|key: Seq<u8>| #[trigger]
                            range.contains(key) == lies_behind(current.0, key, direction)
                    },
                },
            }
        }
    }
}

impl CursorView {
    /// The outcome of opening an iterator was taken.
    pub open spec fn opened(
        self,
        after: CursorView,
        step: CursorStep,
        created: Result<()>,
        direction: CursorDirection,
    ) -> bool {
        if self.state == CursorState::Failed {
            after == self && step is Settled
        } else {
            match created {
                Err(error) => after == self.failed(error@) && step is Settled,
                Ok(_) => after == self.moving(direction) && step == CursorStep::ReadEntry(
                    direction,
                ),
            }
        }
    }

    /// The cursor after it took what the iterator gave.
    pub open spec fn given(
        self,
        read: std::result::Result<Option<(Seq<u8>, Seq<u8>)>, ErrorView>,
    ) -> CursorView {
        if self.state == CursorState::Failed {
            self
        } else {
            match read {
                Err(error) => self.failed(error),
                Ok(None) => self.exhausted(),
                Ok(Some(entry)) => if self.direction is None {
                    self.failed(poisoned_read_view(self.operation))
                } else {
                    self.at(entry.0, entry.1)
                },
            }
        }
    }

    /// A move to the first key that is not before a target has begun; `refused` says whether
    /// memory for the target was refused.
    pub open spec fn sought(
        self,
        after: CursorView,
        step: CursorStep,
        begun: Result<StateSnapshot>,
        target: Seq<u8>,
        refused: bool,
    ) -> bool {
        if self.state == CursorState::Failed {
            after == self && step is Settled
        } else {
            match begun {
                Err(error) => after == self.failed(error@) && step is Settled,
                Ok(started) => if target.len() > MAX_KEY_VALUE_SIZE {
                    &&& after == self.failed(
                        invalid_read_view(self.operation, started.instance_state),
                    )
                    &&& step is Settled
                } else if refused {
                    &&& after == self.failed(
                        read_memory_view(self.operation, started.instance_state),
                    )
                    &&& step is Settled
                } else if !self.has_view {
                    after == self.exhausted() && step is Settled
                } else {
                    &&& after == self
                    &&& step matches CursorStep::CreateIterator { range, direction } && direction
                        == CursorDirection::Forward && forall|key: Seq<u8>| #[trigger]
                        range.contains(key) == !byte_order_less(key, target)
                },
            }
        }
    }
}

/// What an iterator gave, over mathematical byte strings.
pub open spec fn entry_view(
    read: Result<Option<(Vec<u8>, Vec<u8>)>>,
) -> std::result::Result<Option<(Seq<u8>, Seq<u8>)>, ErrorView> {
    match read {
        Err(error) => Err(error@),
        Ok(None) => Ok(None),
        Ok(Some(entry)) => Ok(Some((entry.0@, entry.1@))),
    }
}

/// A key lies behind another one, in a direction.
pub open spec fn lies_behind(key: Seq<u8>, other: Seq<u8>, direction: CursorDirection) -> bool {
    match direction {
        CursorDirection::Forward => byte_order_less(key, other),
        CursorDirection::Reverse => byte_order_less(other, key),
    }
}

/// A cursor that stood somewhere has lost the entry.
fn cursor_invariant_error(operation: Operation) -> (error: StorageError)
    ensures
        error@ == poisoned_read_view(operation),
{
    poisoned_read_error(operation)
}

impl DbIterator {
    #[verifier::type_invariant]
    spec fn consistent(&self) -> bool {
        self@.well_formed()
    }

    /// A cursor with an iterator over every key of its view.
    pub fn new(operation: Operation) -> (cursor: Self)
        ensures
            cursor@ == (CursorView {
                operation,
                state: CursorState::Unpositioned,
                direction: None,
                current: None,
                error: None,
                has_view: true,
                has_iterator: true,
            }),
    {
        DbIterator {
            operation,
            state: CursorState::Unpositioned,
            direction: None,
            current: None,
            error: None,
            has_view: true,
            has_iterator: true,
        }
    }

    /// A cursor over nothing.
    pub fn empty(operation: Operation) -> (cursor: Self)
        ensures
            cursor@ == (CursorView {
                operation,
                state: CursorState::Exhausted,
                direction: None,
                current: None,
                error: None,
                has_view: false,
                has_iterator: false,
            }),
    {
        DbIterator {
            operation,
            state: CursorState::Exhausted,
            direction: None,
            current: None,
            error: None,
            has_view: false,
            has_iterator: false,
        }
    }

    pub fn state(&self) -> (state: CursorState)
        ensures
            state == self@.state,
    {
        self.state
    }

    pub fn valid(&self) -> (valid: bool)
        ensures
            valid == self@.valid(),
    {
        self.state == CursorState::Valid && self.current.is_some()
    }

    pub fn key(&self) -> (key: Option<&[u8]>)
        ensures
            match key {
                Some(key) => self@.valid() && key@ == self@.key(),
                None => !self@.valid(),
            },
    {
        if !self.valid() {
            return None;
        }
        match &self.current {
            Some(entry) => Some(entry.0.as_slice()),
            None => None,
        }
    }

    pub fn value(&self) -> (value: Option<&[u8]>)
        ensures
            match value {
                Some(value) => self@.valid() && value@ == self@.value(),
                None => !self@.valid(),
            },
    {
        if !self.valid() {
            return None;
        }
        match &self.current {
            Some(entry) => Some(entry.1.as_slice()),
            None => None,
        }
    }

    /// The error of a cursor that has failed.
    pub fn status(&self) -> (status: std::result::Result<(), &StorageError>)
        ensures
            match status {
                Ok(_) => self@.error is None && self@.state != CursorState::Failed,
                Err(error) => self@.error == Some(error@) && self@.state == CursorState::Failed,
            },
    {
        proof {
            use_type_invariant(self);
        }
        match &self.error {
            Some(error) => Err(error),
            None => Ok(()),
        }
    }

    fn set_failure(&mut self, error: StorageError)
        ensures
            final(self)@ == old(self)@.failed(error@),
    {
        if self.state == CursorState::Failed {
            return;
        }
        *self = DbIterator {
            operation: self.operation,
            state: CursorState::Failed,
            direction: None,
            current: None,
            error: Some(error),
            has_view: self.has_view,
            has_iterator: false,
        };
    }

    /// Takes the cursor behind the last entry. A cursor that has failed stays so.
    pub fn exhaust(&mut self)
        ensures
            final(self)@ == old(self)@.exhausted(),
    {
        if self.state == CursorState::Failed {
            return;
        }
        *self = DbIterator {
            operation: self.operation,
            state: CursorState::Exhausted,
            direction: None,
            current: None,
            error: None,
            has_view: self.has_view,
            has_iterator: false,
        };
    }

    /// The iterator is there: it is read in a direction.
    fn start_moving(&mut self, direction: CursorDirection)
        requires
            old(self)@.state != CursorState::Failed,
        ensures
            final(self)@ == old(self)@.moving(direction),
    {
        proof {
            use_type_invariant(&*self);
        }
        *self = DbIterator {
            operation: self.operation,
            state: self.state,
            direction: Some(direction),
            current: None,
            error: None,
            has_view: self.has_view,
            has_iterator: true,
        };
    }

    fn seek_to_end(&mut self, begun: Result<StateSnapshot>, direction: CursorDirection) -> (step:
        CursorStep)
        ensures
            old(self)@.sought_end(final(self)@, step, begun, direction),
    {
        if self.state == CursorState::Failed {
            return CursorStep::Settled;
        }
        match begun {
            Err(error) => {
                self.set_failure(error);
                return CursorStep::Settled;
            },
            Ok(_) => {},
        }
        if self.state == CursorState::Unpositioned && self.direction.is_none()
            && self.has_iterator {
            self.start_moving(direction);
            return CursorStep::ReadEntry(direction);
        }
        if !self.has_view {
            self.exhaust();
            return CursorStep::Settled;
        }
        CursorStep::CreateIterator { range: UserKeyRange::all(), direction }
    }

    /// Begins a move to the first key. `begun` says whether the read may begin.
    pub fn seek_to_first(&mut self, begun: Result<StateSnapshot>) -> (step: CursorStep)
        ensures
            old(self)@.sought_end(final(self)@, step, begun, CursorDirection::Forward),
    {
        self.seek_to_end(begun, CursorDirection::Forward)
    }

    /// Begins a move to the last key.
    pub fn seek_to_last(&mut self, begun: Result<StateSnapshot>) -> (step: CursorStep)
        ensures
            old(self)@.sought_end(final(self)@, step, begun, CursorDirection::Reverse),
    {
        self.seek_to_end(begun, CursorDirection::Reverse)
    }

    /// Begins a move to the first key that is not before a target. The empty target is before
    /// every key; one that is longer than any key is refused.
    pub fn seek(&mut self, memory: &mut Memory, begun: Result<StateSnapshot>, target: &[u8]) -> (step:
        CursorStep)
        requires
            !old(memory).refused(),
        ensures
            old(self)@.sought(
                final(self)@,
                step,
                begun,
                target@,
                final(memory).refused(),
            ),
            if old(self)@.state != CursorState::Failed && begun is Ok && target@.len()
                <= MAX_KEY_VALUE_SIZE {
                asked(*old(memory), *final(memory), 1, target@.len())
            } else {
                *final(memory) == *old(memory)
            },
    {
        if self.state == CursorState::Failed {
            return CursorStep::Settled;
        }
        let started = match begun {
            Err(error) => {
                self.set_failure(error);
                return CursorStep::Settled;
            },
            Ok(started) => started,
        };
        if target.len() > MAX_KEY_VALUE_SIZE {
            let operation = self.operation;
            self.set_failure(invalid_read_argument(operation, started.instance_state));
            return CursorStep::Settled;
        }
        let start = match memory.copy(target) {
            Some(start) => start,
            None => {
                let operation = self.operation;
                self.set_failure(read_memory_error(operation, started.instance_state));
                return CursorStep::Settled;
            },
        };
        if !self.has_view {
            self.exhaust();
            return CursorStep::Settled;
        }
        CursorStep::CreateIterator {
            range: UserKeyRange::from_inclusive(start),
            direction: CursorDirection::Forward,
        }
    }

    fn advance(&mut self, begun: Result<StateSnapshot>, direction: CursorDirection) -> (step:
        CursorStep)
        ensures
            old(self)@.advanced(final(self)@, step, begun, direction),
    {
        if self.state != CursorState::Valid {
            return CursorStep::Settled;
        }
        match begun {
            Err(error) => {
                self.set_failure(error);
                return CursorStep::Settled;
            },
            Ok(_) => {},
        }
        let same_direction = self.direction == Some(direction);
        let has_view = self.has_view;
        let operation = self.operation;
        let mut taken = DbIterator::empty(operation);
        std::mem::swap(&mut taken, self);
        proof {
            use_type_invariant(&taken);
        }
        let current = taken.current;
        *self = DbIterator {
            operation,
            state: taken.state,
            direction: taken.direction,
            current: None,
            error: taken.error,
            has_view,
            has_iterator: taken.has_iterator,
        };
        match current {
            None => {
                self.set_failure(cursor_invariant_error(operation));
                CursorStep::Settled
            },
            Some((key, _)) => {
                if same_direction {
                    return CursorStep::ReadEntry(direction);
                }
                if !has_view {
                    self.exhaust();
                    return CursorStep::Settled;
                }
                let range = match direction {
                    CursorDirection::Forward => UserKeyRange::after(key),
                    CursorDirection::Reverse => UserKeyRange::before(key),
                };
                CursorStep::CreateIterator { range, direction }
            },
        }
    }

    /// Begins a move to the next key. A cursor that stands nowhere stays there.
    pub fn next(&mut self, begun: Result<StateSnapshot>) -> (step: CursorStep)
        ensures
            old(self)@.advanced(final(self)@, step, begun, CursorDirection::Forward),
    {
        self.advance(begun, CursorDirection::Forward)
    }

    /// Begins a move to the key before.
    pub fn prev(&mut self, begun: Result<StateSnapshot>) -> (step: CursorStep)
        ensures
            old(self)@.advanced(final(self)@, step, begun, CursorDirection::Reverse),
    {
        self.advance(begun, CursorDirection::Reverse)
    }

    /// Takes the outcome of opening an iterator.
    pub fn iterator_created(&mut self, created: Result<()>, direction: CursorDirection) -> (step:
        CursorStep)
        ensures
            old(self)@.opened(final(self)@, step, created, direction),
    {
        if self.state == CursorState::Failed {
            return CursorStep::Settled;
        }
        match created {
            Err(error) => {
                self.set_failure(error);
                CursorStep::Settled
            },
            Ok(_) => {
                self.start_moving(direction);
                CursorStep::ReadEntry(direction)
            },
        }
    }

    /// Takes the entry that the iterator gave, with its value, and so ends the move.
    pub fn entry_read(&mut self, read: Result<Option<(Vec<u8>, Vec<u8>)>>)
        ensures
            final(self)@ == old(self)@.given(entry_view(read)),
    {
        if self.state == CursorState::Failed {
            return;
        }
        match read {
            Err(error) => self.set_failure(error),
            Ok(None) => self.exhaust(),
            Ok(Some(entry)) => {
                if self.direction.is_none() {
                    let operation = self.operation;
                    self.set_failure(cursor_invariant_error(operation));
                    return;
                }
                proof {
                    use_type_invariant(&*self);
                }
                *self = DbIterator {
                    operation: self.operation,
                    state: CursorState::Valid,
                    direction: self.direction,
                    current: Some(entry),
                    error: None,
                    has_view: self.has_view,
                    has_iterator: self.has_iterator,
                };
            },
        }
    }
}

/// A range of keys: from `start` on, and before `end`. Where a bound is missing, the range goes
/// on to that side.
#[derive(Clone, Copy, Debug)]
pub struct KeyRange<'a> {
    pub start: Option<&'a [u8]>,
    pub end: Option<&'a [u8]>,
}

/// A cursor that only goes forward, ends before a key, and gives no more than so many entries.
pub struct RangeCursor {
    inner: DbIterator,
    end: Option<Vec<u8>>,
    remaining: usize,
}

/// A range cursor as a mathematical value.
#[verifier::ext_equal]
pub struct RangeCursorView {
    pub inner: CursorView,
    pub end: Option<Seq<u8>>,
    pub remaining: nat,
}

impl View for RangeCursor {
    type V = RangeCursorView;

    closed spec fn view(&self) -> RangeCursorView {
        RangeCursorView {
            inner: self.inner@,
            end: match self.end {
                Some(end) => Some(end@),
                None => None,
            },
            remaining: self.remaining as nat,
        }
    }
}

impl RangeCursorView {
    pub open spec fn valid(self) -> bool {
        self.remaining > 0 && self.inner.valid()
    }

    /// The cursor stands at a key that is not before the end, or may give no further entry.
    pub open spec fn beyond(self) -> bool {
        ||| self.remaining == 0
        ||| (self.end matches Some(end) && self.inner.valid() && !byte_order_less(
            self.inner.key(),
            end,
        ))
    }

    /// The cursor, stopped where it has gone too far.
    pub open spec fn bounded(self) -> RangeCursorView {
        if self.beyond() {
            RangeCursorView { inner: self.inner.exhausted(), ..self }
        } else {
            self
        }
    }
}

impl RangeCursorView {
    /// A move to the next entry has begun: the entry that it leaves is counted.
    pub open spec fn advanced(
        self,
        after: RangeCursorView,
        step: CursorStep,
        begun: Result<StateSnapshot>,
    ) -> bool {
        if !self.valid() {
            after == self && step is Settled
        } else {
            &&& after.end == self.end
            &&& after.remaining == self.remaining - 1
            &&& if self.remaining == 1 {
                after.inner == self.inner.exhausted() && step is Settled
            } else {
                self.inner.advanced(after.inner, step, begun, CursorDirection::Forward)
            }
        }
    }

    /// The cursor after it took what the iterator gave.
    pub open spec fn given(
        self,
        read: std::result::Result<Option<(Seq<u8>, Seq<u8>)>, ErrorView>,
    ) -> RangeCursorView {
        RangeCursorView { inner: self.inner.given(read), ..self }.bounded()
    }
}

impl RangeCursor {
    /// A cursor that gives at most `remaining` entries, the one that `inner` stands at first.
    pub fn new(inner: DbIterator, end: Option<Vec<u8>>, remaining: usize) -> (cursor: Self)
        ensures
            cursor@ == (RangeCursorView {
                inner: inner@,
                end: match end {
                    Some(end) => Some(end@),
                    None => None,
                },
                remaining: remaining as nat,
            }).bounded(),
    {
        let mut cursor = RangeCursor { inner, end, remaining };
        cursor.enforce_boundary();
        cursor
    }

    pub fn valid(&self) -> (valid: bool)
        ensures
            valid == self@.valid(),
    {
        self.remaining > 0 && self.inner.valid()
    }

    pub fn key(&self) -> (key: Option<&[u8]>)
        ensures
            match key {
                Some(key) => self@.valid() && key@ == self@.inner.key(),
                None => !self@.valid(),
            },
    {
        if self.remaining > 0 {
            self.inner.key()
        } else {
            None
        }
    }

    pub fn value(&self) -> (value: Option<&[u8]>)
        ensures
            match value {
                Some(value) => self@.valid() && value@ == self@.inner.value(),
                None => !self@.valid(),
            },
    {
        if self.remaining > 0 {
            self.inner.value()
        } else {
            None
        }
    }

    pub fn status(&self) -> (status: std::result::Result<(), &StorageError>)
        ensures
            match status {
                Ok(_) => self@.inner.error is None && self@.inner.state != CursorState::Failed,
                Err(error) => self@.inner.error == Some(error@) && self@.inner.state
                    == CursorState::Failed,
            },
    {
        self.inner.status()
    }

    fn enforce_boundary(&mut self)
        ensures
            final(self)@ == old(self)@.bounded(),
    {
        if self.remaining == 0 {
            self.inner.exhaust();
            return;
        }
        let beyond = match (self.inner.key(), &self.end) {
            (Some(key), Some(end)) => !bytes_less(key, end.as_slice()),
            _ => false,
        };
        if beyond {
            self.inner.exhaust();
        }
    }

    /// Begins a move to the next entry, and counts the one that it leaves.
    pub fn next(&mut self, begun: Result<StateSnapshot>) -> (step: CursorStep)
        ensures
            old(self)@.advanced(final(self)@, step, begun),
    {
        if !self.valid() {
            return CursorStep::Settled;
        }
        self.remaining = self.remaining - 1;
        if self.remaining == 0 {
            self.inner.exhaust();
            return CursorStep::Settled;
        }
        self.inner.next(begun)
    }

    /// Takes the entry that the iterator gave, and stops where it is not before the end.
    pub fn entry_read(&mut self, read: Result<Option<(Vec<u8>, Vec<u8>)>>)
        ensures
            final(self)@ == old(self)@.given(entry_view(read)),
    {
        self.inner.entry_read(read);
        self.enforce_boundary();
    }
}

/// A cursor that has failed stays failed, with its first error, whatever it is asked; one that is
/// exhausted can be moved again.
pub proof fn law_failure_is_final(
    cursor: CursorView,
    after: CursorView,
    step: CursorStep,
    begun: Result<StateSnapshot>,
    direction: CursorDirection,
    error: ErrorView,
)
    requires
        cursor.well_formed(),
    ensures
        cursor.state == CursorState::Failed ==> {
            &&& cursor.failed(error) == cursor
            &&& cursor.exhausted() == cursor
            &&& cursor.sought_end(after, step, begun, direction) ==> after == cursor
            &&& cursor.advanced(after, step, begun, direction) ==> after == cursor
            &&& !cursor.valid()
        },
        cursor.state == CursorState::Exhausted && cursor.has_view && begun is Ok
            && cursor.sought_end(after, step, begun, direction) ==> step is CreateIterator
            || step is ReadEntry,
{
}

/// A range cursor that stands at an entry is before its end and may still give an entry, and
/// stopping it changes nothing else.
pub proof fn law_range_cursor_keeps_its_bounds(
    cursor: RangeCursorView,
    inner: CursorView,
)
    requires
        inner.well_formed(),
    ensures
        ({
            let stopped = (RangeCursorView { inner, ..cursor }).bounded();
            &&& stopped.valid() ==> stopped.remaining > 0 && (stopped.end matches Some(end)
                ==> byte_order_less(stopped.inner.key(), end))
            &&& stopped.remaining == cursor.remaining
            &&& stopped.valid() ==> stopped.inner == inner
        }),
{
}

/// A range cursor after a move for which the iterator gave an entry, or had none left.
pub open spec fn moved_on(
    cursor: RangeCursorView,
    given: Option<(Seq<u8>, Seq<u8>)>,
) -> RangeCursorView {
    let remaining = (cursor.remaining - 1) as nat;
    if !cursor.valid() {
        cursor
    } else if remaining == 0 {
        RangeCursorView { inner: cursor.inner.exhausted(), remaining, ..cursor }
    } else {
        let moving = cursor.inner.moving(CursorDirection::Forward);
        let inner = match given {
            Some(entry) => moving.at(entry.0, entry.1),
            None => moving.exhausted(),
        };
        RangeCursorView { inner, remaining, ..cursor }.bounded()
    }
}

/// What a range cursor shows, from where it stands until it stands nowhere, while its iterator
/// gives some entries.
pub open spec fn shown(
    cursor: RangeCursorView,
    entries: Seq<(Seq<u8>, Seq<u8>)>,
) -> Seq<(Seq<u8>, Seq<u8>)>
    decreases entries.len(),
{
    let here = seq![(cursor.inner.key(), cursor.inner.value())];
    if !cursor.valid() {
        Seq::empty()
    } else if entries.len() == 0 {
        here
    } else {
        here + shown(moved_on(cursor, Some(entries[0])), entries.drop_first())
    }
}

/// A query shows the entries of its range in their order, each once, up to its limit and no
/// further; and a move behind the last one leaves it nowhere, without an error.
pub proof fn law_range_shows_first_entries(
    cursor: RangeCursorView,
    entries: Seq<(Seq<u8>, Seq<u8>)>,
)
    requires
        cursor.inner.well_formed(),
        cursor.valid(),
        cursor.end matches Some(end) ==> forall|i: int|
            0 <= i < entries.len() ==> byte_order_less((#[trigger] entries[i]).0, end),
    ensures
        ({
            let all = seq![(cursor.inner.key(), cursor.inner.value())] + entries;
            let behind = moved_on(cursor, None);
            &&& shown(cursor, entries) == all.take(
                if cursor.remaining < all.len() {
                    cursor.remaining as int
                } else {
                    all.len() as int
                },
            )
            &&& !behind.valid() && behind.inner.error is None
        }),
    decreases entries.len(),
{
    let here = seq![(cursor.inner.key(), cursor.inner.value())];
    let all = here + entries;
    if entries.len() == 0 {
        assert(all.take(1) =~= here);
    } else {
        let next = moved_on(cursor, Some(entries[0]));
        let rest = entries.drop_first();
        if cursor.remaining == 1 {
            assert(shown(next, rest) =~= Seq::empty());
            assert(all.take(1) =~= here);
        } else {
            assert(next.inner.key() == entries[0].0 && next.inner.value() == entries[0].1);
            assert(seq![entries[0]] + rest =~= entries);
            law_range_shows_first_entries(next, rest);
            let count = if cursor.remaining < all.len() {
                cursor.remaining as int
            } else {
                all.len() as int
            };
            assert(all.take(count) =~= here + entries.take(count - 1));
        }
    }
}

/// Keys in their order, each once.
pub open spec fn ordered(keys: Seq<Seq<u8>>) -> bool {
    forall|i: int, j: int|
        0 <= i < j < keys.len() ==> #[trigger] byte_order_less(keys[i], keys[j])
}

/// The place of the entry that an iterator over the keys behind one gives first, in a direction:
/// nothing lies between.
pub open spec fn neighbour(
    keys: Seq<Seq<u8>>,
    from: Seq<u8>,
    direction: CursorDirection,
    at: int,
) -> bool {
    &&& 0 <= at < keys.len()
    &&& lies_behind(from, keys[at], direction)
    &&& forall|k: int|
        0 <= k < keys.len() && #[trigger] lies_behind(from, keys[k], direction) ==> match direction {
            CursorDirection::Forward => at <= k,
            CursorDirection::Reverse => k <= at,
        }
}

/// A move forward goes from each key to the one behind it, and a move back from there returns.
pub proof fn law_moves_are_inverse(keys: Seq<Seq<u8>>, i: int, at: int)
    requires
        ordered(keys),
        0 <= i < keys.len(),
    ensures
        neighbour(keys, keys[i], CursorDirection::Forward, at) == (at == i + 1 && at < keys.len()),
        neighbour(keys, keys[i], CursorDirection::Reverse, at) == (at == i - 1 && at >= 0),
{
    assert forall|k: int| 0 <= k < keys.len() implies #[trigger] lies_behind(
        keys[i],
        keys[k],
        CursorDirection::Forward,
    ) == (k > i) && lies_behind(keys[i], keys[k], CursorDirection::Reverse) == (k < i) by {
        lemma_byte_order_total(keys[i], keys[k]);
        if k > i {
            assert(byte_order_less(keys[i], keys[k]));
        } else if k < i {
            assert(byte_order_less(keys[k], keys[i]));
        }
    }
    if i + 1 < keys.len() {
        assert(lies_behind(keys[i], keys[i + 1], CursorDirection::Forward));
    }
    if i >= 1 {
        assert(lies_behind(keys[i], keys[i - 1], CursorDirection::Forward) == false);
        assert(lies_behind(keys[i], keys[i - 1], CursorDirection::Reverse));
    }
    assert forall|k: int| 0 <= k < keys.len() implies #[trigger] lies_behind(
        keys[i],
        keys[k],
        CursorDirection::Reverse,
    ) == (k < i) by {
        assert(lies_behind(keys[i], keys[k], CursorDirection::Forward) == (k > i));
    }
}

} // verus!
