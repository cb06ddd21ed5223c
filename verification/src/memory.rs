//! Fallible reservation of memory.

use vstd::prelude::*;

use crate::bytes::append_bytes;

verus! {

/// Calls `Vec::try_reserve_exact` and says whether the memory was granted. The elements stay
/// as they are. Room for no further element is there already, and room for more elements than
/// a `Vec` can count is not to be had. Otherwise it is for the machine to grant memory or not,
/// and nothing is said of it, nor of how much room there is.
#[verifier::external_body]
fn try_reserve_exact<T>(items: &mut Vec<T>, additional: usize) -> (granted: bool)
    ensures
        final(items)@ == old(items)@,
        additional == 0 ==> granted,
        old(items)@.len() + additional > usize::MAX ==> !granted,
{
    items.try_reserve_exact(additional).is_ok()
}

/// Calls `Vec::try_reserve` and says whether the memory was granted. The elements stay as they
/// are. Room for no further element is there already, and room for more elements than a `Vec`
/// can count is not to be had. Otherwise it is for the machine to grant memory or not, and
/// nothing is said of it, nor of how much room there is.
#[verifier::external_body]
fn try_reserve<T>(items: &mut Vec<T>, additional: usize) -> (granted: bool)
    ensures
        final(items)@ == old(items)@,
        additional == 0 ==> granted,
        old(items)@.len() + additional > usize::MAX ==> !granted,
{
    items.try_reserve(additional).is_ok()
}

/// The source of memory for one request. It remembers whether a reservation was refused. A
/// caller can fix the answers beforehand, in place of those of the machine, and so rehearse the
/// loss of memory at any point.
pub struct Memory {
    refused: bool,
    rehearsing: bool,
    refuse_at: Option<usize>,
    wanted: Ghost<nat>,
}

/// How many reservations come before the one that is refused, once some more were made.
pub open spec fn fewer(before: Option<nat>, times: nat) -> Option<nat> {
    if before is Some && before->0 >= times {
        Some((before->0 - times) as nat)
    } else {
        None
    }
}

/// What a step that reserves memory does to it: it makes so many reservations, each for a list
/// of no more than so many elements. A refusal that is due among them is seen. Any other refusal
/// is of a list that was to have room for some elements and for no more than so many: it is one
/// of the machine, or of a list that no machine could hold. A step that sees a refusal makes no
/// further reservation.
pub open spec fn asked(before: Memory, after: Memory, times: nat, most: nat) -> bool {
    !before.refused() ==> {
        &&& before.due_within(times) ==> after.refused()
        &&& after.refused() ==> before.due_within(times) || before.can_refuse(after.wanted(), most)
        &&& !after.refused() ==> after.rehearsed() == fewer(before.rehearsed(), times)
        &&& after.rehearsing() == before.rehearsing()
    }
}

/// What a step that may stop early does to memory: it makes no more than so many reservations,
/// each for a list of no more than so many elements.
pub open spec fn asked_within(before: Memory, after: Memory, times: nat, most: nat) -> bool {
    !before.refused() ==> {
        &&& after.refused() ==> before.due_within(times) || before.can_refuse(after.wanted(), most)
        &&& after.rehearsing() == before.rehearsing()
    }
}

impl Memory {
    /// Whether a reservation was refused so far.
    pub closed spec fn refused(&self) -> bool {
        self.refused
    }

    /// Whether the answers are fixed beforehand, so that the machine is not asked.
    pub closed spec fn rehearsing(&self) -> bool {
        self.rehearsing
    }

    /// How many reservations come before the one that is to be refused; `None` where no such
    /// refusal is due.
    pub closed spec fn rehearsed(&self) -> Option<nat> {
        match self.refuse_at {
            Some(at) => Some(at as nat),
            None => None,
        }
    }

    /// How many elements a list was to have room for when it was last refused although no refusal
    /// was due; 0 where nothing was refused so.
    pub closed spec fn wanted(&self) -> nat {
        self.wanted@
    }

    /// A refusal is due among the next reservations.
    pub open spec fn due_within(&self, times: nat) -> bool {
        self.rehearsed() is Some && self.rehearsed()->0 < times
    }

    /// A list that is to have room for so many elements, and for no more than `most`, can be
    /// refused although no refusal is due: by the machine, or where there are too many of them
    /// to be counted.
    pub open spec fn can_refuse(&self, wanted: nat, most: nat) -> bool {
        0 < wanted <= most && (self.rehearsing() ==> wanted > usize::MAX)
    }

    /// Memory as the machine grants it.
    pub fn new() -> (memory: Self)
        ensures
            !memory.refused(),
            !memory.rehearsing(),
            memory.rehearsed() is None,
            memory.wanted() == 0,
    {
        Memory { refused: false, rehearsing: false, refuse_at: None, wanted: Ghost(0) }
    }

    /// Memory whose answers are fixed beforehand: one reservation, counted from 0, is refused,
    /// or none is, and the others are granted.
    pub fn rehearsal(refuse_at: Option<usize>) -> (memory: Self)
        ensures
            !memory.refused(),
            memory.rehearsing(),
            memory.rehearsed() == (match refuse_at {
                Some(at) => Some(at as nat),
                None => None,
            }),
            memory.wanted() == 0,
    {
        Memory { refused: false, rehearsing: true, refuse_at, wanted: Ghost(0) }
    }

    pub fn is_refused(&self) -> (refused: bool)
        ensures
            refused == self.refused(),
    {
        self.refused
    }

    /// Counts a reservation and says whether it is the one to be refused.
    fn is_next_refused(&mut self) -> (refuse: bool)
        ensures
            final(self).refused() == old(self).refused(),
            final(self).rehearsing() == old(self).rehearsing(),
            final(self).wanted() == old(self).wanted(),
            final(self).rehearsed() == fewer(old(self).rehearsed(), 1),
            refuse == old(self).due_within(1),
    {
        match self.refuse_at {
            None => false,
            Some(at) => {
                if at == 0 {
                    self.refuse_at = None;
                    true
                } else {
                    self.refuse_at = Some(at - 1);
                    false
                }
            },
        }
    }

    /// What a reservation for a list of `length` elements, `additional` of them new, does.
    pub open spec fn reserved_once(
        before: Memory,
        after: Memory,
        granted: bool,
        length: nat,
        additional: nat,
    ) -> bool {
        &&& after.refused() == (before.refused() || !granted)
        &&& after.rehearsing() == before.rehearsing()
        &&& before.rehearsing() ==> granted == (!before.due_within(1) && length <= usize::MAX)
        &&& after.rehearsed() == fewer(before.rehearsed(), 1)
        &&& before.due_within(1) ==> !granted
        &&& length > usize::MAX ==> !granted
        &&& additional == 0 && !before.due_within(1) ==> granted
        &&& after.wanted() == (if granted || before.due_within(1) {
            before.wanted()
        } else {
            length
        })
    }

    /// Reserves room for exactly so many further elements.
    pub fn reserve_exact<T>(&mut self, items: &mut Vec<T>, additional: usize) -> (granted: bool)
        ensures
            final(items)@ == old(items)@,
            Memory::reserved_once(
                *old(self),
                *final(self),
                granted,
                old(items)@.len() + additional as nat,
                additional as nat,
            ),
            asked(*old(self), *final(self), 1, old(items)@.len() + additional as nat),
    {
        if self.is_next_refused() {
            self.refused = true;
            return false;
        }
        let granted = if self.rehearsing {
            additional <= usize::MAX - items.len()
        } else {
            try_reserve_exact(items, additional)
        };
        if !granted {
            self.refused = true;
            self.wanted = Ghost((items@.len() + additional) as nat);
        }
        granted
    }

    /// Reserves room for so many further elements.
    pub fn reserve<T>(&mut self, items: &mut Vec<T>, additional: usize) -> (granted: bool)
        ensures
            final(items)@ == old(items)@,
            Memory::reserved_once(
                *old(self),
                *final(self),
                granted,
                old(items)@.len() + additional as nat,
                additional as nat,
            ),
            asked(*old(self), *final(self), 1, old(items)@.len() + additional as nat),
    {
        if self.is_next_refused() {
            self.refused = true;
            return false;
        }
        let granted = if self.rehearsing {
            additional <= usize::MAX - items.len()
        } else {
            try_reserve(items, additional)
        };
        if !granted {
            self.refused = true;
            self.wanted = Ghost((items@.len() + additional) as nat);
        }
        granted
    }

    /// An owned copy of a byte string, or `None` where no memory was granted for it.
    pub fn copy(&mut self, bytes: &[u8]) -> (copy: Option<Vec<u8>>)
        ensures
            Memory::reserved_once(
                *old(self),
                *final(self),
                copy is Some,
                bytes@.len(),
                bytes@.len(),
            ),
            asked(*old(self), *final(self), 1, bytes@.len()),
            copy matches Some(owned) ==> owned@ == bytes@,
    {
        let mut owned: Vec<u8> = Vec::new();
        if !self.reserve_exact(&mut owned, bytes.len()) {
            return None;
        }
        append_bytes(&mut owned, bytes);
        proof {
            assert(owned@ =~= bytes@);
        }
        Some(owned)
    }
}

} // verus!
