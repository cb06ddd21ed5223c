//! A map from keys to slots, kept in key order.

use vstd::prelude::*;

use crate::bytes::{
    byte_order_less, bytes_less, lemma_byte_order_total, lemma_byte_order_transitive, same_bytes,
};
use crate::memory::{asked, Memory};

verus! {

/// Borrowed keys in strictly increasing byte order, each with a number.
pub struct KeyIndex<'a> {
    keys: Vec<&'a [u8]>,
    slots: Vec<usize>,
}

impl<'a> View for KeyIndex<'a> {
    type V = Map<Seq<u8>, usize>;

    closed spec fn view(&self) -> Map<Seq<u8>, usize> {
        Map::new(
            |key: Seq<u8>| exists|i: int| self.holds(i, key),
            |key: Seq<u8>| self.slots@[choose|i: int| self.holds(i, key)],
        )
    }
}

impl<'a> KeyIndex<'a> {
    spec fn holds(&self, i: int, key: Seq<u8>) -> bool {
        0 <= i < self.keys@.len() && self.keys@[i]@ == key
    }

    #[verifier::type_invariant]
    spec fn well_formed(&self) -> bool {
        &&& self.keys@.len() == self.slots@.len()
        &&& forall|i: int, j: int|
            0 <= i < j < self.keys@.len() ==> byte_order_less(
                (#[trigger] self.keys@[i])@,
                (#[trigger] self.keys@[j])@,
            )
    }

    /// A key stands in one place only.
    proof fn lemma_one_place(&self, i: int, j: int, key: Seq<u8>)
        requires
            self.well_formed(),
            self.holds(i, key),
            self.holds(j, key),
        ensures
            i == j,
    {
        lemma_byte_order_total(key, key);
    }

    fn new() -> (index: Self)
        ensures
            index@ == Map::<Seq<u8>, usize>::empty(),
    {
        let index = KeyIndex { keys: Vec::new(), slots: Vec::new() };
        proof {
            assert(index@ =~= Map::<Seq<u8>, usize>::empty());
        }
        index
    }

    /// An empty index with room for so many keys, or `None` where no memory was granted. The room
    /// takes two reservations, one for the keys and one for the numbers; where the first is
    /// refused, the second is not made.
    pub fn reserved(memory: &mut Memory, count: usize) -> (index: Option<Self>)
        ensures
            final(memory).refused() == (old(memory).refused() || index is None),
            index matches Some(made) ==> made@ == Map::<Seq<u8>, usize>::empty(),
            asked(*old(memory), *final(memory), 2, count as nat),
            count == 0 && !old(memory).due_within(2) ==> index is Some,
    {
        let mut keys: Vec<&'a [u8]> = Vec::new();
        let mut slots: Vec<usize> = Vec::new();
        if !memory.reserve(&mut keys, count) || !memory.reserve(&mut slots, count) {
            return None;
        }
        let index = KeyIndex { keys, slots };
        proof {
            assert(index@ =~= Map::<Seq<u8>, usize>::empty());
        }
        Some(index)
    }

    /// The number of keys.
    pub fn len(&self) -> (count: usize)
        ensures
            count == self@.dom().len(),
            self@.dom().finite(),
    {
        proof {
            use_type_invariant(self);
            let names = Seq::new(self.keys@.len(), |i: int| self.keys@[i]@);
            assert forall|i: int, j: int|
                0 <= i < names.len() && 0 <= j < names.len() && i != j implies names[i]
                != names[j] by {
                if names[i] == names[j] {
                    self.lemma_one_place(i, j, names[i]);
                }
            }
            names.unique_seq_to_set();
            assert(names.to_set() =~= self@.dom()) by {
                assert forall|key: Seq<u8>| names.to_set().contains(key) == self@.dom().contains(
                    key,
                ) by {
                    if names.contains(key) {
                        let i = choose|i: int| 0 <= i < names.len() && names[i] == key;
                        assert(self.holds(i, key));
                    }
                    if self@.dom().contains(key) {
                        let i = choose|i: int| self.holds(i, key);
                        assert(names[i] == key);
                    }
                }
            }
        }
        self.keys.len()
    }

    /// The place of a key, or the place where it would go.
    fn search(&self, key: &[u8]) -> (place: (bool, usize))
        ensures
            place.0 ==> self.holds(place.1 as int, key@),
            !place.0 ==> {
                &&& place.1 <= self.keys@.len()
                &&& forall|j: int|
                    0 <= j < place.1 ==> byte_order_less((#[trigger] self.keys@[j])@, key@)
                &&& forall|j: int|
                    place.1 <= j < self.keys@.len() ==> byte_order_less(
                        key@,
                        (#[trigger] self.keys@[j])@,
                    )
            },
    {
        proof {
            use_type_invariant(self);
        }
        let mut low: usize = 0;
        let mut high: usize = self.keys.len();
        while low < high
            invariant
                self.well_formed(),
                low <= high <= self.keys@.len(),
                forall|j: int|
                    0 <= j < low ==> byte_order_less((#[trigger] self.keys@[j])@, key@),
                forall|j: int|
                    high <= j < self.keys@.len() ==> byte_order_less(
                        key@,
                        (#[trigger] self.keys@[j])@,
                    ),
            decreases high - low,
        {
            let middle: usize = low + (high - low) / 2;
            if same_bytes(self.keys[middle], key) {
                return (true, middle);
            }
            if bytes_less(self.keys[middle], key) {
                proof {
                    assert forall|j: int| 0 <= j < middle + 1 implies byte_order_less(
                        (#[trigger] self.keys@[j])@,
                        key@,
                    ) by {
                        if j < middle {
                            lemma_byte_order_transitive(
                                self.keys@[j]@,
                                self.keys@[middle as int]@,
                                key@,
                            );
                        }
                    }
                }
                low = middle + 1;
            } else {
                proof {
                    lemma_byte_order_total(self.keys@[middle as int]@, key@);
                    assert forall|j: int| middle <= j < self.keys@.len() implies byte_order_less(
                        key@,
                        (#[trigger] self.keys@[j])@,
                    ) by {
                        if middle < j {
                            lemma_byte_order_transitive(
                                key@,
                                self.keys@[middle as int]@,
                                self.keys@[j]@,
                            );
                        }
                    }
                }
                high = middle;
            }
        }
        (false, low)
    }

    /// The slot of a key.
    pub fn get(&self, key: &[u8]) -> (slot: Option<usize>)
        ensures
            match slot {
                Some(slot) => self@.dom().contains(key@) && self@[key@] == slot,
                None => !self@.dom().contains(key@),
            },
    {
        proof {
            use_type_invariant(self);
        }
        let (found, place) = self.search(key);
        if found {
            proof {
                let i = choose|i: int| self.holds(i, key@);
                self.lemma_one_place(i, place as int, key@);
            }
            Some(self.slots[place])
        } else {
            proof {
                if self@.dom().contains(key@) {
                    let i = choose|i: int| self.holds(i, key@);
                    lemma_byte_order_total(self.keys@[i]@, key@);
                }
            }
            None
        }
    }

    /// Gives a key a slot, unless it has one.
    pub fn insert(&mut self, key: &'a [u8], slot: usize) -> (inserted: bool)
        ensures
            inserted == !old(self)@.dom().contains(key@),
            final(self)@ == (if inserted {
                old(self)@.insert(key@, slot)
            } else {
                old(self)@
            }),
    {
        proof {
            use_type_invariant(&*self);
        }
        let (found, place) = self.search(key);
        if found {
            return false;
        }
        let ghost before = *self;
        proof {
            if self@.dom().contains(key@) {
                let i = choose|i: int| self.holds(i, key@);
                lemma_byte_order_total(self.keys@[i]@, key@);
            }
        }
        let mut taken: KeyIndex<'a> = KeyIndex::new();
        std::mem::swap(&mut taken, self);
        let mut keys: Vec<&'a [u8]> = taken.keys;
        let mut slots: Vec<usize> = taken.slots;
        keys.insert(place, key);
        slots.insert(place, slot);
        *self = KeyIndex { keys, slots };
        proof {
            let p = place as int;
            assert forall|k: Seq<u8>| #[trigger] self@.dom().contains(k) == before@.insert(
                key@,
                slot,
            ).dom().contains(k) by {
                if self@.dom().contains(k) {
                    let i = choose|i: int| self.holds(i, k);
                    if i < p {
                        assert(before.holds(i, k));
                    } else if i > p {
                        assert(before.holds(i - 1, k));
                    }
                }
                if k == key@ {
                    assert(self.holds(p, k));
                } else if before@.dom().contains(k) {
                    let i = choose|i: int| before.holds(i, k);
                    if i < p {
                        assert(self.holds(i, k));
                    } else {
                        assert(self.holds(i + 1, k));
                    }
                }
            }
            assert forall|k: Seq<u8>| #[trigger] self@.dom().contains(k) implies self@[k]
                == before@.insert(key@, slot)[k] by {
                let i = choose|i: int| self.holds(i, k);
                if k == key@ {
                    assert(self.holds(p, k));
                    self.lemma_one_place(i, p, k);
                } else {
                    let j = choose|j: int| before.holds(j, k);
                    assert(before@.dom().contains(k));
                    if j < p {
                        assert(self.holds(j, k));
                        self.lemma_one_place(i, j, k);
                    } else {
                        assert(self.holds(j + 1, k));
                        self.lemma_one_place(i, j + 1, k);
                    }
                }
            }
            assert(self@ =~= before@.insert(key@, slot));
        }
        true
    }
}

} // verus!
