//! A map from file numbers, in the order of the numbers.

use std::collections::BTreeMap;

use vstd::prelude::*;
use vstd::std_specs::cmp::OrdSpec;
use vstd::std_specs::iter::IteratorSpec;

verus! {

/// What is known of some files, in the order of their numbers.
#[derive(Debug)]
pub struct FileMap<V: Copy> {
    files: BTreeMap<u32, V>,
}

impl<V: Copy> View for FileMap<V> {
    type V = Map<u32, V>;

    closed spec fn view(&self) -> Map<u32, V> {
        self.files@
    }
}

impl<V: Copy> FileMap<V> {
    pub fn new() -> (files: Self)
        ensures
            files@ == Map::<u32, V>::empty(),
    {
        FileMap { files: BTreeMap::new() }
    }

    /// What is known of a file.
    pub fn get(&self, file_id: u32) -> (known: Option<V>)
        ensures
            match known {
                Some(value) => self@.dom().contains(file_id) && self@[file_id] == value,
                None => !self@.dom().contains(file_id),
            },
    {
        match self.files.get(&file_id) {
            Some(value) => Some(*value),
            None => None,
        }
    }

    pub fn is_empty(&self) -> (empty: bool)
        ensures
            empty == (self@ == Map::<u32, V>::empty()),
    {
        proof {
            if self@.is_empty() {
                assert(self@ =~= Map::<u32, V>::empty());
            }
        }
        self.files.is_empty()
    }

    /// Sets what is known of a file.
    pub fn insert(&mut self, file_id: u32, value: V)
        ensures
            final(self)@ == old(self)@.insert(file_id, value),
    {
        self.files.insert(file_id, value);
    }

    /// Forgets a file.
    pub fn remove(&mut self, file_id: u32)
        ensures
            final(self)@ == old(self)@.remove(file_id),
    {
        self.files.remove(&file_id);
    }

    /// The numbers of the known files, in increasing order.
    pub fn file_ids(&self) -> (file_ids: Vec<u32>)
        ensures
            increasing(file_ids@),
            forall|file_id: u32| file_ids@.contains(file_id) == self@.dom().contains(file_id),
    {
        broadcast use vstd::laws_cmp::group_laws_cmp;

        let mut file_ids: Vec<u32> = Vec::new();
        for entry in known: self.files.iter()
            invariant
                known.seq() == self.files.iter().remaining(),
                file_ids@.len() == known.index(),
                forall|k: int|
                    0 <= k < known.index() ==> #[trigger] file_ids@[k] == *known.seq()[k].0,
        {
            file_ids.push(*entry.0);
        }
        proof {
            let items = self.files.iter().remaining();
            assert(file_ids@ =~= items.map_values(|item: (&u32, &V)| *item.0));
            assert(vstd::std_specs::btree::increasing_seq(file_ids@));
            assert forall|i: int, j: int| 0 <= i < j < file_ids@.len() implies (
            #[trigger] file_ids@[i]) < (#[trigger] file_ids@[j]) by {
                assert(file_ids@[i].cmp_spec(&file_ids@[j]) is Less);
            }
            assert forall|file_id: u32|
                file_ids@.contains(file_id) == self@.dom().contains(file_id) by {
                if file_ids@.contains(file_id) {
                    let k = choose|k: int| 0 <= k < file_ids@.len() && file_ids@[k] == file_id;
                    assert(self.files@.contains_key(*items[k].0));
                }
                if self@.dom().contains(file_id) {
                    assert(self.files@.contains_key(file_id));
                    let item = (&file_id, &self.files@[file_id]);
                    assert(items.contains(item));
                    let k = choose|k: int| 0 <= k < items.len() && items[k] == item;
                    assert(file_ids@[k] == file_id);
                }
            }
        }
        file_ids
    }
}

/// File numbers in increasing order, each once.
pub open spec fn increasing(file_ids: Seq<u32>) -> bool {
    forall|i: int, j: int|
        0 <= i < j < file_ids.len() ==> (#[trigger] file_ids[i]) < (#[trigger] file_ids[j])
}

} // verus!
