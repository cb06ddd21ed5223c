//! Consistent views of a database.

use vstd::prelude::*;

verus! {

/// A view of one instance, as it was when the snapshot was taken. The instance keeps the view
/// itself, under the snapshot's number.
#[derive(Clone, Copy, Debug, PartialEq, Eq, Structural)]
pub struct Snapshot {
    pub instance: u64,
    pub number: u64,
}

impl Snapshot {
    pub fn new(instance: u64, number: u64) -> (snapshot: Self)
        ensures
            snapshot.instance == instance,
            snapshot.number == number,
    {
        Snapshot { instance, number }
    }

    /// Only the instance that made a snapshot can read from it.
    pub fn belongs_to(&self, instance: u64) -> (belongs: bool)
        ensures
            belongs == (self.instance == instance),
    {
        self.instance == instance
    }
}

} // verus!
