//! Who holds which directory.

use vstd::prelude::*;

use crate::vlog::file_set::FileIdentity;

verus! {

/// Directories that are claimed, each by one holder.
pub struct ClaimTable {
    directories: Vec<FileIdentity>,
}

impl View for ClaimTable {
    type V = Set<FileIdentity>;

    closed spec fn view(&self) -> Set<FileIdentity> {
        self.directories@.to_set()
    }
}

impl ClaimTable {
    #[verifier::type_invariant]
    spec fn distinct(&self) -> bool {
        self.directories@.no_duplicates()
    }

    pub fn new() -> (claims: Self)
        ensures
            claims@ == Set::<FileIdentity>::empty(),
    {
        let claims = ClaimTable { directories: Vec::new() };
        proof {
            assert(claims@ =~= Set::<FileIdentity>::empty());
        }
        claims
    }

    fn place(&self, directory: FileIdentity) -> (place: Option<usize>)
        ensures
            match place {
                Some(i) => i < self.directories@.len() && self.directories@[i as int] == directory,
                None => !self@.contains(directory),
            },
    {
        let mut i: usize = 0;
        while i < self.directories.len()
            invariant
                i <= self.directories@.len(),
                forall|k: int| 0 <= k < i ==> self.directories@[k] != directory,
            decreases self.directories@.len() - i,
        {
            if self.directories[i] == directory {
                return Some(i);
            }
            i = i + 1;
        }
        None
    }

    /// Claims a directory, unless it is claimed, and says whether it did.
    pub fn claim(&mut self, directory: FileIdentity) -> (claimed: bool)
        ensures
            claimed == !old(self)@.contains(directory),
            final(self)@ == old(self)@.insert(directory),
    {
        proof {
            use_type_invariant(&*self);
        }
        let ghost before = self.directories@;
        match self.place(directory) {
            Some(i) => {
                proof {
                    assert(before[i as int] == directory);
                }
                proof {
                    assert(self@ =~= self@.insert(directory));
                }
                false
            },
            None => {
                let mut taken = ClaimTable::new();
                std::mem::swap(&mut taken, self);
                let mut directories: Vec<FileIdentity> = taken.directories;
                directories.push(directory);
                proof {
                    assert forall|x: FileIdentity|
                        directories@.to_set().contains(x) == before.to_set().insert(
                            directory,
                        ).contains(x) by {
                        if before.contains(x) {
                            let k = choose|k: int| 0 <= k < before.len() && before[k] == x;
                            assert(directories@[k] == x);
                        }
                        assert(directories@[before.len() as int] == directory);
                        if directories@.contains(x) {
                            let k = choose|k: int|
                                0 <= k < directories@.len() && directories@[k] == x;
                            assert(k < before.len() ==> before[k] == x);
                        }
                    }
                    assert(directories@.to_set() =~= before.to_set().insert(directory));
                }
                *self = ClaimTable { directories };
                true
            },
        }
    }

    /// Gives a directory up.
    pub fn release(&mut self, directory: FileIdentity)
        ensures
            final(self)@ == old(self)@.remove(directory),
    {
        proof {
            use_type_invariant(&*self);
        }
        let ghost before = self.directories@;
        match self.place(directory) {
            Some(i) => {
                let mut taken = ClaimTable::new();
                std::mem::swap(&mut taken, self);
                let mut directories: Vec<FileIdentity> = taken.directories;
                directories.remove(i);
                proof {
                    assert(directories@ =~= before.remove(i as int));
                    assert forall|x: FileIdentity|
                        directories@.to_set().contains(x) == before.to_set().remove(
                            directory,
                        ).contains(x) by {
                        if before.contains(x) && x != directory {
                            let k = choose|k: int| 0 <= k < before.len() && before[k] == x;
                            assert(directories@[if k < i { k } else { k - 1 }] == x);
                        }
                        if directories@.contains(x) {
                            let k = choose|k: int|
                                0 <= k < directories@.len() && directories@[k] == x;
                            assert(before[if k < i { k } else { k + 1 }] == x);
                        }
                    }
                    assert(directories@.to_set() =~= before.to_set().remove(directory));
                }
                *self = ClaimTable { directories };
            },
            None => {
                proof {
                    assert(self@ =~= self@.remove(directory));
                }
            },
        }
    }
}

} // verus!
