//! Who still holds an instance, and whether it may take up another operation.

use vstd::prelude::*;

verus! {

/// What holds an instance: leases of its users, and operations on their way. The caller guards
/// it with a lock of its own.
#[derive(Clone, Copy, Debug, PartialEq, Eq, Structural)]
pub struct Lifecycle {
    accepting_operations: bool,
    external_leases: usize,
    operation_guards: usize,
}

/// What is held at one moment.
#[derive(Clone, Copy, Debug, PartialEq, Eq, Structural)]
pub struct LifecycleSnapshot {
    pub accepting_operations: bool,
    pub external_leases: usize,
    pub operation_guards: usize,
}

impl View for Lifecycle {
    type V = LifecycleSnapshot;

    closed spec fn view(&self) -> LifecycleSnapshot {
        LifecycleSnapshot {
            accepting_operations: self.accepting_operations,
            external_leases: self.external_leases,
            operation_guards: self.operation_guards,
        }
    }
}

impl LifecycleSnapshot {
    /// Nothing holds the instance.
    pub open spec fn quiescent(self) -> bool {
        self.external_leases == 0 && self.operation_guards == 0
    }
}

impl Lifecycle {
    /// Operations are accepted exactly as long as someone has a lease.
    #[verifier::type_invariant]
    spec fn open_while_leased(&self) -> bool {
        self.accepting_operations == (self.external_leases > 0)
    }

    /// An instance with its first lease.
    pub fn new_with_external_lease() -> (lifecycle: Self)
        ensures
            lifecycle@ == (LifecycleSnapshot {
                accepting_operations: true,
                external_leases: 1,
                operation_guards: 0,
            }),
    {
        Lifecycle { accepting_operations: true, external_leases: 1, operation_guards: 0 }
    }

    /// Lets an operation in, unless the instance is closing.
    pub fn acquire_operation(&mut self) -> (acquired: bool)
        requires
            old(self)@.operation_guards < usize::MAX,
        ensures
            acquired == old(self)@.accepting_operations,
            acquired == (old(self)@.external_leases > 0),
            final(self)@ == (if acquired {
                LifecycleSnapshot {
                    operation_guards: (old(self)@.operation_guards + 1) as usize,
                    ..old(self)@
                }
            } else {
                old(self)@
            }),
    {
        proof {
            use_type_invariant(&*self);
        }
        if !self.accepting_operations {
            return false;
        }
        self.operation_guards = self.operation_guards + 1;
        true
    }

    pub fn snapshot(&self) -> (snapshot: LifecycleSnapshot)
        ensures
            snapshot == self@,
    {
        LifecycleSnapshot {
            accepting_operations: self.accepting_operations,
            external_leases: self.external_leases,
            operation_guards: self.operation_guards,
        }
    }

    /// A holder of a lease gives another one out.
    pub fn clone_external_lease(&mut self)
        requires
            0 < old(self)@.external_leases < usize::MAX,
        ensures
            final(self)@ == (LifecycleSnapshot {
                external_leases: (old(self)@.external_leases + 1) as usize,
                ..old(self)@
            }),
    {
        proof {
            use_type_invariant(&*self);
        }
        self.external_leases = self.external_leases + 1;
    }

    /// A lease ends. With the last one, no operation is let in any more. Says whether nothing
    /// holds the instance now.
    pub fn release_external_lease(&mut self) -> (quiescent: bool)
        requires
            old(self)@.external_leases > 0,
        ensures
            final(self)@ == (LifecycleSnapshot {
                external_leases: (old(self)@.external_leases - 1) as usize,
                accepting_operations: old(self)@.external_leases > 1,
                ..old(self)@
            }),
            quiescent == final(self)@.quiescent(),
    {
        proof {
            use_type_invariant(&*self);
        }
        let external_leases: usize = self.external_leases - 1;
        let accepting_operations = external_leases > 0;
        *self = Lifecycle {
            accepting_operations,
            external_leases,
            operation_guards: self.operation_guards,
        };
        self.is_quiescent()
    }

    /// An operation ends. Says whether nothing holds the instance now.
    pub fn release_operation_guard(&mut self) -> (quiescent: bool)
        requires
            old(self)@.operation_guards > 0,
        ensures
            final(self)@ == (LifecycleSnapshot {
                operation_guards: (old(self)@.operation_guards - 1) as usize,
                ..old(self)@
            }),
            quiescent == final(self)@.quiescent(),
    {
        proof {
            use_type_invariant(&*self);
        }
        self.operation_guards = self.operation_guards - 1;
        self.is_quiescent()
    }

    pub fn is_quiescent(&self) -> (quiescent: bool)
        ensures
            quiescent == self@.quiescent(),
    {
        self.external_leases == 0 && self.operation_guards == 0
    }
}

/// An instance is held as long as there is a lease or an operation on its way, and no longer: two
/// counts that add up to nothing.
pub proof fn law_nothing_holds_a_quiescent_instance(snapshot: LifecycleSnapshot)
    ensures
        snapshot.quiescent() <==> snapshot.external_leases + snapshot.operation_guards == 0,
{
}

} // verus!
