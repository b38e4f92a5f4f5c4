//! What rings and queues were asked for.

use vstd::prelude::*;

verus! {

/// The sizes in bytes of the records for which space was asked for through a
/// producer handle, oldest first.
///
/// Nothing adds to them but the ring itself.
pub struct Attempts {
    sizes: Ghost<Seq<nat>>,
}

impl Attempts {
    /// The sizes, oldest first.
    pub closed spec fn sizes(self) -> Seq<nat> {
        self.sizes@
    }

    /// Nothing was asked for yet.
    pub fn none() -> (a: Attempts)
        ensures
            a.sizes() == Seq::<nat>::empty(),
    {
        Attempts { sizes: Ghost(Seq::empty()) }
    }
}

/// How often something was asked for through a handle.
///
/// Nothing adds to it but what was asked.
pub struct Tries {
    count: Ghost<nat>,
}

impl Tries {
    /// How often.
    pub closed spec fn count(self) -> nat {
        self.count@
    }

    /// Nothing was asked for yet.
    pub fn none() -> (t: Tries)
        ensures
            t.count() == 0,
    {
        Tries { count: Ghost(0) }
    }
}

}
