//! How much a store holds, and what stops being held.

use vstd::prelude::*;

verus! {

/// What one sweep removed.
#[derive(Debug, Clone, Copy, PartialEq, Eq, Structural)]
pub struct Swept {
    /// How many recorded reads were dropped.
    pub entries: u64,
    /// The bytes they held, by the store's own estimate.
    pub bytes: u64,
}

impl Default for Swept {
    fn default() -> (r: Self)
        ensures
            r == (Swept { entries: 0, bytes: 0 }),
    {
        Swept { entries: 0, bytes: 0 }
    }
}

/// How much a store is holding, and against what limit.
#[derive(Debug, Clone, Copy, PartialEq, Eq, Structural)]
pub struct Usage {
    /// The bytes held, by the store's own estimate.
    pub bytes: u64,
    /// How many recorded reads are held.
    pub entries: u64,
    /// The cap, if there is one.
    pub budget: Option<u64>,
    /// How many entries the budget has evicted so far.
    pub evicted: u64,
}

impl Default for Usage {
    fn default() -> (r: Self)
        ensures
            r == (Usage { bytes: 0, entries: 0, budget: None, evicted: 0 }),
    {
        Usage { bytes: 0, entries: 0, budget: None, evicted: 0 }
    }
}

impl Usage {
    pub open spec fn over(self) -> bool {
        self.budget is Some && self.bytes > self.budget->0
    }

    /// Whether the store is over the cap it was given.
    pub fn over_budget(&self) -> (r: bool)
        ensures
            r == self.over(),
    {
        match self.budget {
            Some(cap) => self.bytes > cap,
            None => false,
        }
    }
}

} // verus!
