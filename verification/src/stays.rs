//! The record of each vehicle's stay in the intersection: the first and the
//! last instant at which it was seen there.

use crate::admission::MAX_TIME;
use std::collections::HashMap;
use vstd::prelude::*;

verus! {

/// A stay in the intersection as far as it has been seen: the instants of
/// the first and of the last step at which the vehicle touched it.
#[derive(Clone, Copy, Debug, PartialEq, Eq, Structural)]
pub struct Stay {
    pub first: i64,
    pub last: i64,
}

impl Stay {
    /// The time between the first and the last step of the stay.
    pub open spec fn spec_length(self) -> int {
        self.last - self.first
    }

    /// Both instants are within `MAX_TIME` of zero.
    pub open spec fn in_range(self) -> bool {
        -MAX_TIME <= self.first <= MAX_TIME && -MAX_TIME <= self.last <= MAX_TIME
    }

    /// The time between the first and the last step of the stay.
    pub fn length(&self) -> (r: i64)
        requires
            self.in_range(),
        ensures
            r == self.spec_length(),
    {
        self.last - self.first
    }
}

/// Whether every recorded instant is within `MAX_TIME` of zero.
pub open spec fn stays_in_range(stays: Map<usize, Stay>) -> bool {
    forall|id: usize| stays.contains_key(id) ==> (#[trigger] stays[id]).in_range()
}

/// For each vehicle that is inside the intersection, by its id, its stay
/// so far.
pub struct EntryTimes {
    times: HashMap<usize, Stay>,
}

impl View for EntryTimes {
    type V = Map<usize, Stay>;

    closed spec fn view(&self) -> Map<usize, Stay> {
        self.times@
    }
}

impl EntryTimes {
    /// Every recorded instant is in range.
    #[verifier::type_invariant]
    pub open spec fn wf(&self) -> bool {
        stays_in_range(self@)
    }

    pub fn new() -> (entries: EntryTimes)
        ensures
            entries@ == Map::<usize, Stay>::empty(),
    {
        let entries = EntryTimes { times: HashMap::new() };
        proof {
            assert(entries@ =~= Map::<usize, Stay>::empty());
        }
        entries
    }

    /// The stay recorded for `id`, if there is one.
    pub fn get(&self, id: usize) -> (entry: Option<Stay>)
        ensures
            entry == (if self@.contains_key(id) {
                Some(self@[id])
            } else {
                None
            }),
            entry matches Some(stay) ==> stay.in_range(),
    {
        proof {
            use_type_invariant(self);
        }
        match self.times.get(&id) {
            Some(e) => Some(*e),
            None => None,
        }
    }

    /// Records `stay` for `id`, in place of what was recorded for it.
    pub fn insert(&mut self, id: usize, stay: Stay)
        requires
            stay.in_range(),
        ensures
            final(self)@ == old(self)@.insert(id, stay),
    {
        proof {
            use_type_invariant(&*self);
        }
        // The map is changed outside the record and put back, so that the
        // record holds a map with instants in range at every moment.
        let mut times: HashMap<usize, Stay> = HashMap::new();
        std::mem::swap(&mut times, &mut self.times);
        times.insert(id, stay);
        self.times = times;
    }

    /// Forgets what was recorded for `id`.
    pub fn remove(&mut self, id: usize)
        ensures
            final(self)@ == old(self)@.remove(id),
    {
        proof {
            use_type_invariant(&*self);
        }
        let mut times: HashMap<usize, Stay> = HashMap::new();
        std::mem::swap(&mut times, &mut self.times);
        times.remove(&id);
        self.times = times;
    }
}

} // verus!
