//! The epoch: the value that tells one build from every other.
//!
//! A build takes its epoch from the clock the first time it asks for it,
//! and keeps it from then on.

use vstd::prelude::*;

verus! {

/// The epoch of a build, once it was taken.
pub struct EpochCell {
    taken: Option<u128>,
}

impl View for EpochCell {
    type V = Option<u128>;

    /// The epoch, if it was taken.
    closed spec fn view(&self) -> Option<u128> {
        self.taken
    }
}

impl EpochCell {
    /// A cell whose epoch was not taken yet.
    pub fn new() -> (cell: EpochCell)
        ensures
            cell@ is None,
    {
        EpochCell { taken: None }
    }

    /// The epoch, if it was taken.
    pub fn get(&self) -> (taken: Option<u128>)
        ensures
            taken == self@,
    {
        self.taken
    }

    /// The epoch of the build. The first call takes `reading`, the clock's
    /// reading at that moment, as the epoch; every later call gives that
    /// same epoch, whatever the clock reads by then.
    pub fn current_epoch(&mut self, reading: u128) -> (epoch: u128)
        ensures
            epoch == match old(self)@ {
                Some(taken) => taken,
                None => reading,
            },
            final(self)@ == Some(epoch),
    {
        match self.taken {
            Some(taken) => taken,
            None => {
                self.taken = Some(reading);
                reading
            },
        }
    }
}

} // verus!
