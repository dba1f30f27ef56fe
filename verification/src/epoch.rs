//! Issuance epochs and their fixed boundaries.

use vstd::prelude::*;
use vstd::std_specs::cmp::PartialEqSpecImpl;
use vstd::std_specs::convert::FromSpecImpl;
use crate::height::Height;
use crate::sat::Sat;

verus! {

/// The number of an issuance era, from 1.
#[derive(Clone, Copy, Debug, PartialEq, Eq, PartialOrd, Structural)]
pub struct Epoch(pub u32);

/// The first sat of epoch `epoch`; the supply for an epoch past the boundaries.
pub open spec fn starting_sat_of(epoch: u32) -> u64 {
    if 1 <= epoch <= 6 {
        Epoch::STARTING_SATS[epoch - 1]
    } else {
        Sat::SUPPLY
    }
}

/// The epoch of the sat `sat`: the last epoch that starts at or below it.
pub open spec fn epoch_of_sat(sat: u64) -> u32 {
    if sat < Epoch::STARTING_SATS[1] {
        1
    } else if sat < Epoch::STARTING_SATS[2] {
        2
    } else if sat < Epoch::STARTING_SATS[3] {
        3
    } else if sat < Epoch::STARTING_SATS[4] {
        4
    } else {
        5
    }
}

/// The first height of epoch `epoch`, for the epochs that have one.
pub open spec fn starting_height_of(epoch: u32) -> u32
    recommends
        1 <= epoch <= 5,
{
    if epoch == 1 {
        0
    } else if epoch == 2 {
        101
    } else if epoch == 3 {
        129601
    } else if epoch == 4 {
        259201
    } else {
        518401
    }
}

/// The epoch of the height `height`: the last epoch that starts at or below it.
pub open spec fn epoch_of_height(height: u32) -> u32 {
    if height < 101 {
        1
    } else if height < 129601 {
        2
    } else if height < 259201 {
        3
    } else if height < 518401 {
        4
    } else {
        5
    }
}

impl Epoch {
    /// The first sats of the epochs; the last entry is the supply.
    pub const STARTING_SATS: [u64; 6] = [
        0,
        20200000000,
        3644007700000000,
        5428605700000000,
        5824936400000000,
        50000000000000000,
    ];

    /// The number of the first epoch after the last boundary.
    pub const FIRST_POST_SUBSIDY: u32 = 6;

    /// The first sat of this epoch. An epoch outside the boundaries starts at
    /// the supply.
    pub fn starting_sat(self) -> (sat: Sat)
        ensures
            sat.0 == starting_sat_of(self.0),
    {
        if 1 <= self.0 && self.0 <= 6 {
            Sat(Epoch::STARTING_SATS[(self.0 - 1) as usize])
        } else {
            Sat(Sat::SUPPLY)
        }
    }

    /// The first height of this epoch, which must be one of the five with a
    /// fixed boundary.
    pub fn starting_height(self) -> (height: Height)
        requires
            1 <= self.0 <= 5,
        ensures
            height.0 == starting_height_of(self.0),
            epoch_of_height(height.0) == self.0,
            height.0 > 0 ==> epoch_of_height((height.0 - 1) as u32) == self.0 - 1,
    {
        if self.0 == 1 {
            Height(0)
        } else if self.0 == 2 {
            Height(101)
        } else if self.0 == 3 {
            Height(129601)
        } else if self.0 == 4 {
            Height(259201)
        } else {
            Height(518401)
        }
    }
}

impl PartialEq<u32> for Epoch {
    fn eq(&self, other: &u32) -> (r: bool) {
        self.0 == *other
    }
}

impl PartialEqSpecImpl<u32> for Epoch {
    open spec fn obeys_eq_spec() -> bool {
        true
    }

    open spec fn eq_spec(&self, other: &u32) -> bool {
        self.0 == *other
    }
}

impl From<Sat> for Epoch {
    /// The epoch of `sat`.
    fn from(sat: Sat) -> (epoch: Epoch) {
        if sat.0 < Epoch::STARTING_SATS[1] {
            Epoch(1)
        } else if sat.0 < Epoch::STARTING_SATS[2] {
            Epoch(2)
        } else if sat.0 < Epoch::STARTING_SATS[3] {
            Epoch(3)
        } else if sat.0 < Epoch::STARTING_SATS[4] {
            Epoch(4)
        } else {
            Epoch(5)
        }
    }
}

impl FromSpecImpl<Sat> for Epoch {
    open spec fn obeys_from_spec() -> bool {
        true
    }

    open spec fn from_spec(sat: Sat) -> Epoch {
        Epoch(epoch_of_sat(sat.0))
    }
}

impl From<Height> for Epoch {
    /// The epoch of `height`.
    fn from(height: Height) -> (epoch: Epoch) {
        if height.0 < 101 {
            Epoch(1)
        } else if height.0 < 129601 {
            Epoch(2)
        } else if height.0 < 259201 {
            Epoch(3)
        } else if height.0 < 518401 {
            Epoch(4)
        } else {
            Epoch(5)
        }
    }
}

impl FromSpecImpl<Height> for Epoch {
    open spec fn obeys_from_spec() -> bool {
        true
    }

    open spec fn from_spec(height: Height) -> Epoch {
        Epoch(epoch_of_height(height.0))
    }
}

/// The epoch of a sat is the one of the five whose first sat is at or below it
/// and whose successor, if it has one among the five, starts above it.
pub proof fn lemma_epoch_of_sat(sat: u64)
    ensures
        1 <= epoch_of_sat(sat) <= 5,
        starting_sat_of(epoch_of_sat(sat)) <= sat,
        epoch_of_sat(sat) < 5 ==> sat < starting_sat_of((epoch_of_sat(sat) + 1) as u32),
        sat < Sat::SUPPLY ==> sat < starting_sat_of((epoch_of_sat(sat) + 1) as u32),
{
}

/// The first sats of the epochs increase strictly.
pub proof fn lemma_starting_sats_increase(a: u32, b: u32)
    requires
        1 <= a < b <= 6,
    ensures
        starting_sat_of(a) < starting_sat_of(b),
{
}

} // verus!
