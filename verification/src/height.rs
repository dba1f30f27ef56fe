//! Block heights.

use vstd::prelude::*;
use vstd::std_specs::cmp::PartialEqSpecImpl;
use vstd::std_specs::ops::{AddSpecImpl, SubSpecImpl};
use vstd::string::StringSliceAdditionalSpecFns;
use crate::numeral::{parse_u32, parsed_u32, IntError};
use crate::sat::Sat;
use crate::sats::{OutOfRange, SatsSubsidy, cumulative_at, subsidy_at};

verus! {

/// The index of a block in the chain.
#[derive(Clone, Copy, Debug, PartialEq, Eq, PartialOrd, Ord, Structural)]
pub struct Height(pub u32);

impl Height {
    /// The height as a number.
    pub fn n(self) -> (n: u32)
        ensures
            n == self.0,
    {
        self.0
    }

    /// The reward of the block at this height, in base units: what the table's
    /// running total grew by at this height. `OutOfRange` past the table's end.
    pub fn subsidy(self, table: &SatsSubsidy) -> (r: Result<u64, OutOfRange>)
        ensures
            match r {
                Ok(reward) => self.0 < table@.len() && reward == subsidy_at(table@, self.0 as int),
                Err(e) => self.0 >= table@.len() && e == (OutOfRange { height: self.0 }),
            },
    {
        table.subsidy_of(self)
    }

    /// The first sat of the block at this height: the sats minted before it.
    /// `OutOfRange` for a height beyond the one just past the table.
    pub fn starting_sat(self, table: &SatsSubsidy) -> (r: Result<Sat, OutOfRange>)
        ensures
            match r {
                Ok(sat) => self.0 <= table@.len() && sat.0 == cumulative_at(table@, self.0 as int),
                Err(e) => self.0 > table@.len() && e == (OutOfRange { height: self.0 }),
            },
    {
        table.sat_from_height(self)
    }
}

impl Height {
    /// The height that the decimal numeral `s` stands for.
    pub fn from_str(s: &str) -> (r: Result<Height, IntError>)
        ensures
            match r {
                Ok(height) => parsed_u32(s.spec_bytes()) == Ok::<u32, IntError>(height.0),
                Err(e) => parsed_u32(s.spec_bytes()) == Err::<u32, IntError>(e),
            },
    {
        match parse_u32(s.as_bytes()) {
            Ok(n) => Ok(Height(n)),
            Err(e) => Err(e),
        }
    }
}

impl core::str::FromStr for Height {
    type Err = IntError;

    fn from_str(s: &str) -> (r: Result<Height, IntError>)
        ensures
            match r {
                Ok(height) => parsed_u32(s.spec_bytes()) == Ok::<u32, IntError>(height.0),
                Err(e) => parsed_u32(s.spec_bytes()) == Err::<u32, IntError>(e),
            },
    {
        Height::from_str(s)
    }
}

impl core::ops::Add<u32> for Height {
    type Output = Height;

    fn add(self, other: u32) -> (r: Height) {
        Height(self.0 + other)
    }
}

impl AddSpecImpl<u32> for Height {
    open spec fn obeys_add_spec() -> bool {
        true
    }

    open spec fn add_req(self, other: u32) -> bool {
        self.0 + other <= u32::MAX
    }

    open spec fn add_spec(self, other: u32) -> Height {
        Height((self.0 + other) as u32)
    }
}

impl core::ops::Sub<u32> for Height {
    type Output = Height;

    fn sub(self, other: u32) -> (r: Height) {
        Height(self.0 - other)
    }
}

impl SubSpecImpl<u32> for Height {
    open spec fn obeys_sub_spec() -> bool {
        true
    }

    open spec fn sub_req(self, other: u32) -> bool {
        self.0 >= other
    }

    open spec fn sub_spec(self, other: u32) -> Height {
        Height((self.0 - other) as u32)
    }
}

impl PartialEq<u32> for Height {
    fn eq(&self, other: &u32) -> (r: bool) {
        self.0 == *other
    }
}

impl PartialEqSpecImpl<u32> for Height {
    open spec fn obeys_eq_spec() -> bool {
        true
    }

    open spec fn eq_spec(&self, other: &u32) -> bool {
        self.0 == *other
    }
}

} // verus!
