//! How special a sat is.

use vstd::prelude::*;
use vstd::std_specs::cmp::{PartialEqSpecImpl, PartialOrdSpecImpl};
use vstd::std_specs::convert::{FromSpecImpl, TryFromSpecImpl};
use vstd::string::StringExecFns;
use core::cmp::Ordering;
use crate::epoch::{epoch_of_sat, starting_sat_of};
use crate::sat::Sat;
use crate::sats::{
    cumulative_at, height_of, lemma_cumulative_ordered, lemma_height_of, table_wf, SatsSubsidy,
};

verus! {

/// The class of a sat, from the most usual to the most special.
#[derive(Clone, Copy, Debug)]
pub enum Rarity {
    /// Any sat that is the first of nothing.
    Common,
    /// The first sat of a block.
    Uncommon,
    /// The first sat of an epoch.
    Epic,
    /// The first sat of all.
    Mythic,
}

/// The class of `sat` under the table `table`: the first of these that fits,
/// in this order: the first sat of all, the first of its epoch, the first of
/// its block, none of them.
pub open spec fn rarity_of(table: Seq<u64>, sat: u64) -> Rarity {
    if sat == 0 {
        Rarity::Mythic
    } else if sat == starting_sat_of(epoch_of_sat(sat)) {
        Rarity::Epic
    } else if sat == cumulative_at(table, height_of(table, sat) as int) {
        Rarity::Uncommon
    } else {
        Rarity::Common
    }
}

/// The name of `rarity`.
pub open spec fn rarity_name(rarity: Rarity) -> Seq<char> {
    match rarity {
        Rarity::Common => "common"@,
        Rarity::Uncommon => "uncommon"@,
        Rarity::Epic => "epic"@,
        Rarity::Mythic => "mythic"@,
    }
}

/// The class that `name` names, if it names one.
pub open spec fn rarity_named(name: Seq<char>) -> Option<Rarity> {
    if name == "common"@ {
        Some(Rarity::Common)
    } else if name == "uncommon"@ {
        Some(Rarity::Uncommon)
    } else if name == "epic"@ {
        Some(Rarity::Epic)
    } else if name == "mythic"@ {
        Some(Rarity::Mythic)
    } else {
        None
    }
}

/// The number that stands for `rarity`.
pub open spec fn rarity_number(rarity: Rarity) -> u8 {
    match rarity {
        Rarity::Common => 0,
        Rarity::Uncommon => 1,
        Rarity::Epic => 3,
        Rarity::Mythic => 5,
    }
}

/// The class that `number` stands for, or the number back.
pub open spec fn rarity_numbered(number: u8) -> Result<Rarity, u8> {
    if number == 0 {
        Ok(Rarity::Common)
    } else if number == 1 {
        Ok(Rarity::Uncommon)
    } else if number == 3 {
        Ok(Rarity::Epic)
    } else if number == 5 {
        Ok(Rarity::Mythic)
    } else {
        Err(number)
    }
}

impl Rarity {
    /// The place of this class in the order of classes, from 0 for `Common`.
    pub open spec fn rank_of(self) -> u8 {
        match self {
            Rarity::Common => 0,
            Rarity::Uncommon => 1,
            Rarity::Epic => 2,
            Rarity::Mythic => 3,
        }
    }

    /// The place of this class in the order of classes, from 0 for `Common`.
    pub fn rank(&self) -> (r: u8)
        ensures
            r == self.rank_of(),
    {
        match self {
            Rarity::Common => 0,
            Rarity::Uncommon => 1,
            Rarity::Epic => 2,
            Rarity::Mythic => 3,
        }
    }

    /// The class of `sat` under `table`.
    pub fn from_sat(sat: Sat, table: &SatsSubsidy) -> (rarity: Rarity)
        ensures
            rarity == rarity_of(table@, sat.0),
    {
        let epoch = crate::epoch::Epoch::from(sat);
        let height = table.height_from_sat(sat);
        let block_first_sat = match table.sat_from_height(height) {
            Ok(first) => first,
            Err(_) => Sat(0),
        };
        if sat.0 == 0 {
            Rarity::Mythic
        } else if sat.0 == epoch.starting_sat().0 {
            Rarity::Epic
        } else if block_first_sat.0 == sat.0 {
            Rarity::Uncommon
        } else {
            Rarity::Common
        }
    }

    /// The name of this class, in lower case.
    pub fn to_string(&self) -> (name: String)
        ensures
            name@ == rarity_name(*self),
    {
        match self {
            Rarity::Common => String::from_str("common"),
            Rarity::Uncommon => String::from_str("uncommon"),
            Rarity::Epic => String::from_str("epic"),
            Rarity::Mythic => String::from_str("mythic"),
        }
    }

    /// The class that `s` names; else a message that quotes `s`.
    pub fn from_str(s: &str) -> (r: Result<Rarity, String>)
        ensures
            match r {
                Ok(rarity) => rarity_named(s@) == Some(rarity),
                Err(message) => rarity_named(s@) is None && message@ == "invalid rarity `"@ + s@
                    + "`"@,
            },
    {
        let text: String = String::from_str(s);
        if text == String::from_str("common") {
            Ok(Rarity::Common)
        } else if text == String::from_str("uncommon") {
            Ok(Rarity::Uncommon)
        } else if text == String::from_str("epic") {
            Ok(Rarity::Epic)
        } else if text == String::from_str("mythic") {
            Ok(Rarity::Mythic)
        } else {
            let mut message: String = String::from_str("invalid rarity `");
            message.append(s);
            message.append("`");
            Err(message)
        }
    }
}

impl PartialEq for Rarity {
    fn eq(&self, other: &Rarity) -> (r: bool) {
        self.rank() == other.rank()
    }
}

impl PartialEqSpecImpl for Rarity {
    open spec fn obeys_eq_spec() -> bool {
        true
    }

    open spec fn eq_spec(&self, other: &Rarity) -> bool {
        self.rank_of() == other.rank_of()
    }
}

impl PartialOrd for Rarity {
    fn partial_cmp(&self, other: &Rarity) -> (r: Option<Ordering>) {
        let a: u8 = self.rank();
        let b: u8 = other.rank();
        if a < b {
            Some(Ordering::Less)
        } else if a == b {
            Some(Ordering::Equal)
        } else {
            Some(Ordering::Greater)
        }
    }
}

impl PartialOrdSpecImpl for Rarity {
    open spec fn obeys_partial_cmp_spec() -> bool {
        true
    }

    open spec fn partial_cmp_spec(&self, other: &Rarity) -> Option<Ordering> {
        if self.rank_of() < other.rank_of() {
            Some(Ordering::Less)
        } else if self.rank_of() == other.rank_of() {
            Some(Ordering::Equal)
        } else {
            Some(Ordering::Greater)
        }
    }
}

impl From<Rarity> for u8 {
    fn from(rarity: Rarity) -> (number: u8) {
        match rarity {
            Rarity::Common => 0,
            Rarity::Uncommon => 1,
            Rarity::Epic => 3,
            Rarity::Mythic => 5,
        }
    }
}

impl FromSpecImpl<Rarity> for u8 {
    open spec fn obeys_from_spec() -> bool {
        true
    }

    open spec fn from_spec(rarity: Rarity) -> u8 {
        rarity_number(rarity)
    }
}

impl TryFrom<u8> for Rarity {
    type Error = u8;

    fn try_from(rarity: u8) -> (r: Result<Rarity, u8>) {
        if rarity == 0 {
            Ok(Rarity::Common)
        } else if rarity == 1 {
            Ok(Rarity::Uncommon)
        } else if rarity == 3 {
            Ok(Rarity::Epic)
        } else if rarity == 5 {
            Ok(Rarity::Mythic)
        } else {
            Err(rarity)
        }
    }
}

impl TryFromSpecImpl<u8> for Rarity {
    open spec fn obeys_try_from_spec() -> bool {
        true
    }

    open spec fn try_from_spec(rarity: u8) -> Result<Rarity, u8> {
        rarity_numbered(rarity)
    }
}

impl core::str::FromStr for Rarity {
    type Err = String;

    fn from_str(s: &str) -> (r: Result<Rarity, String>)
        ensures
            match r {
                Ok(rarity) => rarity_named(s@) == Some(rarity),
                Err(message) => rarity_named(s@) is None && message@ == "invalid rarity `"@ + s@
                    + "`"@,
            },
    {
        Rarity::from_str(s)
    }
}

/// The number of a class stands for that class and no other.
pub proof fn lemma_rarity_number_round_trip(rarity: Rarity)
    ensures
        rarity_numbered(rarity_number(rarity)) == Ok::<Rarity, u8>(rarity),
{
}

/// A number that stands for a class is the number of that class.
pub proof fn lemma_rarity_numbered_round_trip(number: u8)
    ensures
        rarity_numbered(number) matches Ok(rarity) ==> rarity_number(rarity) == number,
{
}

/// The first sat of all is mythic, whatever the table.
pub proof fn lemma_first_sat_is_mythic(table: Seq<u64>)
    ensures
        rarity_of(table, 0) == Rarity::Mythic,
{
}

/// The first sat of each epoch after the first is epic, whatever the table.
pub proof fn lemma_epoch_start_is_epic(table: Seq<u64>, epoch: u32)
    requires
        2 <= epoch <= 5,
    ensures
        rarity_of(table, starting_sat_of(epoch)) == Rarity::Epic,
{
}

/// The first sat of a block is never common; it is uncommon unless it is also
/// the first sat of an epoch or of all.
pub proof fn lemma_block_start_is_uncommon(table: Seq<u64>, h: int)
    requires
        table_wf(table),
        0 <= h < table.len(),
    ensures
        rarity_of(table, cumulative_at(table, h) as u64) != Rarity::Common,
        cumulative_at(table, h) != 0 && cumulative_at(table, h) != starting_sat_of(
            epoch_of_sat(cumulative_at(table, h) as u64),
        ) ==> rarity_of(table, cumulative_at(table, h) as u64) == Rarity::Uncommon,
{
    lemma_cumulative_ordered(table, 0, h);
    let sat = cumulative_at(table, h) as u64;
    lemma_height_of(table, sat);
    let found = height_of(table, sat) as int;
    assert(found >= h);
    lemma_cumulative_ordered(table, h, found);
}

/// A sat is common exactly when it is the first of nothing: not of the supply,
/// not of its epoch, not of its block.
pub proof fn lemma_common(table: Seq<u64>, sat: u64)
    ensures
        rarity_of(table, sat) == Rarity::Common <==> sat != 0 && sat != starting_sat_of(
            epoch_of_sat(sat),
        ) && sat != cumulative_at(table, height_of(table, sat) as int),
{
}

} // verus!
