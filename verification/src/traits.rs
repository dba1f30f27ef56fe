//! The traits of a sat, gathered in one record.

use vstd::prelude::*;
use crate::decimal_sat::decimal_text;
use crate::epoch::epoch_of_sat;
use crate::rarity::{rarity_of, Rarity};
use crate::sat::{name_bytes, third_of, Sat};
use crate::sats::{height_of, SatsSubsidy};
use crate::text::ascii;
use crate::CYCLE_EPOCHS;

verus! {

/// What is known of one sat.
#[derive(Clone, Debug, PartialEq)]
pub struct Output {
    pub number: u64,
    pub decimal: String,
    pub name: String,
    pub height: u32,
    pub cycle: u32,
    pub epoch: u32,
    pub offset: u64,
    pub rarity: Rarity,
}

impl Output {
    /// The traits of `sat` under `table`. `None` where the sat's block has no
    /// reward, and with it no position in the block.
    pub fn of(sat: Sat, table: &SatsSubsidy) -> (r: Option<Output>)
        requires
            sat.0 <= Sat::SUPPLY,
        ensures
            match r {
                Some(output) => {
                    &&& third_of(table@, sat.0) == Some(output.offset)
                    &&& output.number == sat.0
                    &&& output.height == height_of(table@, sat.0)
                    &&& output.decimal@ == ascii(decimal_text(output.height, output.offset))
                    &&& output.name@ == ascii(name_bytes((Sat::SUPPLY - sat.0) as nat))
                    &&& output.cycle == epoch_of_sat(sat.0) / CYCLE_EPOCHS
                    &&& output.epoch == epoch_of_sat(sat.0)
                    &&& output.rarity == rarity_of(table@, sat.0)
                },
                None => third_of(table@, sat.0) is None,
            },
    {
        match sat.decimal(table) {
            Some(decimal) => Some(
                Output {
                    number: sat.n(),
                    decimal: decimal.to_string(),
                    name: sat.name(),
                    height: decimal.height.0,
                    cycle: sat.cycle(),
                    epoch: sat.epoch().0,
                    offset: decimal.offset,
                    rarity: sat.rarity(table),
                },
            ),
            None => None,
        }
    }
}

} // verus!
