//! Ordinal numbering of a chain's base units: heights, epochs, sats, their
//! rarity and notations, the cumulative issuance table and the reward schedule.

use vstd::prelude::*;

pub mod decimal_sat;
pub mod epoch;
pub mod height;
pub mod numeral;
pub mod rarity;
pub mod sat;
pub mod sats;
pub mod subsidy;
pub mod text;
pub mod traits;

pub use decimal_sat::DecimalSat;
pub use epoch::Epoch;
pub use height::Height;
pub use rarity::Rarity;
pub use sat::{Error, ErrorKind, Grammar, Parsed, PercentileValue, Sat};
pub use sats::{OutOfRange, SatsSubsidy, TableError};
pub use subsidy::{get_block_subsidy, Network};
pub use traits::Output;

verus! {

/// Base units in one coin.
pub const COIN_VALUE: u64 = 100_000_000;

/// Epochs in one cycle.
pub const CYCLE_EPOCHS: u32 = 6;

} // verus!
