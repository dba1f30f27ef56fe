//! A sat written as the height of its block and its offset within the block.

use vstd::prelude::*;
use vstd::string::StringExecFns;
use vstd::utf8::encode_utf8;
use crate::height::Height;
use crate::numeral::{decimal_digits, is_digit, lemma_decimal_digits, u64_to_string};
use crate::sat::{third_of, Sat};
use crate::sats::{height_of, SatsSubsidy};
use crate::text::{ascii, lemma_ascii_encoding};

verus! {

/// A height and an offset into the block at that height.
#[derive(Clone, Copy, Debug, PartialEq, Eq, Structural)]
pub struct DecimalSat {
    pub height: Height,
    pub offset: u64,
}

/// The text of a height and an offset: the two numerals with a period between.
pub open spec fn decimal_text(height: u32, offset: u64) -> Seq<u8> {
    decimal_digits(height as nat) + seq![46u8] + decimal_digits(offset as nat)
}

impl DecimalSat {
    /// The height of `sat`'s block and its position in the block. `None` where
    /// the block's reward is zero.
    pub fn from_sat(sat: Sat, table: &SatsSubsidy) -> (r: Option<DecimalSat>)
        ensures
            match r {
                Some(decimal) => third_of(table@, sat.0) == Some(decimal.offset)
                    && decimal.height.0 == height_of(table@, sat.0),
                None => third_of(table@, sat.0) is None,
            },
    {
        match sat.third(table) {
            Some(offset) => Some(DecimalSat { height: sat.height(table), offset }),
            None => None,
        }
    }

    /// The height, a period, the offset.
    pub fn to_string(&self) -> (s: String)
        ensures
            s@ == ascii(decimal_text(self.height.0, self.offset)),
            encode_utf8(s@) == decimal_text(self.height.0, self.offset),
    {
        let mut s: String = u64_to_string(self.height.0 as u64);
        s.append(".");
        let offset: String = u64_to_string(self.offset);
        s.append(offset.as_str());
        proof {
            reveal_strlit(".");
            assert("."@ =~= ascii(seq![46u8]));
            assert(s@ =~= ascii(decimal_text(self.height.0, self.offset)));
            let text = decimal_text(self.height.0, self.offset);
            lemma_decimal_digits(self.height.0 as nat);
            lemma_decimal_digits(self.offset as nat);
            assert forall|i: int| 0 <= i < text.len() implies #[trigger] text[i] < 128 by {
                let high = decimal_digits(self.height.0 as nat);
                let low = decimal_digits(self.offset as nat);
                if i < high.len() {
                    assert(is_digit(high[i]));
                } else if i > high.len() {
                    assert(is_digit(low[i - high.len() - 1]));
                }
            }
            lemma_ascii_encoding(text);
        }
        s
    }
}

} // verus!
