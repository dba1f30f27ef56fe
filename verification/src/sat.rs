//! Sats: the serial numbers of base units, in the order they were minted, and
//! the notations that name them.

use vstd::prelude::*;
use vstd::std_specs::cmp::{PartialEqSpecImpl, PartialOrdSpecImpl};
use vstd::std_specs::ops::AddSpecImpl;
use vstd::string::{StringExecFns, StringSliceAdditionalSpecFns};
use vstd::utf8::encode_utf8;
use core::cmp::Ordering;
use crate::{COIN_VALUE, CYCLE_EPOCHS};
use crate::decimal_sat::{decimal_text, DecimalSat};
use crate::epoch::{epoch_of_sat, starting_sat_of, Epoch};
use crate::height::Height;
use crate::numeral::{
    decimal_digits, digit_run, is_digit, lemma_decimal_digits, parse_u64, parsed_u32, parsed_u64,
    skip_digits, IntError,
};
use crate::rarity::{rarity_of, Rarity};
use crate::sats::{
    cumulative_at, height_of, lemma_cumulative_ordered, lemma_height_of, subsidy_at, table_wf,
    SatsSubsidy,
};
use crate::text::{
    all_ascii, ascii, find_byte, first_at, lemma_first_at_is, reversed, string_from_reversed,
};

verus! {

/// The ordinal number of one base unit.
#[derive(Clone, Copy, Debug, PartialEq, Eq, PartialOrd, Ord, Structural)]
pub struct Sat(pub u64);

/// Why a text names no sat.
#[derive(Clone, Copy, Debug, PartialEq, Eq, Structural)]
pub enum ErrorKind {
    /// The number is the supply or more.
    IntegerRange,
    /// The name stands for more than the supply.
    NameRange,
    /// The name holds something else than the letters `a` to `z`.
    NameCharacter,
    /// The percentile does not end in `%`, or lies outside 0 to 100.
    Percentile,
    /// The offset of a decimal is the reward of its block or more.
    BlockOffset,
    /// A decimal holds no period.
    MissingPeriod,
    /// The height of a decimal lies past the end of the table.
    OutOfRange,
    /// A text that should be a decimal numeral is none.
    ParseInt { source: IntError },
    /// The number of a percentile is no number.
    ParseFloat,
}

/// A text that names no sat, and why.
#[derive(Clone, Debug)]
pub struct Error {
    pub input: String,
    pub kind: ErrorKind,
}

/// The notation that a text is written in.
#[derive(Clone, Copy, Debug, PartialEq, Eq, Structural)]
pub enum Grammar {
    /// Letters: the name of a sat.
    Name,
    /// A number and `%`: how far through the supply the sat lies.
    Percentile,
    /// A height, a period and an offset.
    Decimal,
    /// The sat's number.
    Integer,
}

/// What floating-point arithmetic made of the number before the `%` of a
/// percentile.
#[derive(Clone, Copy, Debug, PartialEq, Eq, Structural)]
pub enum PercentileValue {
    /// The text before the `%` is no number.
    Malformed,
    /// The number is below zero.
    Negative,
    /// The number of the sat that lies this far through the supply, rounded.
    Ordinal(u64),
}

/// What reading a text came to.
#[derive(Clone, Copy, Debug, PartialEq, Eq, Structural)]
pub enum Parsed {
    /// The sat that the text names.
    Sat(Sat),
    /// The text is a percentile, whose number is still to be read.
    Percentile,
}

/// Whether `b` is a lower-case ASCII letter.
pub open spec fn is_lower(b: u8) -> bool {
    97 <= b <= 122
}

/// Whether `text` holds a lower-case ASCII letter.
pub open spec fn has_lower(text: Seq<u8>) -> bool {
    exists|i: int| 0 <= i < text.len() && is_lower(#[trigger] text[i])
}

/// The notation of `text`: the first of these that fits, in this order: a name
/// where it holds a lower-case letter, a percentile where it holds `%`, a
/// decimal where it holds a period, else an integer.
pub open spec fn grammar_of(text: Seq<u8>) -> Grammar {
    if has_lower(text) {
        Grammar::Name
    } else if text.contains(37u8) {
        Grammar::Percentile
    } else if text.contains(46u8) {
        Grammar::Decimal
    } else {
        Grammar::Integer
    }
}

/// The letters that stand for `x`, most significant first: bijective base 26,
/// `a` for 1 to `z` for 26, and no letter for 0.
pub open spec fn name_bytes(x: nat) -> Seq<u8>
    decreases x,
{
    if x == 0 {
        Seq::empty()
    } else {
        name_bytes(((x - 1) / 26) as nat).push((97 + (x - 1) % 26) as u8)
    }
}

/// The number that the letters stand for.
pub open spec fn name_value(letters: Seq<u8>) -> nat
    decreases letters.len(),
{
    if letters.len() == 0 {
        0
    } else {
        name_value(letters.drop_last()) * 26 + (letters.last() - 96) as nat
    }
}

/// The length of the run of lower-case letters that `text` has from `from` on.
pub open spec fn lower_run(text: Seq<u8>, from: int) -> int
    recommends
        0 <= from <= text.len(),
    decreases text.len() - from,
{
    if from >= text.len() || !is_lower(text[from]) {
        0
    } else {
        1 + lower_run(text, from + 1)
    }
}

/// The sat that the name `text` names. `NameRange` where the letters up to the
/// first byte that is no letter stand for more than the supply; else
/// `NameCharacter` where there is such a byte.
pub open spec fn named(text: Seq<u8>) -> Result<u64, ErrorKind> {
    let run = lower_run(text, 0);
    if name_value(text.subrange(0, run)) > Sat::SUPPLY {
        Err(ErrorKind::NameRange)
    } else if run < text.len() {
        Err(ErrorKind::NameCharacter)
    } else {
        Ok((Sat::SUPPLY - name_value(text)) as u64)
    }
}

/// The sat that the number `text` names.
pub open spec fn numbered(text: Seq<u8>) -> Result<u64, ErrorKind> {
    match parsed_u64(text) {
        Err(source) => Err(ErrorKind::ParseInt { source }),
        Ok(n) => if n >= Sat::SUPPLY {
            Err(ErrorKind::IntegerRange)
        } else {
            Ok(n)
        },
    }
}

/// The sat that the decimal `text` names under `table`: the sat at the offset
/// behind the first period, in the block at the height before it.
pub open spec fn decimal_named(table: Seq<u64>, text: Seq<u8>) -> Result<u64, ErrorKind> {
    let period = first_at(text, 46, 0);
    if period >= text.len() {
        Err(ErrorKind::MissingPeriod)
    } else {
        match parsed_u32(text.subrange(0, period)) {
            Err(source) => Err(ErrorKind::ParseInt { source }),
            Ok(height) => match parsed_u64(text.subrange(period + 1, text.len() as int)) {
                Err(source) => Err(ErrorKind::ParseInt { source }),
                Ok(offset) => if height >= table.len() {
                    Err(ErrorKind::OutOfRange)
                } else if offset >= subsidy_at(table, height as int) {
                    Err(ErrorKind::BlockOffset)
                } else {
                    Ok((cumulative_at(table, height as int) + offset) as u64)
                },
            },
        }
    }
}

/// Whether the first `end` bytes of `text` are the number of a percentile: a
/// minus sign or none, digits, and a period with digits behind it or none.
pub open spec fn is_percent_number(text: Seq<u8>, end: int) -> bool {
    let start: int = if 0 < end && text[0] == 45 {
        1
    } else {
        0
    };
    let point = start + digit_run(text, start, end);
    let rest = digit_run(text, point + 1, end);
    &&& point > start
    &&& point == end || (text[point] == 46 && rest >= 1 && point + 1 + rest == end)
}

/// What is wrong with the form of the percentile `text`, if anything:
/// `Percentile` where it does not end in `%`, `ParseFloat` where what stands
/// before the `%` is no number.
pub open spec fn percentile_fault(text: Seq<u8>) -> Option<ErrorKind> {
    if text.len() == 0 || text.last() != 37 {
        Some(ErrorKind::Percentile)
    } else if !is_percent_number(text, text.len() - 1) {
        Some(ErrorKind::ParseFloat)
    } else {
        None
    }
}

/// The sat that the percentile `text` names, given what floating-point
/// arithmetic made of its number.
pub open spec fn percentile_named(text: Seq<u8>, value: PercentileValue) -> Result<
    u64,
    ErrorKind,
> {
    if let Some(kind) = percentile_fault(text) {
        Err(kind)
    } else {
        match value {
            PercentileValue::Malformed => Err(ErrorKind::ParseFloat),
            PercentileValue::Negative => Err(ErrorKind::Percentile),
            PercentileValue::Ordinal(n) => if n >= Sat::SUPPLY {
                Err(ErrorKind::Percentile)
            } else {
                Ok(n)
            },
        }
    }
}

/// What reading `text` under `table` comes to, by its notation.
pub open spec fn read(table: Seq<u64>, text: Seq<u8>) -> Result<Parsed, ErrorKind> {
    match grammar_of(text) {
        Grammar::Name => match named(text) {
            Ok(n) => Ok(Parsed::Sat(Sat(n))),
            Err(e) => Err(e),
        },
        Grammar::Percentile => match percentile_fault(text) {
            Some(kind) => Err(kind),
            None => Ok(Parsed::Percentile),
        },
        Grammar::Decimal => match decimal_named(table, text) {
            Ok(n) => Ok(Parsed::Sat(Sat(n))),
            Err(e) => Err(e),
        },
        Grammar::Integer => match numbered(text) {
            Ok(n) => Ok(Parsed::Sat(Sat(n))),
            Err(e) => Err(e),
        },
    }
}

/// How far `sat` lies behind the first sat of its epoch.
pub open spec fn epoch_position_of(sat: u64) -> int {
    sat - starting_sat_of(epoch_of_sat(sat))
}

/// The position of `sat` in its block under `table`: its epoch position modulo
/// the block's reward. There is none where the reward is zero.
pub open spec fn third_of(table: Seq<u64>, sat: u64) -> Option<u64> {
    let reward = subsidy_at(table, height_of(table, sat) as int);
    if reward == 0 {
        None
    } else {
        Some((epoch_position_of(sat) % reward) as u64)
    }
}

/// What the kind of error says.
pub open spec fn kind_message(kind: ErrorKind) -> Seq<char> {
    match kind {
        ErrorKind::IntegerRange => "invalid integer range"@,
        ErrorKind::NameRange => "invalid name range"@,
        ErrorKind::NameCharacter => "invalid character in name"@,
        ErrorKind::Percentile => "invalid percentile"@,
        ErrorKind::BlockOffset => "invalid block offset"@,
        ErrorKind::MissingPeriod => "missing period"@,
        ErrorKind::OutOfRange => "height out of range"@,
        ErrorKind::ParseInt { source } => "invalid integer: "@ + int_error_message(source),
        ErrorKind::ParseFloat => "invalid float"@,
    }
}

/// What the numeral error says.
pub open spec fn int_error_message(source: IntError) -> Seq<char> {
    match source {
        IntError::Empty => "cannot parse integer from empty string"@,
        IntError::InvalidDigit => "invalid digit found in string"@,
        IntError::Overflow => "number too large to fit in target type"@,
    }
}

impl ErrorKind {
    /// The error of this kind for the text `input`.
    pub fn error(self, input: &str) -> (e: Error)
        ensures
            e.kind == self,
            e.input@ == input@,
    {
        Error { input: String::from_str(input), kind: self }
    }

    /// What this kind of error says.
    pub fn to_string(&self) -> (message: String)
        ensures
            message@ == kind_message(*self),
    {
        match self {
            ErrorKind::IntegerRange => String::from_str("invalid integer range"),
            ErrorKind::NameRange => String::from_str("invalid name range"),
            ErrorKind::NameCharacter => String::from_str("invalid character in name"),
            ErrorKind::Percentile => String::from_str("invalid percentile"),
            ErrorKind::BlockOffset => String::from_str("invalid block offset"),
            ErrorKind::MissingPeriod => String::from_str("missing period"),
            ErrorKind::OutOfRange => String::from_str("height out of range"),
            ErrorKind::ParseInt { source } => {
                let mut message: String = String::from_str("invalid integer: ");
                match source {
                    IntError::Empty => message.append("cannot parse integer from empty string"),
                    IntError::InvalidDigit => message.append("invalid digit found in string"),
                    IntError::Overflow => message.append("number too large to fit in target type"),
                }
                message
            },
            ErrorKind::ParseFloat => String::from_str("invalid float"),
        }
    }
}

impl Error {
    /// The text that was read, and what was wrong with it.
    pub fn to_string(&self) -> (message: String)
        ensures
            message@ == "failed to parse sat `"@ + self.input@ + "`: "@ + kind_message(self.kind),
    {
        let mut message: String = String::from_str("failed to parse sat `");
        message.append(self.input.as_str());
        message.append("`: ");
        let kind: String = self.kind.to_string();
        message.append(kind.as_str());
        message
    }
}

impl Sat {
    /// The number of sats that will ever exist.
    pub const SUPPLY: u64 = 50000000000000000;

    /// The last sat.
    pub fn last() -> (r: Sat)
        ensures
            r == Sat((Sat::SUPPLY - 1) as u64),
    {
        Sat(Sat::SUPPLY - 1)
    }

    /// The sat as a number.
    pub fn n(self) -> (n: u64)
        ensures
            n == self.0,
    {
        self.0
    }

    /// The height of the block that holds this sat.
    pub fn height(self, table: &SatsSubsidy) -> (h: Height)
        ensures
            h.0 == height_of(table@, self.0),
            h.0 < table@.len(),
    {
        table.height_from_sat(self)
    }

    /// The cycle of this sat: its epoch divided by the epochs in a cycle.
    pub fn cycle(self) -> (c: u32)
        ensures
            c == epoch_of_sat(self.0) / CYCLE_EPOCHS,
    {
        Epoch::from(self).0 / CYCLE_EPOCHS
    }

    /// Whether this sat lies in the tenth run of fifty coins.
    pub fn nineball(self) -> (r: bool)
        ensures
            r == (50 * COIN_VALUE * 9 <= self.0 < 50 * COIN_VALUE * 10),
    {
        self.0 >= 50 * COIN_VALUE * 9 && self.0 < 50 * COIN_VALUE * 10
    }

    /// The epoch of this sat.
    pub fn epoch(self) -> (e: Epoch)
        ensures
            e.0 == epoch_of_sat(self.0),
    {
        Epoch::from(self)
    }

    /// The position of this sat in its block: its epoch position modulo the
    /// block's reward. `None` where the reward is zero.
    pub fn third(self, table: &SatsSubsidy) -> (r: Option<u64>)
        ensures
            r == third_of(table@, self.0),
    {
        let height: Height = table.height_from_sat(self);
        match table.subsidy_of(height) {
            Ok(reward) => {
                if reward == 0 {
                    None
                } else {
                    Some(self.epoch_position() % reward)
                }
            },
            Err(_) => None,
        }
    }

    /// How far this sat lies behind the first sat of its epoch.
    pub fn epoch_position(self) -> (p: u64)
        ensures
            p == epoch_position_of(self.0),
    {
        self.0 - self.epoch().starting_sat().0
    }

    /// This sat as a height and an offset. `None` where its block's reward is
    /// zero.
    pub fn decimal(self, table: &SatsSubsidy) -> (r: Option<DecimalSat>)
        ensures
            match r {
                Some(decimal) => third_of(table@, self.0) == Some(decimal.offset)
                    && decimal.height.0 == height_of(table@, self.0),
                None => third_of(table@, self.0) is None,
            },
    {
        DecimalSat::from_sat(self, table)
    }

    /// The class of this sat.
    pub fn rarity(self, table: &SatsSubsidy) -> (r: Rarity)
        ensures
            r == rarity_of(table@, self.0),
    {
        Rarity::from_sat(self, table)
    }

    /// Whether this sat is common: the first of neither a block, an epoch nor
    /// the supply. Agrees with `rarity` on every sat.
    pub fn common(self, table: &SatsSubsidy) -> (r: bool)
        ensures
            r == (rarity_of(table@, self.0) == Rarity::Common),
    {
        if self.0 == 0 || self.0 == self.epoch().starting_sat().0 {
            return false;
        }
        let height: Height = table.height_from_sat(self);
        match table.sat_from_height(height) {
            Ok(first) => first.0 != self.0,
            Err(_) => true,
        }
    }

    /// Whether this sat is the first of a coin.
    pub fn coin(self) -> (r: bool)
        ensures
            r == (self.0 % COIN_VALUE == 0),
    {
        self.0 % COIN_VALUE == 0
    }

    /// The name of this sat: the letters that stand for the number of sats from
    /// this one to the end of the supply. The last sat is `a`, the first has
    /// the longest name.
    pub fn name(self) -> (name: String)
        requires
            self.0 <= Sat::SUPPLY,
        ensures
            name@ == ascii(name_bytes((Sat::SUPPLY - self.0) as nat)),
            encode_utf8(name@) == name_bytes((Sat::SUPPLY - self.0) as nat),
    {
        let ghost start: nat = (Sat::SUPPLY - self.0) as nat;
        let mut x: u64 = Sat::SUPPLY - self.0;
        let mut letters: Vec<u8> = Vec::new();
        assert(name_bytes(start) =~= name_bytes(x as nat) + reversed(letters@));
        while x > 0
            invariant
                name_bytes(start) == name_bytes(x as nat) + reversed(letters@),
                all_ascii(letters@),
            decreases x,
        {
            let ghost before = letters@;
            let letter: u8 = 97 + ((x - 1) % 26) as u8;
            letters.push(letter);
            assert(name_bytes(x as nat) =~= name_bytes(((x - 1) / 26) as nat) + seq![letter]);
            assert(reversed(letters@) =~= seq![letter] + reversed(before));
            assert(name_bytes(start) =~= name_bytes(((x - 1) / 26) as nat) + reversed(letters@));
            x = (x - 1) / 26;
        }
        assert(name_bytes(start) =~= reversed(letters@));
        string_from_reversed(&letters)
    }

    /// The notation that `s` is written in.
    pub fn grammar(s: &str) -> (g: Grammar)
        ensures
            g == grammar_of(s.spec_bytes()),
    {
        let bytes: &[u8] = s.as_bytes();
        let n: usize = bytes.len();
        let mut i: usize = 0;
        while i < n
            invariant
                i <= n,
                n == bytes@.len(),
                bytes@ == s.spec_bytes(),
                forall|j: int| 0 <= j < i ==> !is_lower(#[trigger] bytes@[j]),
            decreases n - i,
        {
            if 97 <= bytes[i] && bytes[i] <= 122 {
                assert(is_lower(bytes@[i as int]));
                return Grammar::Name;
            }
            i = i + 1;
        }
        assert(!has_lower(bytes@));
        let percent: usize = find_byte(bytes, 37, 0);
        proof {
            lemma_contains(bytes@, 37);
        }
        if percent < n {
            return Grammar::Percentile;
        }
        let period: usize = find_byte(bytes, 46, 0);
        proof {
            lemma_contains(bytes@, 46);
        }
        if period < n {
            return Grammar::Decimal;
        }
        Grammar::Integer
    }

    /// The sat that the name `s` names.
    pub fn from_name(s: &str) -> (r: Result<Sat, Error>)
        ensures
            match r {
                Ok(sat) => named(s.spec_bytes()) == Ok::<u64, ErrorKind>(sat.0),
                Err(e) => named(s.spec_bytes()) == Err::<u64, ErrorKind>(e.kind) && e.input@ == s@,
            },
    {
        let bytes: &[u8] = s.as_bytes();
        let n: usize = bytes.len();
        let mut x: u64 = 0;
        let mut i: usize = 0;
        while i < n
            invariant
                i <= n,
                n == bytes@.len(),
                bytes@ == s.spec_bytes(),
                forall|j: int| 0 <= j < i ==> is_lower(#[trigger] bytes@[j]),
                x == name_value(bytes@.subrange(0, i as int)),
                x <= Sat::SUPPLY,
            decreases n - i,
        {
            let b: u8 = bytes[i];
            if 97 <= b && b <= 122 {
                proof {
                    let longer = bytes@.subrange(0, i + 1);
                    assert(longer.drop_last() =~= bytes@.subrange(0, i as int));
                    lemma_lower_run(bytes@, i + 1);
                    lemma_lower_run_bounds(bytes@, i + 1);
                    let run = lower_run(bytes@, 0);
                    lemma_lower_run_bounds(bytes@, 0);
                    lemma_name_value_grows(bytes@.subrange(0, run), i + 1);
                    assert(bytes@.subrange(0, run).subrange(0, i + 1) =~= longer);
                }
                x = x * 26 + (b - 96) as u64;
                if x > Sat::SUPPLY {
                    return Err(ErrorKind::NameRange.error(s));
                }
            } else {
                proof {
                    lemma_lower_run(bytes@, i as int);
                }
                return Err(ErrorKind::NameCharacter.error(s));
            }
            i = i + 1;
        }
        proof {
            lemma_lower_run(bytes@, n as int);
            assert(bytes@.subrange(0, n as int) =~= bytes@);
        }
        Ok(Sat(Sat::SUPPLY - x))
    }

    /// The sat that the decimal `decimal` names: a height, a period and an
    /// offset into the block at that height.
    pub fn from_decimal(decimal: &str, table: &SatsSubsidy) -> (r: Result<Sat, Error>)
        ensures
            match r {
                Ok(sat) => decimal_named(table@, decimal.spec_bytes()) == Ok::<u64, ErrorKind>(
                    sat.0,
                ),
                Err(e) => decimal_named(table@, decimal.spec_bytes()) == Err::<u64, ErrorKind>(
                    e.kind,
                ) && e.input@ == decimal@,
            },
    {
        let bytes: &[u8] = decimal.as_bytes();
        let n: usize = bytes.len();
        let period: usize = find_byte(bytes, 46, 0);
        if period >= n {
            return Err(ErrorKind::MissingPeriod.error(decimal));
        }
        let height: Height = match crate::numeral::parse_u64_within(bytes, 0, period) {
            Ok(h) => {
                if h > 0xffff_ffff {
                    return Err(ErrorKind::ParseInt { source: IntError::Overflow }.error(decimal));
                }
                Height(h as u32)
            },
            Err(source) => {
                return Err(ErrorKind::ParseInt { source }.error(decimal));
            },
        };
        let offset: u64 = match crate::numeral::parse_u64_within(bytes, period + 1, n) {
            Ok(offset) => offset,
            Err(source) => {
                return Err(ErrorKind::ParseInt { source }.error(decimal));
            },
        };
        let reward: u64 = match table.subsidy_of(height) {
            Ok(reward) => reward,
            Err(_) => {
                return Err(ErrorKind::OutOfRange.error(decimal));
            },
        };
        if offset >= reward {
            return Err(ErrorKind::BlockOffset.error(decimal));
        }
        match table.sat_from_height(height) {
            Ok(first) => Ok(Sat(first.0 + offset)),
            Err(_) => Err(ErrorKind::OutOfRange.error(decimal)),
        }
    }

    /// The sat that the number `s` names.
    pub fn from_integer(s: &str) -> (r: Result<Sat, Error>)
        ensures
            match r {
                Ok(sat) => numbered(s.spec_bytes()) == Ok::<u64, ErrorKind>(sat.0),
                Err(e) => numbered(s.spec_bytes()) == Err::<u64, ErrorKind>(e.kind) && e.input@
                    == s@,
            },
    {
        match parse_u64(s.as_bytes()) {
            Ok(n) => {
                if n > Sat::SUPPLY - 1 {
                    Err(ErrorKind::IntegerRange.error(s))
                } else {
                    Ok(Sat(n))
                }
            },
            Err(source) => Err(ErrorKind::ParseInt { source }.error(s)),
        }
    }

    /// What is wrong with the form of the percentile `percentile`, if
    /// anything: it must end in `%`, and a number must stand before the `%`.
    pub fn percentile_form(percentile: &str) -> (fault: Option<ErrorKind>)
        ensures
            fault == percentile_fault(percentile.spec_bytes()),
    {
        let bytes: &[u8] = percentile.as_bytes();
        let n: usize = bytes.len();
        if n == 0 || bytes[n - 1] != 37 {
            return Some(ErrorKind::Percentile);
        }
        let end: usize = n - 1;
        let start: usize = if 0 < end && bytes[0] == 45 {
            1
        } else {
            0
        };
        let point: usize = skip_digits(bytes, start, end);
        if point == start {
            return Some(ErrorKind::ParseFloat);
        }
        if point == end {
            return None;
        }
        if bytes[point] != 46 {
            return Some(ErrorKind::ParseFloat);
        }
        let last: usize = skip_digits(bytes, point + 1, end);
        if last == point + 1 || last != end {
            return Some(ErrorKind::ParseFloat);
        }
        None
    }

    /// The sat that the percentile `percentile` names, given what
    /// floating-point arithmetic made of the number before its `%`.
    pub fn from_percentile(percentile: &str, value: PercentileValue) -> (r: Result<Sat, Error>)
        ensures
            match r {
                Ok(sat) => percentile_named(percentile.spec_bytes(), value) == Ok::<
                    u64,
                    ErrorKind,
                >(sat.0),
                Err(e) => percentile_named(percentile.spec_bytes(), value) == Err::<
                    u64,
                    ErrorKind,
                >(e.kind) && e.input@ == percentile@,
            },
    {
        match Sat::percentile_form(percentile) {
            Some(kind) => {
                return Err(kind.error(percentile));
            },
            None => {},
        }
        match value {
            PercentileValue::Malformed => Err(ErrorKind::ParseFloat.error(percentile)),
            PercentileValue::Negative => Err(ErrorKind::Percentile.error(percentile)),
            PercentileValue::Ordinal(ordinal) => {
                if ordinal > Sat::SUPPLY - 1 {
                    Err(ErrorKind::Percentile.error(percentile))
                } else {
                    Ok(Sat(ordinal))
                }
            },
        }
    }

    /// Reads `s` in the notation it is written in. A well-formed percentile is
    /// handed back unread: `from_percentile` finishes it.
    pub fn from_str(s: &str, table: &SatsSubsidy) -> (r: Result<Parsed, Error>)
        ensures
            match r {
                Ok(parsed) => read(table@, s.spec_bytes()) == Ok::<Parsed, ErrorKind>(parsed),
                Err(e) => read(table@, s.spec_bytes()) == Err::<Parsed, ErrorKind>(e.kind)
                    && e.input@ == s@,
            },
    {
        match Sat::grammar(s) {
            Grammar::Name => match Sat::from_name(s) {
                Ok(sat) => Ok(Parsed::Sat(sat)),
                Err(e) => Err(e),
            },
            Grammar::Percentile => match Sat::percentile_form(s) {
                Some(kind) => Err(kind.error(s)),
                None => Ok(Parsed::Percentile),
            },
            Grammar::Decimal => match Sat::from_decimal(s, table) {
                Ok(sat) => Ok(Parsed::Sat(sat)),
                Err(e) => Err(e),
            },
            Grammar::Integer => match Sat::from_integer(s) {
                Ok(sat) => Ok(Parsed::Sat(sat)),
                Err(e) => Err(e),
            },
        }
    }
}

impl PartialEq<u64> for Sat {
    fn eq(&self, other: &u64) -> (r: bool) {
        self.0 == *other
    }
}

impl PartialEqSpecImpl<u64> for Sat {
    open spec fn obeys_eq_spec() -> bool {
        true
    }

    open spec fn eq_spec(&self, other: &u64) -> bool {
        self.0 == *other
    }
}

impl PartialOrd<u64> for Sat {
    fn partial_cmp(&self, other: &u64) -> (r: Option<Ordering>) {
        if self.0 < *other {
            Some(Ordering::Less)
        } else if self.0 == *other {
            Some(Ordering::Equal)
        } else {
            Some(Ordering::Greater)
        }
    }
}

impl PartialOrdSpecImpl<u64> for Sat {
    open spec fn obeys_partial_cmp_spec() -> bool {
        true
    }

    open spec fn partial_cmp_spec(&self, other: &u64) -> Option<Ordering> {
        if self.0 < *other {
            Some(Ordering::Less)
        } else if self.0 == *other {
            Some(Ordering::Equal)
        } else {
            Some(Ordering::Greater)
        }
    }
}

impl core::ops::Add<u64> for Sat {
    type Output = Sat;

    fn add(self, other: u64) -> (r: Sat) {
        Sat(self.0 + other)
    }
}

impl AddSpecImpl<u64> for Sat {
    open spec fn obeys_add_spec() -> bool {
        true
    }

    open spec fn add_req(self, other: u64) -> bool {
        self.0 + other <= u64::MAX
    }

    open spec fn add_spec(self, other: u64) -> Sat {
        Sat((self.0 + other) as u64)
    }
}

impl core::ops::AddAssign<u64> for Sat {
    fn add_assign(&mut self, other: u64)
        requires
            old(self).0 + other <= u64::MAX,
        ensures
            final(self).0 == old(self).0 + other,
    {
        *self = Sat(self.0 + other);
    }
}

/// Where a run of lower-case letters reaches `upto`, it started at the start.
proof fn lemma_lower_run(text: Seq<u8>, upto: int)
    requires
        0 <= upto <= text.len(),
        forall|j: int| 0 <= j < upto ==> is_lower(#[trigger] text[j]),
    ensures
        lower_run(text, 0) == upto + lower_run(text, upto),
    decreases upto,
{
    if upto > 0 {
        lemma_lower_run(text, upto - 1);
    }
}

/// A run of lower-case letters ends within the text, holds only lower-case
/// letters, and no lower-case letter follows it.
pub proof fn lemma_lower_run_bounds(text: Seq<u8>, from: int)
    requires
        0 <= from <= text.len(),
    ensures
        0 <= lower_run(text, from) <= text.len() - from,
        forall|j: int| from <= j < from + lower_run(text, from) ==> is_lower(#[trigger] text[j]),
        from + lower_run(text, from) < text.len() ==> !is_lower(
            text[from + lower_run(text, from)],
        ),
    decreases text.len() - from,
{
    if from < text.len() && is_lower(text[from]) {
        lemma_lower_run_bounds(text, from + 1);
    }
}

/// A text holds `byte` exactly where `first_at` finds it.
proof fn lemma_contains(text: Seq<u8>, byte: u8)
    ensures
        text.contains(byte) <==> first_at(text, byte, 0) < text.len(),
{
    crate::text::lemma_first_at(text, byte, 0);
    let at = first_at(text, byte, 0);
    if at < text.len() {
        assert(text[at] == byte);
    }
}

/// Longer names stand for no smaller numbers.
pub proof fn lemma_name_value_grows(letters: Seq<u8>, k: int)
    requires
        0 <= k <= letters.len(),
        forall|j: int| 0 <= j < letters.len() ==> is_lower(#[trigger] letters[j]),
    ensures
        name_value(letters.subrange(0, k)) <= name_value(letters),
    decreases letters.len() - k,
{
    if k == letters.len() {
        assert(letters.subrange(0, k) =~= letters);
    } else {
        lemma_name_value_grows(letters.drop_last(), k);
        assert(letters.drop_last().subrange(0, k) =~= letters.subrange(0, k));
        assert(is_lower(letters[letters.len() - 1]));
    }
}

/// The letters that stand for a number are lower-case letters and stand for
/// that number.
pub proof fn lemma_name_bytes(x: nat)
    ensures
        forall|j: int| 0 <= j < name_bytes(x).len() ==> is_lower(#[trigger] name_bytes(x)[j]),
        name_value(name_bytes(x)) == x,
        x >= 1 ==> name_bytes(x).len() >= 1,
    decreases x,
{
    if x > 0 {
        let q = ((x - 1) / 26) as nat;
        lemma_name_bytes(q);
        let letters = name_bytes(x);
        assert(letters.drop_last() =~= name_bytes(q));
        assert forall|j: int| 0 <= j < letters.len() implies is_lower(#[trigger] letters[j]) by {
            if j < letters.len() - 1 {
                assert(letters[j] == name_bytes(q)[j]);
            }
        }
    }
}

/// Lower-case letters are the letters that stand for the number they stand
/// for: no two names stand for one number.
pub proof fn lemma_name_value(letters: Seq<u8>)
    requires
        forall|j: int| 0 <= j < letters.len() ==> is_lower(#[trigger] letters[j]),
    ensures
        name_bytes(name_value(letters)) == letters,
    decreases letters.len(),
{
    if letters.len() > 0 {
        lemma_name_value(letters.drop_last());
        assert(is_lower(letters[letters.len() - 1]));
        let v = name_value(letters.drop_last());
        let d = (letters.last() - 96) as nat;
        let x = v * 26 + d;
        assert((x - 1) / 26 == v && (x - 1) % 26 == d - 1) by (nonlinear_arith)
            requires
                x == v * 26 + d,
                1 <= d <= 26,
                v >= 0,
        ;
        assert(name_bytes(x) =~= letters.drop_last().push(letters.last()));
        assert(letters.drop_last().push(letters.last()) =~= letters);
    }
}

/// Round trip through the name: the name of a sat names that sat.
pub proof fn lemma_name_round_trip(sat: u64)
    requires
        sat <= Sat::SUPPLY,
    ensures
        named(name_bytes((Sat::SUPPLY - sat) as nat)) == Ok::<u64, ErrorKind>(sat),
{
    let letters = name_bytes((Sat::SUPPLY - sat) as nat);
    lemma_name_bytes((Sat::SUPPLY - sat) as nat);
    lemma_lower_run(letters, letters.len() as int);
    assert(letters.subrange(0, letters.len() as int) =~= letters);
}

/// Round trip through the name, by way of the notation: read as a text, the
/// name of a sat below the supply is a name and names that sat.
pub proof fn lemma_name_reads_back(table: Seq<u64>, sat: u64)
    requires
        sat < Sat::SUPPLY,
    ensures
        read(table, name_bytes((Sat::SUPPLY - sat) as nat)) == Ok::<Parsed, ErrorKind>(
            Parsed::Sat(Sat(sat)),
        ),
{
    let letters = name_bytes((Sat::SUPPLY - sat) as nat);
    lemma_name_bytes((Sat::SUPPLY - sat) as nat);
    lemma_name_round_trip(sat);
    assert(is_lower(letters[0]));
}

/// A decimal numeral holds no letter, no `%` and no period.
proof fn lemma_digits_plain(n: nat)
    ensures
        !has_lower(decimal_digits(n)),
        !decimal_digits(n).contains(37u8),
        !decimal_digits(n).contains(46u8),
{
    lemma_decimal_digits(n);
    let d = decimal_digits(n);
    assert forall|i: int| 0 <= i < d.len() implies !is_lower(#[trigger] d[i]) && d[i] != 37 && d[i]
        != 46 by {
        assert(is_digit(d[i]));
    }
}

/// Round trip through the number: read as a text, the decimal numeral of a sat
/// below the supply is an integer and names that sat.
pub proof fn lemma_integer_reads_back(table: Seq<u64>, sat: u64)
    requires
        sat < Sat::SUPPLY,
    ensures
        read(table, decimal_digits(sat as nat)) == Ok::<Parsed, ErrorKind>(Parsed::Sat(Sat(sat))),
{
    lemma_digits_plain(sat as nat);
    lemma_decimal_digits(sat as nat);
}

/// Round trip through the decimal, for the sats whose position in the block,
/// counted from the epoch's first sat, is their distance from the block's
/// first sat: read as a text, the decimal of such a sat names that sat.
pub proof fn lemma_decimal_reads_back(table: Seq<u64>, sat: u64)
    requires
        table_wf(table),
        third_of(table, sat) is Some,
        cumulative_at(table, height_of(table, sat) as int) + third_of(table, sat)->0 == sat,
    ensures
        read(table, decimal_text(height_of(table, sat) as u32, third_of(table, sat)->0)) == Ok::<
            Parsed,
            ErrorKind,
        >(Parsed::Sat(Sat(sat))),
{
    let h = height_of(table, sat);
    let offset = third_of(table, sat)->0;
    lemma_height_of(table, sat);
    let high = decimal_digits(h);
    let low = decimal_digits(offset as nat);
    let text = decimal_text(h as u32, offset);
    lemma_digits_plain(h);
    lemma_digits_plain(offset as nat);
    lemma_decimal_digits(h);
    lemma_decimal_digits(offset as nat);
    assert forall|i: int| 0 <= i < text.len() implies !is_lower(#[trigger] text[i]) && text[i]
        != 37 by {
        if i < high.len() {
            assert(text[i] == high[i]);
            assert(is_digit(high[i]));
        } else if i > high.len() {
            assert(text[i] == low[i - high.len() - 1]);
            assert(is_digit(low[i - high.len() - 1]));
        }
    }
    assert forall|i: int| 0 <= i < high.len() implies text[i] != 46 by {
        assert(text[i] == high[i]);
        assert(is_digit(high[i]));
    }
    assert(text[high.len() as int] == 46);
    lemma_first_at_is(text, 46, 0, high.len() as int);
    assert(text.subrange(0, high.len() as int) =~= high);
    assert(text.subrange(high.len() as int + 1, text.len() as int) =~= low);
    let reward = subsidy_at(table, h as int);
    lemma_cumulative_ordered(table, 0, h as int);
    if h > 0 {
        lemma_cumulative_ordered(table, h - 1, h as int);
    }
    assert(0 <= epoch_position_of(sat) % reward < reward) by (nonlinear_arith)
        requires
            reward > 0,
    ;
}

} // verus!
