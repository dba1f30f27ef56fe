//! Decimal numerals: reading a number from ASCII digits and writing one.

use vstd::prelude::*;
use vstd::utf8::encode_utf8;
use crate::text::{all_ascii, ascii, reversed, string_from_reversed};

verus! {

/// Why a text is no decimal numeral of the wanted width.
#[derive(Clone, Copy, Debug, PartialEq, Eq, Structural)]
pub enum IntError {
    /// The text is empty.
    Empty,
    /// A byte of the text is no ASCII digit.
    InvalidDigit,
    /// The digits stand for a number that does not fit.
    Overflow,
}

/// Whether `b` is an ASCII digit.
pub open spec fn is_digit(b: u8) -> bool {
    48 <= b <= 57
}

/// Whether every byte of `text` is an ASCII digit.
pub open spec fn all_digits(text: Seq<u8>) -> bool {
    forall|i: int| 0 <= i < text.len() ==> is_digit(#[trigger] text[i])
}

/// The number that the digits stand for, most significant first.
pub open spec fn digits_value(digits: Seq<u8>) -> nat
    decreases digits.len(),
{
    if digits.len() == 0 {
        0
    } else {
        digits_value(digits.drop_last()) * 10 + (digits.last() - 48) as nat
    }
}

/// The number below `bound` that `text` is the decimal numeral of: one or more
/// ASCII digits, nothing else.
pub open spec fn parsed(text: Seq<u8>, bound: nat) -> Result<nat, IntError> {
    if text.len() == 0 {
        Err(IntError::Empty)
    } else if !all_digits(text) {
        Err(IntError::InvalidDigit)
    } else if digits_value(text) >= bound {
        Err(IntError::Overflow)
    } else {
        Ok(digits_value(text))
    }
}

/// What `parsed` gives for a `u64`.
pub open spec fn parsed_u64(text: Seq<u8>) -> Result<u64, IntError> {
    match parsed(text, 0x1_0000_0000_0000_0000) {
        Ok(n) => Ok(n as u64),
        Err(e) => Err(e),
    }
}

/// What `parsed` gives for a `u32`.
pub open spec fn parsed_u32(text: Seq<u8>) -> Result<u32, IntError> {
    match parsed(text, 0x1_0000_0000) {
        Ok(n) => Ok(n as u32),
        Err(e) => Err(e),
    }
}

/// How many ASCII digits `text` holds in a row from `from` on, before `end`.
pub open spec fn digit_run(text: Seq<u8>, from: int, end: int) -> int
    decreases end - from,
{
    if from < 0 || from >= end || from >= text.len() || !is_digit(text[from]) {
        0
    } else {
        1 + digit_run(text, from + 1, end)
    }
}

/// The index behind the ASCII digits that `bytes` holds in a row from `from`
/// on, before `end`.
pub fn skip_digits(bytes: &[u8], from: usize, end: usize) -> (to: usize)
    requires
        from <= end <= bytes@.len(),
    ensures
        to == from + digit_run(bytes@, from as int, end as int),
        from <= to <= end,
{
    let mut to: usize = from;
    while to < end && 48 <= bytes[to] && bytes[to] <= 57
        invariant
            from <= to <= end <= bytes@.len(),
            digit_run(bytes@, from as int, end as int) == (to - from) + digit_run(
                bytes@,
                to as int,
                end as int,
            ),
        decreases end - to,
    {
        to = to + 1;
    }
    to
}

/// Reads bytes `from..to` of `bytes` as a decimal numeral.
pub fn parse_u64_within(bytes: &[u8], from: usize, to: usize) -> (r: Result<u64, IntError>)
    requires
        from <= to <= bytes@.len(),
    ensures
        r == parsed_u64(bytes@.subrange(from as int, to as int)),
{
    let ghost text = bytes@.subrange(from as int, to as int);
    if from == to {
        return Err(IntError::Empty);
    }
    let mut acc: u64 = 0;
    let mut overflow: bool = false;
    let mut i: usize = from;
    while i < to
        invariant
            from <= i <= to <= bytes@.len(),
            text == bytes@.subrange(from as int, to as int),
            all_digits(text.subrange(0, i - from)),
            !overflow ==> acc == digits_value(text.subrange(0, i - from)),
            overflow ==> digits_value(text.subrange(0, i - from)) > u64::MAX,
        decreases to - i,
    {
        let b: u8 = bytes[i];
        assert(b == text[i - from]);
        if b < 48 || b > 57 {
            assert(!is_digit(text[i - from]));
            return Err(IntError::InvalidDigit);
        }
        let d: u64 = (b - 48) as u64;
        proof {
            let longer = text.subrange(0, i - from + 1);
            assert(longer.drop_last() =~= text.subrange(0, i - from));
            assert(longer.last() == b);
            assert forall|j: int| 0 <= j < longer.len() implies is_digit(#[trigger] longer[j]) by {
                if j < i - from {
                    assert(longer[j] == text.subrange(0, i - from)[j]);
                }
            }
        }
        if !overflow {
            if acc > (u64::MAX - d) / 10 {
                overflow = true;
            } else {
                acc = acc * 10 + d;
            }
        }
        i = i + 1;
    }
    assert(text.subrange(0, to - from) =~= text);
    if overflow {
        Err(IntError::Overflow)
    } else {
        Ok(acc)
    }
}

/// Reads `bytes` as the decimal numeral of a `u64`.
pub fn parse_u64(bytes: &[u8]) -> (r: Result<u64, IntError>)
    ensures
        r == parsed_u64(bytes@),
{
    assert(bytes@.subrange(0, bytes@.len() as int) =~= bytes@);
    parse_u64_within(bytes, 0, bytes.len())
}

/// Reads `bytes` as the decimal numeral of a `u32`.
pub fn parse_u32(bytes: &[u8]) -> (r: Result<u32, IntError>)
    ensures
        r == parsed_u32(bytes@),
{
    match parse_u64(bytes) {
        Ok(n) => {
            if n > 0xffff_ffff {
                Err(IntError::Overflow)
            } else {
                Ok(n as u32)
            }
        },
        Err(e) => Err(e),
    }
}

/// The decimal numeral of `n`: its digits, most significant first, with no
/// leading zero but for zero itself.
pub open spec fn decimal_digits(n: nat) -> Seq<u8>
    decreases n,
{
    if n < 10 {
        seq![(48 + n) as u8]
    } else {
        decimal_digits(n / 10).push((48 + n % 10) as u8)
    }
}

/// The decimal numeral of a number is made of digits and stands for that number.
pub proof fn lemma_decimal_digits(n: nat)
    ensures
        decimal_digits(n).len() >= 1,
        all_digits(decimal_digits(n)),
        digits_value(decimal_digits(n)) == n,
    decreases n,
{
    if n < 10 {
        let d = decimal_digits(n);
        assert(d.drop_last() =~= Seq::<u8>::empty());
        assert(digits_value(d.drop_last()) == 0);
    } else {
        lemma_decimal_digits(n / 10);
        let d = decimal_digits(n);
        assert(d.drop_last() =~= decimal_digits(n / 10));
        assert forall|i: int| 0 <= i < d.len() implies is_digit(#[trigger] d[i]) by {
            if i < d.len() - 1 {
                assert(d[i] == decimal_digits(n / 10)[i]);
            }
        }
    }
}

/// Reading the decimal numeral of a number below `bound` gives the number back.
pub proof fn lemma_parse_decimal_digits(n: nat, bound: nat)
    requires
        n < bound,
    ensures
        parsed(decimal_digits(n), bound) == Ok::<nat, IntError>(n),
{
    lemma_decimal_digits(n);
}

/// The decimal numeral of `n`.
pub fn u64_to_string(n: u64) -> (s: String)
    ensures
        s@ == ascii(decimal_digits(n as nat)),
        encode_utf8(s@) == decimal_digits(n as nat),
{
    let mut digits: Vec<u8> = Vec::new();
    digits.push(48 + (n % 10) as u8);
    let mut x: u64 = n / 10;
    assert(decimal_digits(n as nat) =~= (if x == 0 {
        Seq::<u8>::empty()
    } else {
        decimal_digits(x as nat)
    }) + reversed(digits@));
    while x > 0
        invariant
            decimal_digits(n as nat) == (if x == 0 {
                Seq::<u8>::empty()
            } else {
                decimal_digits(x as nat)
            }) + reversed(digits@),
            all_ascii(digits@),
        decreases x,
    {
        let ghost before = digits@;
        let digit: u8 = 48 + (x % 10) as u8;
        digits.push(digit);
        let ghost rest = if x / 10 == 0 {
            Seq::<u8>::empty()
        } else {
            decimal_digits((x / 10) as nat)
        };
        assert(decimal_digits(x as nat) =~= rest + seq![digit]);
        assert(reversed(digits@) =~= seq![digit] + reversed(before));
        assert(decimal_digits(n as nat) =~= rest + reversed(digits@));
        x = x / 10;
    }
    assert(decimal_digits(n as nat) =~= reversed(digits@));
    string_from_reversed(&digits)
}

} // verus!
