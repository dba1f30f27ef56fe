//! The table of cumulative issuance: for each height the coins minted up to
//! and including its block, and the search that finds the height of a sat.

use vstd::prelude::*;
use crate::COIN_VALUE;
use crate::height::Height;
use crate::numeral::{parse_u64_within, parsed_u64};
use crate::sat::Sat;
use crate::text::{find_byte, first_at, lemma_first_at};
use std::io::Read;

verus! {

/// The most coins that an entry of the table may count: the supply, in coins.
pub const MAX_COINS: u64 = 500_000_000;

/// The most entries that a table may hold: one for each height.
pub const MAX_ENTRIES: u64 = 0x1_0000_0000;

/// A height that the table does not cover.
#[derive(Clone, Copy, Debug, PartialEq, Eq, Structural)]
pub struct OutOfRange {
    pub height: u32,
}

/// Why a sequence of running totals is no table.
#[derive(Clone, Copy, Debug, PartialEq, Eq, Structural)]
pub enum TableError {
    /// There is no entry.
    Empty,
    /// There are more entries than heights.
    TooLong,
    /// The entry at `height` counts more coins than the supply holds.
    TooLarge { height: u32 },
    /// The entry at `height` is below the entry before it.
    Decreasing { height: u32 },
    /// The compressed data does not decode.
    Compressed,
}

/// The sats minted up to and including the block at height `h`.
pub open spec fn minted_through(table: Seq<u64>, h: int) -> int
    recommends
        0 <= h < table.len(),
{
    table[h] * COIN_VALUE
}

/// The sats minted before the block at height `h`, which is the number of the
/// block's first sat. The height just past the table has one too: the sats
/// minted in all.
pub open spec fn cumulative_at(table: Seq<u64>, h: int) -> int
    recommends
        0 <= h <= table.len(),
{
    if h <= 0 {
        0
    } else {
        minted_through(table, h - 1)
    }
}

/// The reward of the block at height `h`, in base units: what the running
/// total grew by at `h`.
pub open spec fn subsidy_at(table: Seq<u64>, h: int) -> int
    recommends
        0 <= h < table.len(),
{
    minted_through(table, h) - cumulative_at(table, h)
}

/// The running totals never decrease.
pub open spec fn monotone(table: Seq<u64>) -> bool {
    forall|i: int, j: int| 0 <= i <= j < table.len() ==> table[i] <= table[j]
}

/// No running total exceeds the supply.
pub open spec fn bounded(table: Seq<u64>) -> bool {
    forall|i: int| 0 <= i < table.len() ==> #[trigger] table[i] <= MAX_COINS
}

/// What makes a sequence of running totals a table.
pub open spec fn table_wf(table: Seq<u64>) -> bool {
    &&& 1 <= table.len() <= MAX_ENTRIES
    &&& monotone(table)
    &&& bounded(table)
}

/// The greatest height below `n` whose first sat is at most `value`; 0 when
/// there is none.
pub open spec fn last_at_most(table: Seq<u64>, value: u64, n: nat) -> nat
    recommends
        n <= table.len(),
    decreases n,
{
    if n == 0 {
        0
    } else if cumulative_at(table, n - 1) <= value {
        (n - 1) as nat
    } else {
        last_at_most(table, value, (n - 1) as nat)
    }
}

/// The height of the block that holds the sat `value`: the greatest height of
/// the table whose first sat is at most `value`. A sat past the table belongs
/// to the last height.
pub open spec fn height_of(table: Seq<u64>, value: u64) -> nat {
    last_at_most(table, value, table.len())
}

/// The first fault at or after height `from`: an entry above the supply, or an
/// entry below the one before it.
pub open spec fn defect_from(table: Seq<u64>, from: nat) -> Option<TableError>
    decreases table.len() - from,
{
    if from >= table.len() {
        None
    } else if table[from as int] > MAX_COINS {
        Some(TableError::TooLarge { height: from as u32 })
    } else if from > 0 && table[from as int] < table[from - 1] {
        Some(TableError::Decreasing { height: from as u32 })
    } else {
        defect_from(table, from + 1)
    }
}

/// Why `table` is no table, if it is none.
pub open spec fn table_defect(table: Seq<u64>) -> Option<TableError> {
    if table.len() == 0 {
        Some(TableError::Empty)
    } else if table.len() > MAX_ENTRIES {
        Some(TableError::TooLong)
    } else {
        defect_from(table, 0)
    }
}

/// Where the line that starts at `from` ends: at the next line feed, or at the
/// end of the text.
pub open spec fn line_end(text: Seq<u8>, from: int) -> int
    recommends
        0 <= from <= text.len(),
{
    first_at(text, 10, from)
}

/// Where the content of the line `from..end` ends: a carriage return before the
/// line feed belongs to the line ending.
pub open spec fn content_end(text: Seq<u8>, from: int, end: int) -> int {
    if end < text.len() && from < end && text[end - 1] == 13 {
        end - 1
    } else {
        end
    }
}

/// The numbers on the lines of `text` from byte `from` on, in order. A line
/// that is no decimal numeral of a `u64` is left out.
pub open spec fn text_entries(text: Seq<u8>, from: int) -> Seq<u64>
    recommends
        0 <= from <= text.len(),
    decreases text.len() - from,
    when 0 <= from <= text.len()
    via text_entries_decreases
{
    if from >= text.len() {
        Seq::empty()
    } else {
        let end = line_end(text, from);
        let head = match parsed_u64(text.subrange(from, content_end(text, from, end))) {
            Ok(n) => seq![n],
            Err(_) => Seq::empty(),
        };
        head + text_entries(text, if end < text.len() { end + 1 } else { end })
    }
}

#[via_fn]
proof fn text_entries_decreases(text: Seq<u8>, from: int) {
    if from < text.len() {
        lemma_first_at(text, 10, from);
    }
}

/// The table that `entries` make, or why they make none.
pub open spec fn table_from(entries: Seq<u64>) -> Result<Seq<u64>, TableError> {
    match table_defect(entries) {
        Some(e) => Err(e),
        None => Ok(entries),
    }
}

/// What the outside decoder makes of Brotli-compressed data: the decoded bytes,
/// or `None` where it reports an error.
pub uninterp spec fn brotli_decoded(data: Seq<u8>) -> Option<Seq<u8>>;

/// Runs `brotli::Decompressor` over `data` with a 4096-byte buffer and reads it
/// to its end. The contract names what comes out: the decoder is a function of
/// the data alone.
#[verifier::external_body]
fn decompress_brotli(data: &[u8]) -> (r: Option<Vec<u8>>)
    ensures
        match r {
            Some(bytes) => brotli_decoded(data@) == Some(bytes@),
            None => brotli_decoded(data@) is None,
        },
{
    let mut decompressed: Vec<u8> = Vec::new();
    let mut decompressor = brotli::Decompressor::new(data, 4096);
    match decompressor.read_to_end(&mut decompressed) {
        Ok(_) => Some(decompressed),
        Err(_) => None,
    }
}

/// The table of cumulative issuance.
#[derive(Debug)]
pub struct SatsSubsidy {
    coins: Vec<u64>,
}

impl View for SatsSubsidy {
    type V = Seq<u64>;

    /// The running totals, in coins, by height.
    closed spec fn view(&self) -> Seq<u64> {
        self.coins@
    }
}

impl SatsSubsidy {
    #[verifier::type_invariant]
    spec fn inv(self) -> bool {
        table_wf(self.coins@)
    }

    /// The table of the running totals `coins`, in coins by height. Fails on
    /// the first fault: no entry, more entries than heights, an entry above the
    /// supply, an entry below the one before it.
    pub fn new(coins: Vec<u64>) -> (r: Result<SatsSubsidy, TableError>)
        ensures
            match r {
                Ok(table) => table_from(coins@) == Ok::<Seq<u64>, TableError>(table@),
                Err(e) => table_from(coins@) == Err::<Seq<u64>, TableError>(e),
            },
    {
        let n: usize = coins.len();
        if n == 0 {
            return Err(TableError::Empty);
        }
        if n as u64 > MAX_ENTRIES {
            return Err(TableError::TooLong);
        }
        let mut i: usize = 0;
        while i < n
            invariant
                i <= n,
                n == coins@.len(),
                1 <= n <= MAX_ENTRIES,
                defect_from(coins@, 0) == defect_from(coins@, i as nat),
                forall|j: int| 0 <= j < i ==> #[trigger] coins@[j] <= MAX_COINS,
                forall|j: int| 0 < j < i ==> coins@[j - 1] <= #[trigger] coins@[j],
            decreases n - i,
        {
            if coins[i] > MAX_COINS {
                return Err(TableError::TooLarge { height: i as u32 });
            }
            if i > 0 && coins[i] < coins[i - 1] {
                return Err(TableError::Decreasing { height: i as u32 });
            }
            i = i + 1;
        }
        proof {
            lemma_steps_monotone(coins@);
        }
        Ok(SatsSubsidy { coins })
    }

    /// The table that the text `text` lists: one running total per line, in
    /// coins, the first line for height 0. Lines end in a line feed, with or
    /// without a carriage return before it; a line that is no decimal numeral
    /// is left out. Fails as `new` does.
    pub fn from_text(text: &[u8]) -> (r: Result<SatsSubsidy, TableError>)
        ensures
            match r {
                Ok(table) => table_from(text_entries(text@, 0)) == Ok::<Seq<u64>, TableError>(
                    table@,
                ),
                Err(e) => table_from(text_entries(text@, 0)) == Err::<Seq<u64>, TableError>(e),
            },
    {
        let n: usize = text.len();
        let mut coins: Vec<u64> = Vec::new();
        let mut from: usize = 0;
        while from < n
            invariant
                from <= n,
                n == text@.len(),
                text_entries(text@, 0) == coins@ + text_entries(text@, from as int),
            decreases n - from,
        {
            let end: usize = find_byte(text, 10, from);
            let mut stop: usize = end;
            if end < n && from < end && text[end - 1] == 13 {
                stop = end - 1;
            }
            let ghost before = coins@;
            match parse_u64_within(text, from, stop) {
                Ok(value) => {
                    coins.push(value);
                    assert(coins@ =~= before + seq![value]);
                },
                Err(_) => {
                    assert(coins@ =~= before + Seq::<u64>::empty());
                },
            }
            let next: usize = if end < n {
                end + 1
            } else {
                end
            };
            assert(text_entries(text@, 0) =~= coins@ + text_entries(text@, next as int));
            from = next;
        }
        assert(text_entries(text@, 0) =~= coins@);
        SatsSubsidy::new(coins)
    }

    /// The table that Brotli-compressed text lists. `Compressed` where the data
    /// does not decode; else as `from_text` on what it decodes to.
    pub fn from_compressed(data: &[u8]) -> (r: Result<SatsSubsidy, TableError>)
        ensures
            match brotli_decoded(data@) {
                None => r == Err::<SatsSubsidy, TableError>(TableError::Compressed),
                Some(text) => match r {
                    Ok(table) => table_from(text_entries(text, 0)) == Ok::<Seq<u64>, TableError>(
                        table@,
                    ),
                    Err(e) => table_from(text_entries(text, 0)) == Err::<Seq<u64>, TableError>(e),
                },
            },
    {
        match decompress_brotli(data) {
            Some(text) => SatsSubsidy::from_text(text.as_slice()),
            None => Err(TableError::Compressed),
        }
    }

    /// The number of heights that the table covers.
    pub fn len(&self) -> (n: usize)
        ensures
            n == self@.len(),
            table_wf(self@),
    {
        proof {
            use_type_invariant(self);
        }
        self.coins.len()
    }

    /// The first sat of the block at `value`: the sats minted before it.
    /// `OutOfRange` for a height beyond the one just past the table.
    pub fn sat_from_height(&self, value: Height) -> (r: Result<Sat, OutOfRange>)
        ensures
            match r {
                Ok(sat) => value.0 <= self@.len() && sat.0 == cumulative_at(self@, value.0 as int)
                    && sat.0 <= Sat::SUPPLY,
                Err(e) => value.0 > self@.len() && e == (OutOfRange { height: value.0 }),
            },
    {
        proof {
            use_type_invariant(self);
        }
        let h: usize = value.0 as usize;
        if h == 0 {
            Ok(Sat(0))
        } else if h <= self.coins.len() {
            let coins: u64 = self.coins[h - 1];
            assert(coins <= MAX_COINS);
            Ok(Sat(coins * COIN_VALUE))
        } else {
            Err(OutOfRange { height: value.0 })
        }
    }

    /// The reward of the block at `height`, in base units: what the running
    /// total grew by there. `OutOfRange` past the table's end.
    pub fn subsidy_of(&self, height: Height) -> (r: Result<u64, OutOfRange>)
        ensures
            match r {
                Ok(reward) => height.0 < self@.len() && reward == subsidy_at(
                    self@,
                    height.0 as int,
                ) && reward <= Sat::SUPPLY,
                Err(e) => height.0 >= self@.len() && e == (OutOfRange { height: height.0 }),
            },
    {
        proof {
            use_type_invariant(self);
        }
        let h: usize = height.0 as usize;
        if h < self.coins.len() {
            let here: u64 = self.coins[h];
            assert(here <= MAX_COINS);
            if h == 0 {
                Ok(here * COIN_VALUE)
            } else {
                let before: u64 = self.coins[h - 1];
                assert(before <= here);
                assert((here - before) * COIN_VALUE == here * COIN_VALUE - before * COIN_VALUE)
                    by (nonlinear_arith);
                Ok((here - before) * COIN_VALUE)
            }
        } else {
            Err(OutOfRange { height: height.0 })
        }
    }

    /// The height of the block that holds `value`: the greatest height of the
    /// table whose first sat is at most `value`, found by bisection. A sat past
    /// the table belongs to the last height.
    pub fn height_from_sat(&self, value: Sat) -> (h: Height)
        ensures
            h.0 == height_of(self@, value.0),
            h.0 < self@.len(),
            table_wf(self@),
    {
        proof {
            use_type_invariant(self);
        }
        let n: usize = self.coins.len();
        let mut low: usize = 1;
        let mut high: usize = n;
        while low < high
            invariant
                1 <= low <= high <= n,
                n == self.coins@.len(),
                table_wf(self.coins@),
                forall|i: int| 0 <= i < low ==> cumulative_at(self.coins@, i) <= value.0,
                forall|i: int| high <= i < n ==> cumulative_at(self.coins@, i) > value.0,
            decreases high - low,
        {
            let mid: usize = low + (high - low) / 2;
            let coins: u64 = self.coins[mid - 1];
            assert(coins <= MAX_COINS);
            if coins * COIN_VALUE <= value.0 {
                assert forall|i: int| 0 <= i < mid + 1 implies cumulative_at(self.coins@, i)
                    <= value.0 by {
                    lemma_cumulative_ordered(self.coins@, i, mid as int);
                }
                low = mid + 1;
            } else {
                assert forall|i: int| mid <= i < n implies cumulative_at(self.coins@, i)
                    > value.0 by {
                    lemma_cumulative_ordered(self.coins@, mid as int, i);
                }
                high = mid;
            }
        }
        proof {
            lemma_last_at_most(self.coins@, value.0, n as nat, low as nat);
        }
        Height((low - 1) as u32)
    }
}

/// Entries that never fall from one height to the next never fall at all.
proof fn lemma_steps_monotone(table: Seq<u64>)
    requires
        forall|j: int| 0 < j < table.len() ==> table[j - 1] <= #[trigger] table[j],
    ensures
        monotone(table),
{
    assert forall|i: int, j: int| 0 <= i <= j < table.len() implies table[i] <= table[j] by {
        lemma_steps_between(table, i, j);
    }
}

proof fn lemma_steps_between(table: Seq<u64>, i: int, j: int)
    requires
        forall|k: int| 0 < k < table.len() ==> table[k - 1] <= #[trigger] table[k],
        0 <= i <= j < table.len(),
    ensures
        table[i] <= table[j],
    decreases j - i,
{
    if i < j {
        lemma_steps_between(table, i, j - 1);
    }
}

/// Where the first `k` totals are at most `value` and the totals from `k` up to
/// `n` are above it, the search among the first `n` ends just below `k`.
proof fn lemma_last_at_most(table: Seq<u64>, value: u64, n: nat, k: nat)
    requires
        k <= n <= table.len(),
        forall|i: int| 0 <= i < k ==> cumulative_at(table, i) <= value,
        forall|i: int| k <= i < n ==> cumulative_at(table, i) > value,
    ensures
        last_at_most(table, value, n) == if k == 0 {
            0
        } else {
            (k - 1) as nat
        },
    decreases n,
{
    if n > k {
        lemma_last_at_most(table, value, (n - 1) as nat, k);
    }
}

/// Monotonicity: in a table, the sats minted before a height are no more than
/// the sats minted before the next.
pub proof fn lemma_cumulative_monotone(table: Seq<u64>, h: int)
    requires
        table_wf(table),
        0 <= h < table.len(),
    ensures
        cumulative_at(table, h) <= cumulative_at(table, h + 1),
{
    lemma_cumulative_ordered(table, h, h + 1);
}

/// In a table a later height has no fewer sats minted before it, and never
/// more than the supply.
pub proof fn lemma_cumulative_ordered(table: Seq<u64>, i: int, j: int)
    requires
        table_wf(table),
        0 <= i <= j <= table.len(),
    ensures
        0 <= cumulative_at(table, i) <= cumulative_at(table, j) <= Sat::SUPPLY,
{
    if j > 0 {
        assert(table[j - 1] <= MAX_COINS);
        assert(0 <= table[j - 1] * COIN_VALUE <= MAX_COINS * COIN_VALUE) by (nonlinear_arith)
            requires
                0 <= table[j - 1] <= MAX_COINS,
        ;
        if i > 0 {
            assert(table[i - 1] <= table[j - 1]);
            assert(table[i - 1] * COIN_VALUE <= table[j - 1] * COIN_VALUE) by (nonlinear_arith)
                requires
                    table[i - 1] <= table[j - 1],
            ;
        }
    }
}

/// The height found for a sat is a height of the table whose first sat is at
/// most the sat, and the first sat of every later height is above it.
pub proof fn lemma_height_of(table: Seq<u64>, value: u64)
    requires
        table.len() >= 1,
    ensures
        height_of(table, value) < table.len(),
        cumulative_at(table, height_of(table, value) as int) <= value,
        forall|j: int|
            height_of(table, value) < j < table.len() ==> cumulative_at(table, j) > value,
{
    lemma_last_at_most_found(table, value, table.len());
}

proof fn lemma_last_at_most_found(table: Seq<u64>, value: u64, n: nat)
    requires
        1 <= n <= table.len(),
    ensures
        last_at_most(table, value, n) < n,
        cumulative_at(table, last_at_most(table, value, n) as int) <= value,
        forall|j: int| last_at_most(table, value, n) < j < n ==> cumulative_at(table, j) > value,
    decreases n,
{
    if cumulative_at(table, n - 1) > value {
        lemma_last_at_most_found(table, value, (n - 1) as nat);
    }
}

/// Inversion: a sat that the table has minted lies in the block found for it:
/// at or above that block's first sat, below the next block's.
pub proof fn lemma_height_of_inverts(table: Seq<u64>, value: u64)
    requires
        table_wf(table),
        value < cumulative_at(table, table.len() as int),
    ensures
        height_of(table, value) < table.len(),
        cumulative_at(table, height_of(table, value) as int) <= value < cumulative_at(
            table,
            height_of(table, value) as int + 1,
        ),
{
    lemma_height_of(table, value);
}

/// In a table, the only height whose first sat is at most the sat while the
/// next height's, if the table has a next height, is above it, is the height
/// found for the sat.
pub proof fn lemma_height_of_unique(table: Seq<u64>, value: u64, h: int)
    requires
        table_wf(table),
        0 <= h < table.len(),
        cumulative_at(table, h) <= value,
        h + 1 < table.len() ==> value < cumulative_at(table, h + 1),
    ensures
        height_of(table, value) == h,
{
    assert forall|i: int| 0 <= i < h + 1 implies cumulative_at(table, i) <= value by {
        lemma_cumulative_ordered(table, i, h);
    }
    assert forall|i: int| h + 1 <= i < table.len() implies cumulative_at(table, i) > value by {
        lemma_cumulative_ordered(table, h + 1, i);
    }
    lemma_last_at_most(table, value, table.len(), (h + 1) as nat);
}

/// The sequences without a fault are the tables.
pub proof fn lemma_table_defect(table: Seq<u64>)
    ensures
        table_defect(table) is None <==> table_wf(table),
{
    if 1 <= table.len() <= MAX_ENTRIES {
        lemma_defect_from(table, 0);
        if defect_from(table, 0) is None {
            lemma_steps_monotone(table);
        }
    }
}

/// No fault from `from` on means that every entry from `from` on is within the
/// supply and, past the first, not below the one before it.
proof fn lemma_defect_from(table: Seq<u64>, from: nat)
    ensures
        defect_from(table, from) is None <==> (forall|j: int|
            from <= j < table.len() ==> #[trigger] table[j] <= MAX_COINS && (j > 0 ==> table[j - 1]
                <= table[j])),
    decreases table.len() - from,
{
    if from < table.len() {
        lemma_defect_from(table, from + 1);
        if defect_from(table, from) is None {
            assert forall|j: int| from <= j < table.len() implies #[trigger] table[j] <= MAX_COINS
                && (j > 0 ==> table[j - 1] <= table[j]) by {
                if j > from {
                    assert(from + 1 <= j);
                }
            }
        } else {
            if table[from as int] <= MAX_COINS && !(from > 0 && table[from as int] < table[from
                - 1]) {
                assert(defect_from(table, from + 1) is Some);
            } else {
                assert(!(table[from as int] <= MAX_COINS && (from > 0 ==> table[from - 1]
                    <= table[from as int])));
            }
        }
    }
}

} // verus!
