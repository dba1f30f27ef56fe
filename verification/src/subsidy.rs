//! The reward schedule: a Mersenne Twister seeded by the height draws a number
//! in `1..=1000`, and era-dependent thresholds turn the draw into a reward.

use vstd::prelude::*;

verus! {

/// Words in the generator's state.
pub const STATE_WORDS: usize = 624;

/// Distance between a word and the word it is combined with in a twist.
pub const TWIST_OFFSET: usize = 397;

/// First height of the auxiliary-proof-of-work window.
pub const AUXPOW_START_HEIGHT: u32 = 144_000;

/// Width of the auxiliary-proof-of-work window.
pub const AUXPOW_THRESHOLD: u32 = 1000;

/// Words that a draw may take from the generator before it gives up.
pub const MAX_DRAWS: u32 = 6240;

/// The chain a height belongs to.
#[derive(Clone, Copy, Debug, PartialEq, Eq, Structural)]
pub enum Network {
    Bellscoin,
    Testnet,
    Signet,
    Regtest,
}

/// Word `i` of the state that seeding with `seed` produces.
pub open spec fn seeded_word(seed: u32, i: nat) -> u32
    decreases i,
{
    if i == 0 {
        seed
    } else {
        let prev = seeded_word(seed, (i - 1) as nat);
        ((1812433253 * (prev ^ (prev >> 30)) + i) % 0x1_0000_0000) as u32
    }
}

/// The state that seeding with `seed` produces.
pub open spec fn seeded_state(seed: u32) -> Seq<u32> {
    Seq::new(STATE_WORDS as nat, |i: int| seeded_word(seed, i as nat))
}

/// The upper bit of `cur` joined with the lower 31 bits of `next`, shifted and
/// conditionally xored with the twist matrix row.
pub open spec fn mix(cur: u32, next: u32) -> u32 {
    let x = (cur & 0x8000_0000) | (next & 0x7fff_ffff);
    if x % 2 != 0 {
        (x >> 1) ^ 0x9908_b0df
    } else {
        x >> 1
    }
}

/// Word `i` of the state that one twist makes of `state`. The twist runs in
/// place, so the words it reads behind `i` are already twisted.
pub open spec fn twisted_word(state: Seq<u32>, i: nat) -> u32
    recommends
        state.len() == STATE_WORDS,
        i < STATE_WORDS,
    decreases i,
{
    let next = if i + 1 < STATE_WORDS {
        state[i as int + 1]
    } else if i > 0 {
        twisted_word(state, 0)
    } else {
        0
    };
    let far = if i + TWIST_OFFSET < STATE_WORDS {
        state[i as int + TWIST_OFFSET as int]
    } else if i >= STATE_WORDS - TWIST_OFFSET {
        twisted_word(state, (i - (STATE_WORDS - TWIST_OFFSET)) as nat)
    } else {
        0
    };
    far ^ mix(state[i as int], next)
}

/// The state that one twist makes of `state`.
pub open spec fn twisted_state(state: Seq<u32>) -> Seq<u32> {
    Seq::new(STATE_WORDS as nat, |i: int| twisted_word(state, i as nat))
}

/// The output transform of the generator.
pub open spec fn tempered(word: u32) -> u32 {
    let a = word ^ (word >> 11);
    let b = a ^ ((a << 7) & 0x9d2c_5680);
    let c = b ^ ((b << 15) & 0xefc6_0000);
    c ^ (c >> 18)
}

/// The generator's state after `twists` twists of the state seeded with `seed`.
pub open spec fn state_after(seed: u32, twists: nat) -> Seq<u32>
    decreases twists,
{
    if twists == 0 {
        seeded_state(seed)
    } else {
        twisted_state(state_after(seed, (twists - 1) as nat))
    }
}

/// Output number `k` (from 0) of the generator seeded with `seed`.
pub open spec fn output(seed: u32, k: nat) -> u32 {
    tempered(state_after(seed, k / (STATE_WORDS as nat) + 1)[(k % (STATE_WORDS as nat)) as int])
}

/// The 32-bit Mersenne Twister.
pub struct MT19937 {
    mt: Vec<u32>,
    index: usize,
}

impl MT19937 {
    /// The state words.
    pub closed spec fn state(&self) -> Seq<u32> {
        self.mt@
    }

    /// Position of the next word to hand out; `STATE_WORDS` when a twist is due.
    pub closed spec fn position(&self) -> nat {
        self.index as nat
    }

    /// The state has its full length and the position lies within it or at its end.
    pub closed spec fn wf(&self) -> bool {
        &&& self.mt@.len() == STATE_WORDS
        &&& self.index <= STATE_WORDS
    }

    /// A generator seeded with `seed`, with a twist due before the first output.
    pub fn new(seed: u32) -> (r: MT19937)
        ensures
            r.wf(),
            r.state() == seeded_state(seed),
            r.position() == STATE_WORDS,
    {
        let mut state: Vec<u32> = Vec::new();
        let mut k: usize = 0;
        while k < STATE_WORDS
            invariant
                k <= STATE_WORDS,
                state@.len() == k,
            decreases STATE_WORDS - k,
        {
            state.push(0u32);
            k = k + 1;
        }
        let mut r = MT19937 { mt: state, index: STATE_WORDS };
        r.seed_boost(seed);
        r
    }

    /// Fills the state from `value` by the reference recurrence.
    pub fn seed_boost(&mut self, value: u32)
        requires
            old(self).wf(),
        ensures
            final(self).wf(),
            final(self).state() == seeded_state(value),
            final(self).position() == STATE_WORDS,
    {
        self.mt.set(0, value);
        let mut i: usize = 1;
        while i < STATE_WORDS
            invariant
                1 <= i <= STATE_WORDS,
                self.mt@.len() == STATE_WORDS,
                forall|j: int| 0 <= j < i ==> self.mt@[j] == seeded_word(value, j as nat),
            decreases STATE_WORDS - i,
        {
            let prev: u32 = self.mt[i - 1];
            let scrambled: u32 = prev ^ (prev >> 30);
            let word: u32 = 1812433253u32.wrapping_mul(scrambled).wrapping_add(i as u32);
            proof {
                lemma_wrapping_step(scrambled, i as u32);
            }
            self.mt.set(i, word);
            i = i + 1;
        }
        self.index = STATE_WORDS;
        assert(self.mt@ =~= seeded_state(value));
    }

    /// Replaces the state by its twist and moves the position to the start.
    pub fn twist(&mut self)
        requires
            old(self).wf(),
        ensures
            final(self).wf(),
            final(self).state() == twisted_state(old(self).state()),
            final(self).position() == 0,
    {
        let ghost before = self.mt@;
        let mut i: usize = 0;
        while i < STATE_WORDS
            invariant
                i <= STATE_WORDS,
                before.len() == STATE_WORDS,
                self.mt@.len() == STATE_WORDS,
                forall|j: int| 0 <= j < i ==> self.mt@[j] == twisted_word(before, j as nat),
                forall|j: int| i <= j < STATE_WORDS ==> self.mt@[j] == before[j],
            decreases STATE_WORDS - i,
        {
            let cur: u32 = self.mt[i];
            let next: u32 = self.mt[(i + 1) % STATE_WORDS];
            let far: u32 = self.mt[(i + TWIST_OFFSET) % STATE_WORDS];
            let x: u32 = (cur & 0x8000_0000) | (next & 0x7fff_ffff);
            let mut x_a: u32 = x >> 1;
            if x % 2 != 0 {
                x_a = x_a ^ 0x9908_b0df;
            }
            self.mt.set(i, far ^ x_a);
            i = i + 1;
        }
        self.index = 0;
        assert(self.mt@ =~= twisted_state(before));
    }

    /// The next output word: twists first where the state is used up.
    pub fn next_u32(&mut self) -> (y: u32)
        requires
            old(self).wf(),
        ensures
            final(self).wf(),
            old(self).position() < STATE_WORDS ==> {
                &&& final(self).state() == old(self).state()
                &&& final(self).position() == old(self).position() + 1
                &&& y == tempered(old(self).state()[old(self).position() as int])
            },
            old(self).position() == STATE_WORDS ==> {
                &&& final(self).state() == twisted_state(old(self).state())
                &&& final(self).position() == 1
                &&& y == tempered(final(self).state()[0])
            },
    {
        if self.index >= STATE_WORDS {
            self.twist();
        }
        let mut y: u32 = self.mt[self.index];
        self.index = self.index + 1;
        y = y ^ (y >> 11);
        y = y ^ ((y << 7) & 0x9d2c_5680);
        y = y ^ ((y << 15) & 0xefc6_0000);
        y = y ^ (y >> 18);
        y
    }
}

/// The wrapping multiply-and-add of the seeding recurrence is the sum taken
/// modulo 2^32.
proof fn lemma_wrapping_step(scrambled: u32, i: u32)
    ensures
        1812433253u32.wrapping_mul(scrambled).wrapping_add(i) == ((1812433253 * scrambled + i)
            % 0x1_0000_0000) as u32,
{
    let p: int = 1812433253 * scrambled;
    assert(p >= 0) by (nonlinear_arith)
        requires
            p == 1812433253 * scrambled,
            scrambled >= 0,
    ;
    let m: int = p % 0x1_0000_0000;
    assert(1812433253u32.wrapping_mul(scrambled) == m);
    vstd::arithmetic::div_mod::lemma_add_mod_noop(p, i as int, 0x1_0000_0000);
    vstd::arithmetic::div_mod::lemma_small_mod(i as nat, 0x1_0000_0000);
    if m + i > u32::MAX {
        vstd::arithmetic::div_mod::lemma_mod_sub_multiples_vanish(m + i, 0x1_0000_0000);
        vstd::arithmetic::div_mod::lemma_small_mod((m + i - 0x1_0000_0000) as nat, 0x1_0000_0000);
    } else {
        vstd::arithmetic::div_mod::lemma_small_mod((m + i) as nat, 0x1_0000_0000);
    }
}

/// Size of the generator's range: it hands out every 32-bit word.
pub const GENERATOR_RANGE: u64 = 0x1_0000_0000;

/// How many generator words fall to each number of `1..=range`.
pub open spec fn bucket_size(range: u32) -> nat
    recommends
        range >= 1,
{
    (GENERATOR_RANGE as nat) / (range as nat)
}

/// Words below this limit are accepted; the words from it on would favour the
/// low numbers and are drawn again.
pub open spec fn draw_limit(range: u32) -> nat
    recommends
        range >= 1,
{
    bucket_size(range) * (range as nat)
}

/// The first output below `limit` among outputs `from..MAX_DRAWS` of the
/// generator seeded with `seed`.
pub open spec fn first_accepted(seed: u32, limit: nat, from: nat) -> Option<u32>
    decreases MAX_DRAWS - from,
{
    if from >= MAX_DRAWS {
        None
    } else if output(seed, from) < limit {
        Some(output(seed, from))
    } else {
        first_accepted(seed, limit, from + 1)
    }
}

/// The number in `1..=range` that the generator seeded with `seed` draws, if one
/// of its first `MAX_DRAWS` words is accepted.
pub open spec fn mt_random(seed: u32, range: u32) -> Option<u32>
    recommends
        range >= 1,
{
    match first_accepted(seed, draw_limit(range), 0) {
        Some(word) => Some((1 + (word as nat) / bucket_size(range)) as u32),
        None => None,
    }
}

/// A uniform number in `1..=range`, drawn from the generator seeded with `seed`.
/// Words at or above the limit are dropped and the next word is taken; `None`
/// when `MAX_DRAWS` words in a row were dropped.
pub fn generate_mt_random(seed: u32, range: u32) -> (r: Option<u32>)
    requires
        range >= 1,
    ensures
        r == mt_random(seed, range),
        r matches Some(n) ==> 1 <= n <= range,
{
    let mut mt = MT19937::new(seed);
    let range_size: u64 = range as u64;
    let bucket: u64 = GENERATOR_RANGE / range_size;
    proof {
        lemma_bucket(range);
    }
    let limit: u64 = bucket * range_size;
    let mut drawn: u32 = 0;
    while drawn < MAX_DRAWS
        invariant
            range >= 1,
            mt.wf(),
            drawn <= MAX_DRAWS,
            bucket == bucket_size(range),
            bucket >= 1,
            limit == draw_limit(range),
            drawn % 624 == 0 ==> mt.position() == STATE_WORDS && mt.state() == state_after(
                seed,
                (drawn / 624) as nat,
            ),
            drawn % 624 != 0 ==> mt.position() == drawn % 624 && mt.state() == state_after(
                seed,
                (drawn / 624 + 1) as nat,
            ),
            first_accepted(seed, limit as nat, 0) == first_accepted(seed, limit as nat, drawn as nat),
        decreases MAX_DRAWS - drawn,
    {
        let word: u32 = mt.next_u32();
        assert(word == output(seed, drawn as nat));
        let rnum: u64 = word as u64;
        if rnum < limit {
            proof {
                lemma_in_range(rnum as nat, bucket as nat, range as nat);
            }
            let n: u64 = 1 + rnum / bucket;
            return Some(n as u32);
        }
        drawn = drawn + 1;
    }
    None
}

/// The reward, in coins, that the draw `draw` earns at `height`.
pub open spec fn reward_tier(height: u32, draw: u32) -> u64 {
    if height < 129600 {
        if 990 <= draw <= 1000 {
            10000
        } else if 940 <= draw <= 989 {
            1000
        } else if 840 <= draw <= 939 {
            500
        } else if 700 <= draw <= 839 {
            250
        } else if 500 <= draw <= 699 {
            100
        } else {
            50
        }
    } else if height < 259200 {
        if 990 <= draw <= 1000 {
            5000
        } else if 940 <= draw <= 989 {
            500
        } else if 840 <= draw <= 939 {
            250
        } else if 700 <= draw <= 839 {
            125
        } else if 500 <= draw <= 699 {
            50
        } else {
            25
        }
    } else if height < 518400 {
        if 990 <= draw <= 1000 {
            500
        } else if 940 <= draw <= 989 {
            50
        } else if 840 <= draw <= 939 {
            25
        } else if 500 <= draw <= 839 {
            10
        } else {
            5
        }
    } else {
        2
    }
}

/// Whether the reward at `height` is fixed, with no draw.
pub open spec fn fixed_reward(height: u32, network: Network) -> Option<u64> {
    if height < 101 {
        Some(2)
    } else if network == Network::Bellscoin && AUXPOW_START_HEIGHT <= height < AUXPOW_START_HEIGHT
        + AUXPOW_THRESHOLD {
        Some(2)
    } else if height >= 518400 {
        Some(2)
    } else {
        None
    }
}

/// The reward, in coins, of the block at `height`.
pub open spec fn block_subsidy(height: u32, network: Network) -> Option<u64> {
    match fixed_reward(height, network) {
        Some(reward) => Some(reward),
        None => match mt_random(height, 1000) {
            Some(draw) => Some(reward_tier(height, draw)),
            None => None,
        },
    }
}

/// The reward, in coins, that the draw `draw` earns at `height`: three eras of
/// ordered tiers, then a flat reward.
pub fn reward_for_draw(height: u32, draw: u32) -> (reward: u64)
    ensures
        reward == reward_tier(height, draw),
{
    let rare: bool = 990 <= draw && draw <= 1000;
    let scarce: bool = 940 <= draw && draw <= 989;
    let fair: bool = 840 <= draw && draw <= 939;
    let plain: bool = 700 <= draw && draw <= 839;
    let usual: bool = 500 <= draw && draw <= 699;
    if height < 129600 {
        if rare {
            10000
        } else if scarce {
            1000
        } else if fair {
            500
        } else if plain {
            250
        } else if usual {
            100
        } else {
            50
        }
    } else if height < 259200 {
        if rare {
            5000
        } else if scarce {
            500
        } else if fair {
            250
        } else if plain {
            125
        } else if usual {
            50
        } else {
            25
        }
    } else if height < 518400 {
        if rare {
            500
        } else if scarce {
            50
        } else if fair {
            25
        } else if plain || usual {
            10
        } else {
            5
        }
    } else {
        2
    }
}

/// The reward, in coins, of the block at `height`: fixed up to height 100, in
/// the auxiliary-proof-of-work window of the main chain and past the third
/// era; else the tier of the number that the height draws. `None` when the
/// draw gave up.
pub fn get_block_subsidy(n_height: u32, network: Network) -> (r: Option<u64>)
    ensures
        r == block_subsidy(n_height, network),
{
    if n_height < 101 {
        return Some(2);
    }
    if network == Network::Bellscoin {
        if n_height >= AUXPOW_START_HEIGHT && n_height < AUXPOW_START_HEIGHT + AUXPOW_THRESHOLD {
            return Some(2);
        }
    }
    if n_height >= 518400 {
        return Some(2);
    }
    match generate_mt_random(n_height, 1000) {
        Some(draw) => Some(reward_for_draw(n_height, draw)),
        None => None,
    }
}

/// The bucket size is at least one and the limit fits the generator's range.
proof fn lemma_bucket(range: u32)
    requires
        range >= 1,
    ensures
        bucket_size(range) >= 1,
        draw_limit(range) <= GENERATOR_RANGE,
        bucket_size(range) == GENERATOR_RANGE / (range as u64),
{
    let r: int = range as int;
    let g: int = GENERATOR_RANGE as int;
    vstd::arithmetic::div_mod::lemma_fundamental_div_mod(g, r);
    vstd::arithmetic::div_mod::lemma_mod_bound(g, r);
    assert(g == r * (g / r) + g % r);
    assert(r * (g / r) == (g / r) * r) by (nonlinear_arith);
    assert(g / r >= 1) by (nonlinear_arith)
        requires
            g == r * (g / r) + g % r,
            0 <= g % r < r,
            1 <= r <= 0xffff_ffff,
            g == 0x1_0000_0000,
    ;
}

/// A word below `bucket * range` falls into one of the first `range` buckets.
proof fn lemma_in_range(word: nat, bucket: nat, range: nat)
    requires
        bucket >= 1,
        word < bucket * range,
    ensures
        word / bucket < range,
{
    vstd::arithmetic::div_mod::lemma_fundamental_div_mod(word as int, bucket as int);
    vstd::arithmetic::div_mod::lemma_mod_bound(word as int, bucket as int);
    let q: int = word as int / bucket as int;
    assert(q < range) by (nonlinear_arith)
        requires
            word == bucket * q + (word as int % bucket as int),
            0 <= word as int % bucket as int,
            word < bucket * range,
            bucket >= 1,
    ;
}

} // verus!
