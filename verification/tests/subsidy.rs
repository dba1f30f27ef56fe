use ordinals::subsidy::{generate_mt_random, reward_for_draw, MT19937};
use ordinals::{get_block_subsidy, Network};

fn subsidy_mainnet(n_height: u32) -> u64 {
    get_block_subsidy(n_height, Network::Bellscoin).unwrap()
}

#[test]
fn block_subsidy() {
    assert_eq!(subsidy_mainnet(101), 100);
    assert_eq!(subsidy_mainnet(102), 100);
    assert_eq!(subsidy_mainnet(113), 500);
    assert_eq!(subsidy_mainnet(119), 500);
    assert_eq!(subsidy_mainnet(318), 100);
    assert_eq!(subsidy_mainnet(319), 10_000);
    assert_eq!(subsidy_mainnet(444), 500);
    assert_eq!(subsidy_mainnet(1241), 10000);
    assert_eq!(subsidy_mainnet(4314), 100);
    assert_eq!(subsidy_mainnet(100_000), 50);
    assert_eq!(subsidy_mainnet(129600), 25);
    assert_eq!(subsidy_mainnet(213214), 5000);
    assert_eq!(subsidy_mainnet(259200), 5);
    assert_eq!(subsidy_mainnet(259211), 10);
    assert_eq!(subsidy_mainnet(143877), 25)
}

#[test]
fn generator_matches_the_reference_outputs() {
    // The first outputs of the reference generator for the seed 5489.
    let mut mt = MT19937::new(5489);
    assert_eq!(mt.next_u32(), 3499211612);
    assert_eq!(mt.next_u32(), 581869302);
    assert_eq!(mt.next_u32(), 3890346734);
    assert_eq!(mt.next_u32(), 3586334585);
    assert_eq!(mt.next_u32(), 545404204);
    let mut mt = MT19937::new(5489);
    let mut last = 0;
    for _ in 0..10000 {
        last = mt.next_u32();
    }
    assert_eq!(last, 4123659995);
}

#[test]
fn seeding_again_starts_over() {
    let mut mt = MT19937::new(1);
    mt.next_u32();
    mt.seed_boost(5489);
    assert_eq!(mt.next_u32(), 3499211612);
    mt.twist();
    let mut fresh = MT19937::new(5489);
    let mut last = 0;
    for _ in 0..625 {
        last = fresh.next_u32();
    }
    assert_eq!(mt.next_u32(), last);
}

#[test]
fn a_word_at_or_above_the_limit_is_drawn_again() {
    // With 2^31 + 1 numbers each bucket holds one word and the limit is
    // 2^31 + 1: the first word for this seed, 3499211612, is dropped, and the
    // second, 581869302, is taken.
    assert_eq!(generate_mt_random(5489, 0x8000_0001), Some(581869303));
    // With 2^32 - 1 numbers only the word 2^32 - 1 is dropped.
    assert_eq!(generate_mt_random(5489, 0xffff_ffff), Some(3499211613));
    // With 1000 numbers each bucket holds 4294967 words.
    assert_eq!(generate_mt_random(5489, 1000), Some(1 + 3499211612 / 4294967));
}

#[test]
fn fixed_rewards() {
    for height in 0..=100 {
        assert_eq!(subsidy_mainnet(height), 2);
    }
    for height in 144_000..145_000 {
        assert_eq!(subsidy_mainnet(height), 2);
    }
    assert_eq!(subsidy_mainnet(518400), 2);
    assert_eq!(subsidy_mainnet(u32::MAX), 2);
    assert_eq!(get_block_subsidy(143877, Network::Testnet), Some(25));
    assert_eq!(get_block_subsidy(50, Network::Regtest), Some(2));
}

#[test]
fn window_is_the_main_chain_s_alone() {
    let mut differ = false;
    for height in 144_000..145_000 {
        let elsewhere = get_block_subsidy(height, Network::Testnet).unwrap();
        assert_eq!(
            elsewhere,
            reward_for_draw(height, generate_mt_random(height, 1000).unwrap())
        );
        differ = differ || elsewhere != 2;
    }
    assert!(differ);
}

#[test]
fn draws_stay_in_range() {
    for seed in 0..2000u32 {
        let draw = generate_mt_random(seed, 1000).unwrap();
        assert!(1 <= draw && draw <= 1000);
        assert_eq!(generate_mt_random(seed, 1), Some(1));
        let coin = generate_mt_random(seed, 2).unwrap();
        assert!(coin == 1 || coin == 2);
    }
}

#[test]
fn tiers_by_era() {
    let eras: [(u32, [u64; 6]); 3] = [
        (101, [10000, 1000, 500, 250, 100, 50]),
        (129600, [5000, 500, 250, 125, 50, 25]),
        (259200, [500, 50, 25, 10, 10, 5]),
    ];
    for (height, rewards) in eras {
        assert_eq!(reward_for_draw(height, 1000), rewards[0]);
        assert_eq!(reward_for_draw(height, 990), rewards[0]);
        assert_eq!(reward_for_draw(height, 989), rewards[1]);
        assert_eq!(reward_for_draw(height, 940), rewards[1]);
        assert_eq!(reward_for_draw(height, 939), rewards[2]);
        assert_eq!(reward_for_draw(height, 840), rewards[2]);
        assert_eq!(reward_for_draw(height, 839), rewards[3]);
        assert_eq!(reward_for_draw(height, 700), rewards[3]);
        assert_eq!(reward_for_draw(height, 699), rewards[4]);
        assert_eq!(reward_for_draw(height, 500), rewards[4]);
        assert_eq!(reward_for_draw(height, 499), rewards[5]);
        assert_eq!(reward_for_draw(height, 1), rewards[5]);
        assert_eq!(reward_for_draw(height, 1001), rewards[5]);
    }
    assert_eq!(reward_for_draw(129599, 1000), 10000);
    assert_eq!(reward_for_draw(259199, 1000), 5000);
    assert_eq!(reward_for_draw(518399, 1000), 500);
    assert_eq!(reward_for_draw(518400, 1000), 2);
}
