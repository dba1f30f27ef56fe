use ordinals::{Rarity, Sat, SatsSubsidy, COIN_VALUE};

/// A table in which every block mints fifty coins.
fn fifty(heights: u64) -> SatsSubsidy {
    SatsSubsidy::new((1..=heights).map(|h| h * 50).collect()).unwrap()
}

#[test]
fn rarity() {
    let table = fifty(10);
    assert_eq!(Sat(0).rarity(&table), Rarity::Mythic);
    assert_eq!(Sat(1).rarity(&table), Rarity::Common);

    assert_eq!(Sat(50 * COIN_VALUE - 1).rarity(&table), Rarity::Common);
    assert_eq!(Sat(50 * COIN_VALUE).rarity(&table), Rarity::Uncommon);
    assert_eq!(Sat(50 * COIN_VALUE + 1).rarity(&table), Rarity::Common);

    assert_eq!(Sat(2067187500000000 - 1).rarity(&table), Rarity::Common);
    assert_eq!(Sat(2067187500000000 + 1).rarity(&table), Rarity::Common);
}

fn case(s: &str, expected: Rarity) {
    let actual = s.parse::<Rarity>().unwrap();
    assert_eq!(actual, expected);
    let round_trip = actual.to_string().parse::<Rarity>().unwrap();
    assert_eq!(round_trip, expected);
}

#[test]
fn from_str_and_deserialize_ok() {
    case("common", Rarity::Common);
    case("uncommon", Rarity::Uncommon);
    case("epic", Rarity::Epic);
    case("mythic", Rarity::Mythic);
}

#[test]
fn conversions_with_u8() {
    for &expected in &[
        Rarity::Common,
        Rarity::Uncommon,
        Rarity::Epic,
        Rarity::Mythic,
    ] {
        let n: u8 = expected.into();
        let actual = Rarity::try_from(n).unwrap();
        assert_eq!(actual, expected);
    }

    assert_eq!(Rarity::try_from(6), Err(6));
}

#[test]
fn error() {
    assert_eq!("foo".parse::<Rarity>().unwrap_err(), "invalid rarity `foo`");
}

#[test]
fn rarity_numbers() {
    assert_eq!(u8::from(Rarity::Common), 0);
    assert_eq!(u8::from(Rarity::Uncommon), 1);
    assert_eq!(u8::from(Rarity::Epic), 3);
    assert_eq!(u8::from(Rarity::Mythic), 5);
    assert_eq!(Rarity::try_from(2), Err(2));
    assert_eq!(Rarity::try_from(4), Err(4));
}

#[test]
fn rarity_order() {
    assert!(Rarity::Common < Rarity::Uncommon);
    assert!(Rarity::Uncommon < Rarity::Epic);
    assert!(Rarity::Epic < Rarity::Mythic);
    assert!(Rarity::Mythic > Rarity::Common);
    assert_eq!(Rarity::Epic.rank(), 2);
}

#[test]
fn rarity_names() {
    assert_eq!(Rarity::Common.to_string(), "common");
    assert_eq!(Rarity::Uncommon.to_string(), "uncommon");
    assert_eq!(Rarity::Epic.to_string(), "epic");
    assert_eq!(Rarity::Mythic.to_string(), "mythic");
    assert_eq!(Rarity::from_str("Epic"), Err("invalid rarity `Epic`".to_string()));
    assert_eq!(Rarity::from_str(""), Err("invalid rarity ``".to_string()));
}

#[test]
fn first_sat_of_second_epoch_is_epic() {
    let table = fifty(10);
    assert_eq!(Sat(20200000000).rarity(&table), Rarity::Epic);
    assert_eq!(Sat(3644007700000000).rarity(&table), Rarity::Epic);
    assert_eq!(Sat(5428605700000000).rarity(&table), Rarity::Epic);
    assert_eq!(Sat(5824936400000000).rarity(&table), Rarity::Epic);
    assert_eq!(Sat(Sat::SUPPLY).rarity(&table), Rarity::Common);
}

#[test]
fn first_sat_of_each_block_is_uncommon() {
    let table = SatsSubsidy::new(vec![88, 90, 92, 192, 192, 1192]).unwrap();
    for height in 1..=5u32 {
        let first = ordinals::Height(height).starting_sat(&table).unwrap();
        assert_eq!(first.rarity(&table), Rarity::Uncommon);
        assert!(!first.common(&table));
        assert_eq!(Sat(first.n() + 1).rarity(&table), Rarity::Common);
    }
}
