use ordinals::{DecimalSat, Height, Sat, SatsSubsidy, COIN_VALUE};

/// A table in which every block mints fifty coins.
fn fifty(heights: u64) -> SatsSubsidy {
    SatsSubsidy::new((1..=heights).map(|h| h * 50).collect()).unwrap()
}

#[test]
fn decimal() {
    let table = fifty(4);
    assert_eq!(
        Sat(0).decimal(&table).unwrap(),
        DecimalSat {
            height: Height(0),
            offset: 0
        }
    );
    assert_eq!(
        Sat(1).decimal(&table).unwrap(),
        DecimalSat {
            height: Height(0),
            offset: 1
        }
    );
    assert_eq!(
        Sat(150 * COIN_VALUE).decimal(&table).unwrap(),
        DecimalSat {
            height: Height(3),
            offset: 0
        }
    );
}

#[test]
fn decimal_to_string() {
    assert_eq!(
        DecimalSat {
            height: Height(0),
            offset: 0
        }
        .to_string(),
        "0.0"
    );
    assert_eq!(
        DecimalSat {
            height: Height(6929999),
            offset: 10
        }
        .to_string(),
        "6929999.10"
    );
    assert_eq!(
        DecimalSat {
            height: Height(u32::MAX),
            offset: u64::MAX
        }
        .to_string(),
        "4294967295.18446744073709551615"
    );
}

#[test]
fn decimal_of_a_sat_in_an_empty_last_block() {
    let table = SatsSubsidy::new(vec![50, 50]).unwrap();
    assert_eq!(Sat(50 * COIN_VALUE).decimal(&table), None);
    assert_eq!(DecimalSat::from_sat(Sat(50 * COIN_VALUE), &table), None);
    assert_eq!(
        DecimalSat::from_sat(Sat(50 * COIN_VALUE - 1), &table),
        Some(DecimalSat {
            height: Height(0),
            offset: 50 * COIN_VALUE - 1
        })
    );
}
