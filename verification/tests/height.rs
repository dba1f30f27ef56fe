use ordinals::{Height, OutOfRange, SatsSubsidy};

/// A table in which every block mints fifty coins.
fn fifty(heights: u64) -> SatsSubsidy {
    SatsSubsidy::new((1..=heights).map(|h| h * 50).collect()).unwrap()
}

#[test]
fn height_n() {
    assert_eq!(Height(0).n(), 0);
    assert_eq!(Height(1).n(), 1);
}

#[test]
fn height_add() {
    assert_eq!(Height(0) + 1, 1);
    assert_eq!(Height(1) + 100, 101);
}

#[test]
fn sub() {
    assert_eq!(Height(1) - 1, 0);
    assert_eq!(Height(100) - 50, 50);
}

#[test]
fn height_eq() {
    assert_eq!(Height(0), 0);
    assert_eq!(Height(100), 100);
}

#[test]
fn from_str() {
    assert_eq!("0".parse::<Height>().unwrap(), 0);
    assert!("foo".parse::<Height>().is_err());
}

#[test]
fn subsidy() {
    let table = fifty(2);
    assert_eq!(Height(0).subsidy(&table).unwrap(), 5000000000);
    assert_eq!(Height(1).subsidy(&table).unwrap(), 5000000000);
}

#[test]
fn height_starting_sat() {
    let table = fifty(2);
    assert_eq!(Height(0).starting_sat(&table).unwrap(), 0);
    assert_eq!(Height(1).starting_sat(&table).unwrap(), 5000000000);
    assert_eq!(
        Height(u32::MAX).starting_sat(&table),
        Err(OutOfRange { height: u32::MAX })
    );
}

#[test]
fn subsidy_past_the_table_is_out_of_range() {
    let table = fifty(2);
    assert_eq!(Height(2).subsidy(&table), Err(OutOfRange { height: 2 }));
    assert_eq!(Height(2).starting_sat(&table).unwrap(), 10000000000);
    assert_eq!(Height(3).starting_sat(&table), Err(OutOfRange { height: 3 }));
}

#[test]
fn height_from_str_reads_digits_only() {
    assert_eq!(Height::from_str("4294967295"), Ok(Height(u32::MAX)));
    assert_eq!(Height::from_str("4294967296"), Err(ordinals::numeral::IntError::Overflow));
    assert_eq!(Height::from_str(""), Err(ordinals::numeral::IntError::Empty));
    assert_eq!(Height::from_str("+1"), Err(ordinals::numeral::IntError::InvalidDigit));
    assert_eq!(Height::from_str("007"), Ok(Height(7)));
}
