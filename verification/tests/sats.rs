use ordinals::{get_block_subsidy, Height, Network, OutOfRange, Sat, SatsSubsidy, TableError};

/// The running totals of the chain's first blocks: 88 coins for the first
/// block, then what the schedule draws.
fn chain(heights: u32) -> SatsSubsidy {
    let mut total = 0;
    let mut totals = Vec::new();
    for height in 0..heights {
        total += if height == 0 {
            88
        } else {
            get_block_subsidy(height, Network::Bellscoin).unwrap()
        };
        totals.push(total);
    }
    SatsSubsidy::new(totals).unwrap()
}

#[test]
fn test_sat_from_height() {
    let table = chain(126);
    assert_eq!(table.sat_from_height(Height(0)).unwrap(), 0);
    assert_eq!(table.sat_from_height(Height(1)).unwrap(), 8800000000);
    assert_eq!(table.sat_from_height(Height(124)).unwrap(), 358800000000);
    assert_eq!(table.sat_from_height(Height(125)).unwrap(), 363800000000);
    assert_eq!(table.sat_from_height(Height(126)).unwrap(), 373800000000);
}

#[test]
fn test_height_from_sat() {
    let table = chain(200);
    assert_eq!(table.height_from_sat(Sat(363799999999)).0, 124);
    assert_eq!(table.height_from_sat(Sat(363800000000)).0, 125);
    assert_eq!(table.height_from_sat(Sat(363800000001)).0, 125);
    assert_eq!(table.height_from_sat(Sat(373799999999)).0, 125);
    assert_eq!(table.height_from_sat(Sat(373800000000)).0, 126);
    assert_eq!(table.height_from_sat(Sat(0)).0, 0);
    assert_eq!(table.height_from_sat(Sat(8800000001)).0, 1);
}

#[test]
fn lookups_past_the_table_are_out_of_range() {
    let table = chain(126);
    assert_eq!(table.len(), 126);
    assert_eq!(
        table.sat_from_height(Height(127)),
        Err(OutOfRange { height: 127 })
    );
    assert_eq!(table.subsidy_of(Height(126)), Err(OutOfRange { height: 126 }));
    assert_eq!(table.subsidy_of(Height(0)), Ok(8800000000));
    assert_eq!(table.subsidy_of(Height(125)), Ok(10000000000));
}

#[test]
fn search_clamps_at_both_ends() {
    let table = chain(126);
    assert_eq!(table.height_from_sat(Sat(0)).0, 0);
    assert_eq!(table.height_from_sat(Sat(8799999999)).0, 0);
    assert_eq!(table.height_from_sat(Sat(8800000000)).0, 1);
    assert_eq!(table.height_from_sat(Sat(373800000000)).0, 125);
    assert_eq!(table.height_from_sat(Sat(u64::MAX)).0, 125);
    let one = SatsSubsidy::new(vec![5]).unwrap();
    assert_eq!(one.height_from_sat(Sat(0)).0, 0);
    assert_eq!(one.height_from_sat(Sat(u64::MAX)).0, 0);
}

#[test]
fn running_totals_never_fall() {
    let table = chain(300);
    for height in 0..300u32 {
        let here = table.sat_from_height(Height(height)).unwrap();
        let next = table.sat_from_height(Height(height + 1)).unwrap();
        assert!(here.n() <= next.n());
    }
}

#[test]
fn search_inverts_the_table() {
    let table = SatsSubsidy::new(vec![2, 2, 5, 5, 5, 9]).unwrap();
    let unit = ordinals::COIN_VALUE;
    for value in (0..9 * unit).step_by(12_345_678) {
        let height = table.height_from_sat(Sat(value));
        let here = table.sat_from_height(height).unwrap();
        let next = table.sat_from_height(height + 1).unwrap();
        assert!(here.n() <= value && value < next.n());
    }
    for value in [0, 2 * unit - 1, 2 * unit, 5 * unit - 1, 5 * unit, 9 * unit - 1] {
        let height = table.height_from_sat(Sat(value));
        let here = table.sat_from_height(height).unwrap();
        let next = table.sat_from_height(height + 1).unwrap();
        assert!(here.n() <= value && value < next.n());
    }
    assert_eq!(table.height_from_sat(Sat(2 * unit)).0, 2);
    assert_eq!(table.height_from_sat(Sat(5 * unit)).0, 5);
}

#[test]
fn new_names_the_first_fault() {
    assert_eq!(SatsSubsidy::new(vec![]).unwrap_err(), TableError::Empty);
    assert_eq!(
        SatsSubsidy::new(vec![1, 3, 2, 500_000_001]).unwrap_err(),
        TableError::Decreasing { height: 2 }
    );
    assert_eq!(
        SatsSubsidy::new(vec![1, 500_000_001, 2]).unwrap_err(),
        TableError::TooLarge { height: 1 }
    );
    assert_eq!(
        SatsSubsidy::new(vec![500_000_001]).unwrap_err(),
        TableError::TooLarge { height: 0 }
    );
    assert!(SatsSubsidy::new(vec![0, 0, 500_000_000]).is_ok());
}

#[test]
fn from_text_reads_one_total_per_line() {
    let table = SatsSubsidy::from_text(b"88\n90\r\n92\n").unwrap();
    assert_eq!(table.len(), 3);
    assert_eq!(table.subsidy_of(Height(0)), Ok(8800000000));
    assert_eq!(table.subsidy_of(Height(1)), Ok(200000000));
    assert_eq!(table.subsidy_of(Height(2)), Ok(200000000));
    let table = SatsSubsidy::from_text(b"88\n90").unwrap();
    assert_eq!(table.len(), 2);
}

#[test]
fn from_text_leaves_out_what_is_no_number() {
    let table = SatsSubsidy::from_text(b"88\n\nninety\n+90\n 91\n92\r\r\n93\r\n\n").unwrap();
    assert_eq!(table.len(), 2);
    assert_eq!(table.sat_from_height(Height(1)).unwrap(), 8800000000);
    assert_eq!(table.sat_from_height(Height(2)).unwrap(), 9300000000);
    let table = SatsSubsidy::from_text(b"88\n93\r").unwrap();
    assert_eq!(table.len(), 1);
    assert_eq!(
        SatsSubsidy::from_text(b"18446744073709551616\n").unwrap_err(),
        TableError::Empty
    );
    assert_eq!(SatsSubsidy::from_text(b"").unwrap_err(), TableError::Empty);
    assert_eq!(
        SatsSubsidy::from_text(b"90\n88\n").unwrap_err(),
        TableError::Decreasing { height: 1 }
    );
}

#[test]
fn from_compressed_decodes_then_reads() {
    let text = b"88\n90\n92\n192\n";
    let mut compressed = Vec::new();
    {
        let mut writer = brotli::CompressorWriter::new(&mut compressed, 4096, 5, 22);
        std::io::Write::write_all(&mut writer, text).unwrap();
    }
    assert!(compressed.as_slice() != text.as_slice());
    let table = SatsSubsidy::from_compressed(&compressed).unwrap();
    assert_eq!(table.len(), 4);
    assert_eq!(table.sat_from_height(Height(4)).unwrap(), 19200000000);
    assert_eq!(
        SatsSubsidy::from_compressed(text).unwrap_err(),
        TableError::Compressed
    );
}
