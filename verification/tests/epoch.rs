use ordinals::{Epoch, Height, Sat, SatsSubsidy, COIN_VALUE};

#[test]
fn epoch_starting_sat() {
    assert_eq!(Epoch(1).starting_sat(), 0);
    assert_eq!(Epoch(6).starting_sat(), Sat(Sat::SUPPLY));
    assert_eq!(Epoch(34).starting_sat(), Sat(Sat::SUPPLY));
}

/// A table that mints, over the blocks of each of the first four epochs, the
/// sats between that epoch's first sat and the next epoch's, spread evenly.
fn even_epochs() -> SatsSubsidy {
    let mut totals = Vec::new();
    for epoch in 1..=4u32 {
        let first = Epoch(epoch).starting_height().0;
        let next = Epoch(epoch + 1).starting_height().0;
        let blocks = u64::from(next - first);
        let start = Epoch(epoch).starting_sat().n() / COIN_VALUE;
        let end = Epoch(epoch + 1).starting_sat().n() / COIN_VALUE;
        for block in 1..=blocks {
            totals.push(start + (end - start) * block / blocks);
        }
    }
    totals.push(*totals.last().unwrap() + 2);
    SatsSubsidy::new(totals).unwrap()
}

#[test]
fn starting_sats() {
    let table = even_epochs();
    let mut sat = 0;

    let mut epoch_sats = vec![0];
    let mut epoch = 1;

    for height in 0..=Epoch(5).starting_height().0 {
        if Epoch::from(Height(height)).0 > epoch {
            epoch_sats.push(sat);
            epoch += 1;
        }

        sat += Height(height).subsidy(&table).unwrap();
    }

    assert_eq!(&Epoch::STARTING_SATS[..5], epoch_sats.as_slice());
    assert_eq!(Epoch::STARTING_SATS.len(), 6);
}

#[test]
fn starting_height() {
    assert_eq!(Epoch(1).starting_height(), 0);
    assert_eq!(Epoch(2).starting_height(), 101);
    assert_eq!(Epoch(3).starting_height(), 129601);
}

#[test]
fn from_height() {
    assert_eq!(Epoch::from(Height(0)), 1);
    assert_eq!(Epoch::from(Height(101)), 2);
    assert_eq!(Epoch::from(Height(129601)), 3);
}

#[test]
fn from_sat() {
    for (index, starting_sat) in Epoch::STARTING_SATS.into_iter().enumerate() {
        let epoch = u32::try_from(index).unwrap() + 1;
        if index > 0 {
            assert_eq!(Epoch::from(Sat(starting_sat - 1)), Epoch(epoch - 1));
        }
        if epoch <= 5 {
            assert_eq!(Epoch::from(Sat(starting_sat)), Epoch(epoch));
            assert_eq!(Epoch::from(Sat(starting_sat) + 1), Epoch(epoch));
        }
    }
    assert_eq!(Epoch::from(Sat(0)), 1);
    assert_eq!(Epoch::from(Sat(1)), 1);
    assert_eq!(Epoch::from(Epoch(1).starting_sat()), 1);
    assert_eq!(Epoch::from(Epoch(1).starting_sat() + 1), 1);
    assert_eq!(Epoch::from(Sat(u64::MAX)), 5);
}

#[test]
fn epoch_eq() {
    assert_eq!(Epoch(1), 1);
    assert_eq!(Epoch(100), 100);
}

#[test]
fn epoch_of_the_first_and_the_last_sat() {
    assert_eq!(Epoch::from(Sat(0)), 1);
    assert_eq!(Epoch::from(Sat(Sat::SUPPLY - 1)), Epoch(5));
    assert_eq!(Epoch::from(Sat(Sat::SUPPLY)), Epoch(5));
}

#[test]
fn epoch_outside_the_boundaries_starts_at_the_supply() {
    assert_eq!(Epoch(0).starting_sat(), Sat(Sat::SUPPLY));
    assert_eq!(Epoch(5).starting_sat(), Sat(5824936400000000));
    assert_eq!(Epoch(7).starting_sat(), Sat(Sat::SUPPLY));
    assert_eq!(Epoch(u32::MAX).starting_sat(), Sat(Sat::SUPPLY));
}

#[test]
fn starting_heights_open_their_epochs() {
    for epoch in 1..=5u32 {
        let height = Epoch(epoch).starting_height();
        assert_eq!(Epoch::from(height), Epoch(epoch));
        if height.0 > 0 {
            assert_eq!(Epoch::from(height - 1), Epoch(epoch - 1));
        }
    }
    assert_eq!(Epoch(4).starting_height(), 259201);
    assert_eq!(Epoch(5).starting_height(), 518401);
    assert_eq!(Epoch::from(Height(u32::MAX)), 5);
}
