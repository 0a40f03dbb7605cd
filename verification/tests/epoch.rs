use macro_state::EpochCell;

#[test]
fn the_first_reading_is_the_epoch() {
    let mut cell = EpochCell::new();
    assert_eq!(cell.get(), None);
    assert_eq!(cell.current_epoch(1_700_000_000_000_000_001), 1_700_000_000_000_000_001);
    assert_eq!(cell.get(), Some(1_700_000_000_000_000_001));
    assert_eq!(cell.current_epoch(1_700_000_000_000_000_999), 1_700_000_000_000_000_001);
    assert_eq!(cell.current_epoch(0), 1_700_000_000_000_000_001);
    assert_eq!(cell.get(), Some(1_700_000_000_000_000_001));
}

#[test]
fn a_reading_of_zero_is_an_epoch_too() {
    let mut cell = EpochCell::new();
    assert_eq!(cell.current_epoch(0), 0);
    assert_eq!(cell.current_epoch(5), 0);
}
