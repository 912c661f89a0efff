use dice_mosaic::mosaic::Tally;

#[test]
fn tally_starts_empty() {
    let t = Tally::new();
    for f in 0..6u8 {
        assert_eq!(t.count(f), 0);
    }
    assert_eq!(t.total(), 0);
}

#[test]
fn tally_counts_increments() {
    let mut t = Tally::new();
    t.increment(2);
    t.increment(2);
    t.increment(5);
    assert_eq!(t.count(2), 2);
    assert_eq!(t.count(5), 1);
    assert_eq!(t.count(0), 0);
    assert_eq!(t.total(), 3);
}
