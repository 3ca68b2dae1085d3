use arbitrage_bot::ladder::{PriceLadder, PriceLevel};

fn lvl(price: u64, size: u64) -> PriceLevel {
    PriceLevel { price, size, auxiliary: None }
}

#[test]
fn snapshot_replaces_contents() {
    let mut ladder = PriceLadder::new();
    ladder.replace(&vec![lvl(10, 1), lvl(20, 2), lvl(30, 3)]);
    ladder.replace(&vec![lvl(15, 7)]);
    let levels = ladder.best_ascending();
    assert_eq!(levels, vec![lvl(15, 7)]);
}

#[test]
fn repeated_snapshots_leave_no_residue() {
    let mut a = PriceLadder::new();
    let mut b = PriceLadder::new();
    a.replace(&vec![lvl(1, 1), lvl(2, 2), lvl(3, 3)]);
    b.replace(&vec![lvl(500, 9)]);
    let last = vec![lvl(42, 4), lvl(41, 5)];
    a.replace(&last);
    b.replace(&last);
    assert_eq!(a.best_ascending(), b.best_ascending());
    assert_eq!(a.best_ascending(), vec![lvl(41, 5), lvl(42, 4)]);
}

#[test]
fn delta_last_write_wins() {
    let mut ladder = PriceLadder::new();
    ladder.replace(&vec![lvl(10, 1), lvl(20, 2)]);
    ladder.upsert(&vec![lvl(20, 9), lvl(25, 4)]);
    ladder.upsert(&vec![lvl(20, 6)]);
    let levels = ladder.best_ascending();
    assert_eq!(levels, vec![lvl(10, 1), lvl(20, 6), lvl(25, 4)]);
}

#[test]
fn upsert_does_not_accumulate_sizes() {
    let mut ladder = PriceLadder::new();
    ladder.replace(&vec![lvl(10, 5)]);
    ladder.upsert(&vec![lvl(10, 5)]);
    assert_eq!(ladder.best_ascending(), vec![lvl(10, 5)]);
}

#[test]
fn best_ascending_and_descending_are_ordered() {
    let mut ladder = PriceLadder::new();
    ladder.replace(&vec![lvl(20, 2), lvl(10, 1), lvl(30, 3)]);
    let up = ladder.best_ascending();
    let down = ladder.best_descending();
    assert_eq!(up.iter().map(|l| l.price).collect::<Vec<_>>(), vec![10, 20, 30]);
    assert_eq!(down.iter().map(|l| l.price).collect::<Vec<_>>(), vec![30, 20, 10]);
}

#[test]
fn zero_size_level_is_kept() {
    let mut ladder = PriceLadder::new();
    ladder.replace(&vec![lvl(10, 5)]);
    ladder.upsert(&vec![lvl(10, 0)]);
    assert_eq!(ladder.best_ascending(), vec![lvl(10, 0)]);
}

#[test]
fn snapshot_with_repeated_price_keeps_last() {
    let mut ladder = PriceLadder::new();
    ladder.replace(&vec![lvl(10, 1), lvl(10, 8)]);
    assert_eq!(ladder.best_ascending(), vec![lvl(10, 8)]);
}

#[test]
fn ladders_are_well_formed() {
    let mut ladder = PriceLadder::new();
    assert!(ladder.is_well_formed());
    ladder.replace(&vec![lvl(3, 1), lvl(1, 1), lvl(2, 1)]);
    assert!(ladder.is_well_formed());
    ladder.upsert(&vec![lvl(7, 1), lvl(2, 9)]);
    assert!(ladder.is_well_formed());
}
