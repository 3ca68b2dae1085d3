use arbitrage_bot::book::{UpdateEvent, VenueOrderBook};
use arbitrage_bot::ladder::PriceLevel;

fn lvl(price: u64, size: u64) -> PriceLevel {
    PriceLevel { price, size, auxiliary: None }
}

fn book_with(bids: Vec<PriceLevel>, asks: Vec<PriceLevel>) -> VenueOrderBook {
    let mut book = VenueOrderBook::new();
    book.apply_update(&UpdateEvent::Snapshot { bids, asks });
    book
}

#[test]
fn buy_on_empty_ask_ladder_returns_zero() {
    let book = book_with(vec![lvl(50, 10)], vec![]);
    assert_eq!(book.buy_as_much_as_possible(1), 0);
    assert_eq!(book.buy_as_much_as_possible(1000), 0);
    assert_eq!(book.buy_as_much_as_possible(u64::MAX), 0);
}

#[test]
fn buy_truncates_at_unaffordable_level() {
    // Asks 100 x 5 and 110 x 5 with capital 600: the first level costs
    // 500, the remaining 100 buys 100/110 = 0 at the next, so exactly
    // 5 units come back.
    let book = book_with(vec![], vec![lvl(100, 5), lvl(110, 5)]);
    assert_eq!(book.buy_as_much_as_possible(600), 5);
}

#[test]
fn buy_takes_truncated_fraction_of_first_level() {
    let book = book_with(vec![], vec![lvl(10, 3)]);
    // 3 units would cost 30; 25 affords 25/10 = 2.
    assert_eq!(book.buy_as_much_as_possible(25), 2);
}

#[test]
fn buy_spends_across_levels() {
    let book = book_with(vec![], vec![lvl(10, 2), lvl(20, 2), lvl(30, 2)]);
    // 20 buys both at 10; 40 more buys both at 20; 15 left buys 0 at 30.
    assert_eq!(book.buy_as_much_as_possible(75), 4);
    // 120 buys everything.
    assert_eq!(book.buy_as_much_as_possible(120), 6);
}

#[test]
fn buy_with_zero_capital_returns_zero() {
    let book = book_with(vec![], vec![lvl(100, 5)]);
    assert_eq!(book.buy_as_much_as_possible(0), 0);
}

#[test]
fn sell_fills_best_bids_first() {
    let book = book_with(vec![lvl(90, 5), lvl(100, 5)], vec![]);
    // 7 units: 5 at 100, then 2 at 90.
    assert_eq!(book.sell_as_much_as_possible(7), 5 * 100 + 2 * 90);
}

#[test]
fn sell_more_than_resting_liquidity() {
    let book = book_with(vec![lvl(50, 2)], vec![]);
    // Only 2 units of demand rest; the remaining 8 find no bid.
    assert_eq!(book.sell_as_much_as_possible(10), 2 * 50);
}

#[test]
fn sell_on_empty_bid_ladder_returns_zero() {
    let book = book_with(vec![], vec![lvl(10, 10)]);
    assert_eq!(book.sell_as_much_as_possible(100), 0);
}

#[test]
fn round_trip_on_uncrossed_book_never_profits() {
    // Every bid (90) is at or below every ask (100): buying and
    // selling straight back cannot beat the original capital.
    let book = book_with(vec![lvl(90, 10)], vec![lvl(100, 10)]);
    let capital = 500;
    let bought = book.buy_as_much_as_possible(capital);
    assert_eq!(bought, 5);
    let back = book.sell_as_much_as_possible(bought);
    assert_eq!(back, 450);
    assert!(back <= capital);
}

#[test]
fn round_trip_at_equal_prices_only_loses_truncation() {
    let book = book_with(vec![lvl(100, 10)], vec![lvl(100, 10)]);
    let capital = 650;
    let back = book.sell_as_much_as_possible(book.buy_as_much_as_possible(capital));
    assert_eq!(back, 600);
    assert!(back <= capital);
}
