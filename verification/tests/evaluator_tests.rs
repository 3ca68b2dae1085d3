use arbitrage_bot::aevo::OrderbookAEVO;
use arbitrage_bot::book::UpdateEvent;
use arbitrage_bot::calculations::{accumulate_profit, check_orderbooks};
use arbitrage_bot::dxdy::OrderbookDXDY;
use arbitrage_bot::ladder::PriceLevel;

fn lvl(price: u64, size: u64) -> PriceLevel {
    PriceLevel { price, size, auxiliary: None }
}

fn books(
    a_bids: Vec<PriceLevel>,
    a_asks: Vec<PriceLevel>,
    d_bids: Vec<PriceLevel>,
    d_asks: Vec<PriceLevel>,
) -> (OrderbookAEVO, OrderbookDXDY) {
    let mut a = OrderbookAEVO::new();
    a.book.apply_update(&UpdateEvent::Snapshot { bids: a_bids, asks: a_asks });
    let mut d = OrderbookDXDY::new();
    d.book.apply_update(&UpdateEvent::Snapshot { bids: d_bids, asks: d_asks });
    (a, d)
}

#[test]
fn both_directions_unprofitable_reports_smaller_loss() {
    // A->B: buy 1000 units at 1 on A, sell only 950 of them on B: 950
    // back, a loss of 50. B->A: buy 1000 units at 1 on B, sell only
    // 970 on A: a loss of 30. The least-bad loss is reported with a
    // negative direction.
    let (a, d) = books(
        vec![lvl(1, 970)],  // A bids: B->A sells into these
        vec![lvl(1, 1000)], // A asks: A->B buys from these
        vec![lvl(1, 950)],  // B bids: A->B sells into these
        vec![lvl(1, 1000)], // B asks: B->A buys from these
    );
    assert_eq!(check_orderbooks(&a, &d, 1000), (30, -1));
}

#[test]
fn profitable_direction_beats_larger_opposite_loss() {
    // A->B: buy 1000 at 1 on A, sell 500 at 2 and 5 at 1 on B: 1005
    // back, +5. B->A: buy 900 at 1 on B (100 unspent), sell at 1 on
    // A: 900 back, -100. The profitable +5 must win.
    let (a, d) = books(
        vec![lvl(1, 2000)],             // A bids
        vec![lvl(1, 1000)],             // A asks
        vec![lvl(2, 500), lvl(1, 5)],   // B bids
        vec![lvl(1, 900)],              // B asks
    );
    assert_eq!(check_orderbooks(&a, &d, 1000), (5, 1));
}

#[test]
fn both_directions_profitable_reports_larger_gain() {
    // A->B: buy 1000 at 1, sell all at 2: 2000 back, +1000.
    // B->A: buy 1000 at 1, sell 500 of them at 3: 1500 back, +500.
    let (a, d) = books(
        vec![lvl(3, 500)],  // A bids
        vec![lvl(1, 1000)], // A asks
        vec![lvl(2, 1000)], // B bids
        vec![lvl(1, 1000)], // B asks
    );
    assert_eq!(check_orderbooks(&a, &d, 1000), (1000, 1));
}

#[test]
fn breaking_even_counts_as_profitable() {
    let (a, d) = books(
        vec![lvl(1, 1000)],
        vec![lvl(1, 1000)],
        vec![lvl(1, 1000)],
        vec![lvl(1, 1000)],
    );
    assert_eq!(check_orderbooks(&a, &d, 1000), (0, 1));
}

#[test]
fn empty_books_report_full_loss_no_trade() {
    let a = OrderbookAEVO::new();
    let d = OrderbookDXDY::new();
    assert_eq!(check_orderbooks(&a, &d, 1000), (1000, -1));
}

#[test]
fn accumulate_profit_realizes_only_positive_direction() {
    assert_eq!(accumulate_profit(100, 30, 1), 130);
    assert_eq!(accumulate_profit(100, 30, -1), 100);
    assert_eq!(accumulate_profit(0, 0, 1), 0);
}
