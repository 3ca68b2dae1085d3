//! Liquidity walks and the arbitrage evaluation: simulating an
//! aggressive market order over a ladder and comparing the two
//! cross-venue round trips.

use crate::aevo::OrderbookAEVO;
use crate::book::VenueOrderBook;
use crate::dxdy::OrderbookDXDY;
use crate::ladder::PriceLevel;
use vstd::arithmetic::div_mod::{
    lemma_div_nonincreasing, lemma_div_pos_is_pos, lemma_fundamental_div_mod,
    lemma_mod_division_less_than_divisor,
};
use vstd::arithmetic::mul::{lemma_mul_inequality, lemma_mul_nonnegative};
use vstd::prelude::*;

verus! {

/// Price delta after an arbitrage simulation.
pub type PriceDelta = u64;

/// Clamp to what a `u64` result can report.
pub open spec fn sat64(x: int) -> int {
    if x > u64::MAX as int {
        u64::MAX as int
    } else {
        x
    }
}

/// The quantity obtained by an aggressive market buy that walks
/// `levels` in the given order (best price first) with `balance`
/// capital: each level is consumed whole while `price * size` is
/// affordable; at the first unaffordable level the truncated quotient
/// of the remaining capital by the price is bought and the walk
/// stops. The walk also stops once the capital is exactly exhausted.
pub open spec fn buy_walk(levels: Seq<PriceLevel>, balance: int) -> int
    decreases levels.len(),
{
    if levels.len() == 0 {
        0
    } else {
        let l = levels[0];
        let cost = l.price * l.size;
        if cost <= balance {
            if balance == cost {
                l.size as int
            } else {
                l.size + buy_walk(levels.drop_first(), balance - cost)
            }
        } else {
            balance / (l.price as int)
        }
    }
}

/// The capital obtained by an aggressive market sell that walks
/// `levels` in the given order (best price first) with `quantity` of
/// the asset: each level's size is filled whole while the remaining
/// quantity covers it; at the first level it does not cover, the
/// whole remainder is sold at that price and the walk stops. The walk
/// also stops once the quantity is exactly exhausted.
pub open spec fn sell_walk(levels: Seq<PriceLevel>, quantity: int) -> int
    decreases levels.len(),
{
    if levels.len() == 0 {
        0
    } else {
        let l = levels[0];
        if l.size <= quantity {
            if quantity == l.size {
                l.price * l.size
            } else {
                l.price * l.size + sell_walk(levels.drop_first(), quantity - l.size)
            }
        } else {
            quantity * l.price
        }
    }
}

/// What a market buy with `balance` obtains on this book: a walk of
/// the ask ladder from the lowest price upward, clamped to `u64`.
pub open spec fn book_buy(book: VenueOrderBook, balance: int) -> int {
    sat64(buy_walk(book.asks@, balance))
}

/// What a market sell of `quantity` obtains on this book: a walk of
/// the bid ladder from the highest price downward, clamped to `u64`.
pub open spec fn book_sell(book: VenueOrderBook, quantity: int) -> int {
    sat64(sell_walk(book.bids@.reverse(), quantity))
}

/// Total size resting in a level list.
pub open spec fn sum_sizes(levels: Seq<PriceLevel>) -> int
    decreases levels.len(),
{
    if levels.len() == 0 {
        0
    } else {
        levels[0].size + sum_sizes(levels.drop_first())
    }
}

pub proof fn lemma_buy_walk_nonneg(levels: Seq<PriceLevel>, balance: int)
    requires
        balance >= 0,
    ensures
        0 <= buy_walk(levels, balance),
    decreases levels.len(),
{
    if levels.len() > 0 {
        let l = levels[0];
        let cost = l.price * l.size;
        if cost <= balance {
            if balance != cost {
                lemma_buy_walk_nonneg(levels.drop_first(), balance - cost);
            }
        } else {
            assert(l.price >= 1) by {
                if l.price == 0 {
                    assert(cost == 0);
                }
            }
            lemma_div_pos_is_pos(balance, l.price as int);
        }
    }
}

pub proof fn lemma_sell_walk_nonneg(levels: Seq<PriceLevel>, quantity: int)
    requires
        quantity >= 0,
    ensures
        0 <= sell_walk(levels, quantity),
    decreases levels.len(),
{
    if levels.len() > 0 {
        let l = levels[0];
        lemma_mul_nonnegative(l.price as int, l.size as int);
        lemma_mul_nonnegative(quantity, l.price as int);
        if l.size <= quantity && quantity != l.size {
            lemma_sell_walk_nonneg(levels.drop_first(), quantity - l.size);
        }
    }
}

/// A buy can never obtain more than everything resting plus one unit
/// per capital unit.
pub proof fn lemma_buy_walk_upper(levels: Seq<PriceLevel>, balance: int)
    requires
        balance >= 0,
    ensures
        buy_walk(levels, balance) <= sum_sizes(levels) + balance,
    decreases levels.len(),
{
    if levels.len() > 0 {
        let l = levels[0];
        let cost = l.price * l.size;
        lemma_sum_sizes_nonneg(levels.drop_first());
        if cost <= balance {
            lemma_mul_nonnegative(l.price as int, l.size as int);
            if balance != cost {
                lemma_buy_walk_upper(levels.drop_first(), balance - cost);
            }
        } else {
            assert(l.price >= 1) by {
                if l.price == 0 {
                    assert(cost == 0);
                }
            }
            lemma_div_nonincreasing(balance, l.price as int);
        }
    }
}

pub proof fn lemma_sum_sizes_nonneg(levels: Seq<PriceLevel>)
    ensures
        0 <= sum_sizes(levels),
    decreases levels.len(),
{
    if levels.len() > 0 {
        lemma_sum_sizes_nonneg(levels.drop_first());
    }
}

pub proof fn lemma_sum_sizes_bound(levels: Seq<PriceLevel>)
    ensures
        sum_sizes(levels) <= levels.len() * (u64::MAX as int),
    decreases levels.len(),
{
    if levels.len() > 0 {
        lemma_sum_sizes_bound(levels.drop_first());
        assert(levels.len() * (u64::MAX as int) == (levels.len() - 1) * (u64::MAX as int) + (
        u64::MAX as int)) by (nonlinear_arith);
    }
}

/// A sell of `quantity` can never obtain more than `quantity` times
/// the largest representable price.
pub proof fn lemma_sell_walk_upper(levels: Seq<PriceLevel>, quantity: int)
    requires
        quantity >= 0,
    ensures
        sell_walk(levels, quantity) <= quantity * (u64::MAX as int),
    decreases levels.len(),
{
    let m = u64::MAX as int;
    lemma_mul_nonnegative(quantity, m);
    if levels.len() > 0 {
        let l = levels[0];
        let p = l.price as int;
        let z = l.size as int;
        if l.size <= quantity {
            assert(p * z <= z * m) by (nonlinear_arith)
                requires
                    0 <= p <= m,
                    0 <= z,
            ;
            if quantity == l.size {
                assert(z * m <= quantity * m);
            } else {
                lemma_sell_walk_upper(levels.drop_first(), quantity - z);
                assert(z * m + (quantity - z) * m == quantity * m) by (nonlinear_arith);
            }
        } else {
            lemma_mul_inequality(p, m, quantity);
            assert(quantity * p == p * quantity) by (nonlinear_arith);
            assert(m * quantity == quantity * m) by (nonlinear_arith);
        }
    }
}

/// With every price in the walk at least `p`, spending `balance`
/// cannot obtain more than `balance / p` units: the capital bounds
/// the quantity.
pub proof fn lemma_buy_walk_min_price(levels: Seq<PriceLevel>, balance: int, p: int)
    requires
        balance >= 0,
        0 <= p,
        forall|i: int| 0 <= i < levels.len() ==> p <= (#[trigger] levels[i]).price,
    ensures
        p * buy_walk(levels, balance) <= balance,
    decreases levels.len(),
{
    if levels.len() == 0 {
        assert(p * 0 == 0) by (nonlinear_arith);
    } else {
        let l = levels[0];
        let cost = l.price * l.size;
        let z = l.size as int;
        let q = l.price as int;
        if cost <= balance {
            assert(p * z <= q * z) by (nonlinear_arith)
                requires
                    0 <= p <= q,
                    0 <= z,
            ;
            if balance == cost {
            } else {
                let rest = levels.drop_first();
                assert(forall|i: int| 0 <= i < rest.len() ==> p <= (#[trigger] rest[i]).price)
                    by {
                    assert(forall|i: int| 0 <= i < rest.len() ==> rest[i] == levels[i + 1]);
                }
                lemma_buy_walk_min_price(rest, balance - cost, p);
                assert(p * (z + buy_walk(rest, balance - cost)) == p * z + p * buy_walk(
                    rest,
                    balance - cost,
                )) by (nonlinear_arith);
            }
        } else {
            assert(q >= 1) by {
                if l.price == 0 {
                    assert(cost == 0);
                }
            }
            let d = balance / q;
            lemma_div_pos_is_pos(balance, q);
            lemma_fundamental_div_mod(balance, q);
            lemma_mod_division_less_than_divisor(balance, q);
            assert(q * d <= balance);
            assert(p * d <= q * d) by (nonlinear_arith)
                requires
                    0 <= p <= q,
                    0 <= d,
            ;
        }
    }
}

/// With every price in the walk at most `p`, selling `quantity`
/// cannot obtain more than `quantity * p`.
pub proof fn lemma_sell_walk_max_price(levels: Seq<PriceLevel>, quantity: int, p: int)
    requires
        quantity >= 0,
        0 <= p,
        forall|i: int| 0 <= i < levels.len() ==> (#[trigger] levels[i]).price <= p,
    ensures
        sell_walk(levels, quantity) <= quantity * p,
    decreases levels.len(),
{
    lemma_mul_nonnegative(quantity, p);
    if levels.len() > 0 {
        let l = levels[0];
        let q = l.price as int;
        let z = l.size as int;
        if l.size <= quantity {
            assert(q * z <= z * p) by (nonlinear_arith)
                requires
                    0 <= q <= p,
                    0 <= z,
            ;
            if quantity == l.size {
                assert(z * p <= quantity * p);
            } else {
                let rest = levels.drop_first();
                assert(forall|i: int| 0 <= i < rest.len() ==> (#[trigger] rest[i]).price <= p)
                    by {
                    assert(forall|i: int| 0 <= i < rest.len() ==> rest[i] == levels[i + 1]);
                }
                lemma_sell_walk_max_price(rest, quantity - z, p);
                assert(z * p + (quantity - z) * p == quantity * p) by (nonlinear_arith);
            }
        } else {
            assert(quantity * q <= quantity * p) by (nonlinear_arith)
                requires
                    0 <= quantity,
                    q <= p,
            ;
        }
    }
}

/// The smallest price among the levels.
pub open spec fn min_price(levels: Seq<PriceLevel>) -> int
    recommends
        levels.len() > 0,
    decreases levels.len(),
{
    if levels.len() <= 1 {
        if levels.len() == 1 {
            levels[0].price as int
        } else {
            0
        }
    } else {
        let m = min_price(levels.drop_first());
        if levels[0].price <= m {
            levels[0].price as int
        } else {
            m
        }
    }
}

pub proof fn lemma_min_price(levels: Seq<PriceLevel>)
    requires
        levels.len() > 0,
    ensures
        forall|i: int| 0 <= i < levels.len() ==> min_price(levels) <= (#[trigger] levels[i]).price,
        exists|i: int| 0 <= i < levels.len() && (#[trigger] levels[i]).price == min_price(levels),
    decreases levels.len(),
{
    if levels.len() == 1 {
        assert(levels[0].price == min_price(levels));
    } else {
        let rest = levels.drop_first();
        lemma_min_price(rest);
        assert(forall|i: int| 0 <= i < rest.len() ==> rest[i] == levels[i + 1]);
        assert forall|i: int| 0 <= i < levels.len() implies min_price(levels) <= (
        #[trigger] levels[i]).price by {
            if i >= 1 {
                assert(levels[i] == rest[i - 1]);
                assert(min_price(rest) <= rest[i - 1].price);
            }
        }
        if levels[0].price <= min_price(rest) {
            assert(levels[0].price == min_price(levels));
        } else {
            let j = choose|i: int| 0 <= i < rest.len() && (#[trigger] rest[i]).price == min_price(
                rest,
            );
            assert(levels[j + 1].price == min_price(levels));
        }
    }
}

/// No free arbitrage within one venue: buying with `balance` and
/// immediately selling the proceeds back on the same book never
/// yields more than `balance`, provided no bid is priced above any
/// ask.
pub proof fn lemma_no_free_arbitrage(book: VenueOrderBook, balance: int)
    requires
        0 <= balance,
        forall|i: int, j: int|
            0 <= i < book.bids@.len() && 0 <= j < book.asks@.len() ==> (#[trigger] book.bids@[i]).price
                <= (#[trigger] book.asks@[j]).price,
    ensures
        book_sell(book, book_buy(book, balance)) <= balance,
{
    let asks = book.asks@;
    let bids_desc = book.bids@.reverse();
    let bw = buy_walk(asks, balance);
    lemma_buy_walk_nonneg(asks, balance);
    let q = sat64(bw);
    assert(0 <= q <= bw);
    if asks.len() == 0 {
        assert(forall|i: int| 0 <= i < bids_desc.len() ==> (#[trigger] bids_desc[i]).price <= (
        u64::MAX as int));
        lemma_sell_walk_max_price(bids_desc, q, u64::MAX as int);
        lemma_sell_walk_nonneg(bids_desc, q);
        assert(q == 0);
        assert(q * (u64::MAX as int) == 0) by (nonlinear_arith)
            requires
                q == 0,
        ;
    } else {
        lemma_min_price(asks);
        let p = min_price(asks);
        let j = choose|i: int| 0 <= i < asks.len() && (#[trigger] asks[i]).price == p;
        assert(0 <= p);
        assert(forall|i: int| 0 <= i < bids_desc.len() ==> (#[trigger] bids_desc[i]).price <= p)
            by {
            assert(forall|i: int|
                0 <= i < bids_desc.len() ==> bids_desc[i] == book.bids@[bids_desc.len() - 1 - i]);
        }
        lemma_buy_walk_min_price(asks, balance, p);
        lemma_sell_walk_max_price(bids_desc, q, p);
        lemma_sell_walk_nonneg(bids_desc, q);
        assert(q * p <= bw * p) by (nonlinear_arith)
            requires
                0 <= q <= bw,
                0 <= p,
        ;
        assert(bw * p == p * bw) by (nonlinear_arith);
        assert(sell_walk(bids_desc, q) <= balance);
    }
}

/// A buy on an empty ask ladder obtains nothing, whatever the
/// capital.
pub proof fn lemma_buy_empty_asks(book: VenueOrderBook, balance: int)
    requires
        book.asks@.len() == 0,
    ensures
        book_buy(book, balance) == 0,
{
}

impl VenueOrderBook {
    /// Simulates a market buy: walks the ask ladder from the lowest
    /// price upward, consuming whole levels while affordable and a
    /// truncated fraction of the first level that is not, and returns
    /// the quantity obtained, clamped to `u64`. Read-only; the book
    /// is not changed.
    pub fn buy_as_much_as_possible(&self, balance: u64) -> (r: u64)
        ensures
            r as int == book_buy(*self, balance as int),
    {
        let levels = self.asks.best_ascending();
        let ghost s = levels@;
        let n = levels.len();
        let mut curr: u128 = balance as u128;
        let mut asset: u128 = 0;
        let mut stop: bool = false;
        let mut i: usize = 0;
        proof {
            assert(s.skip(0) =~= s);
        }
        while i < n && !stop
            invariant
                i <= n,
                n == s.len(),
                s == self.asks@,
                s == levels@,
                curr <= balance as u128,
                asset + (if stop {
                    0int
                } else {
                    buy_walk(s.skip(i as int), curr as int)
                }) == buy_walk(s, balance as int),
            decreases n - i,
        {
            let ghost tail = s.skip(i as int);
            proof {
                assert(tail.len() > 0);
                assert(tail[0] == s[i as int]);
                assert(tail.drop_first() =~= s.skip(i + 1 as int));
                lemma_buy_walk_upper(s, balance as int);
                lemma_sum_sizes_bound(s);
                assert(s.len() * (u64::MAX as int) <= (u64::MAX as int) * (u64::MAX as int))
                    by (nonlinear_arith)
                    requires
                        0 <= s.len() <= u64::MAX as int,
                ;
            }
            let l = levels[i];
            proof {
                assert((l.price as int) * (l.size as int) <= (u64::MAX as int) * (u64::MAX as int))
                    by (nonlinear_arith)
                    requires
                        0 <= l.price as int <= u64::MAX as int,
                        0 <= l.size as int <= u64::MAX as int,
                ;
            }
            let cost: u128 = (l.price as u128) * (l.size as u128);
            if cost <= curr {
                proof {
                    if curr as int != cost as int {
                        lemma_buy_walk_nonneg(s.skip(i + 1 as int), curr as int - cost as int);
                    }
                }
                asset = asset + (l.size as u128);
                curr = curr - cost;
            } else {
                proof {
                    assert(l.price >= 1) by {
                        if l.price == 0 {
                            assert((l.price as int) * (l.size as int) == 0) by (nonlinear_arith)
                                requires
                                    l.price as int == 0,
                            ;
                        }
                    }
                    lemma_div_pos_is_pos(curr as int, l.price as int);
                    lemma_div_nonincreasing(curr as int, l.price as int);
                }
                asset = asset + curr / (l.price as u128);
                curr = 0;
            }
            if curr == 0 {
                stop = true;
            }
            i = i + 1;
        }
        proof {
            if !stop {
                assert(s.skip(n as int) =~= Seq::<PriceLevel>::empty());
            }
        }
        if asset > (u64::MAX as u128) {
            u64::MAX
        } else {
            asset as u64
        }
    }

    /// Simulates a market sell: walks the bid ladder from the highest
    /// price downward, filling whole levels while the remaining
    /// quantity covers them and selling the whole remainder into the
    /// first level it does not cover, and returns the capital
    /// obtained, clamped to `u64`. Read-only; the book is not
    /// changed.
    pub fn sell_as_much_as_possible(&self, asset_balance: u64) -> (r: u64)
        ensures
            r as int == book_sell(*self, asset_balance as int),
    {
        let levels = self.bids.best_descending();
        let ghost s = levels@;
        proof {
            assert(s == self.bids@.reverse());
        }
        let n = levels.len();
        let mut curr: u128 = asset_balance as u128;
        let mut balance: u128 = 0;
        let mut stop: bool = false;
        let mut i: usize = 0;
        proof {
            assert(s.skip(0) =~= s);
        }
        while i < n && !stop
            invariant
                i <= n,
                n == s.len(),
                s == self.bids@.reverse(),
                s == levels@,
                curr <= asset_balance as u128,
                balance + (if stop {
                    0int
                } else {
                    sell_walk(s.skip(i as int), curr as int)
                }) == sell_walk(s, asset_balance as int),
            decreases n - i,
        {
            let ghost tail = s.skip(i as int);
            proof {
                assert(tail.len() > 0);
                assert(tail[0] == s[i as int]);
                assert(tail.drop_first() =~= s.skip(i + 1 as int));
                lemma_sell_walk_upper(s, asset_balance as int);
                assert((asset_balance as int) * (u64::MAX as int) <= (u64::MAX as int) * (
                u64::MAX as int)) by (nonlinear_arith)
                    requires
                        0 <= asset_balance as int <= u64::MAX as int,
                ;
            }
            let l = levels[i];
            proof {
                assert((l.price as int) * (l.size as int) <= (u64::MAX as int) * (u64::MAX as int))
                    by (nonlinear_arith)
                    requires
                        0 <= l.price as int <= u64::MAX as int,
                        0 <= l.size as int <= u64::MAX as int,
                ;
                assert((curr as int) * (l.price as int) <= (u64::MAX as int) * (u64::MAX as int))
                    by (nonlinear_arith)
                    requires
                        0 <= curr as int <= u64::MAX as int,
                        0 <= l.price as int <= u64::MAX as int,
                ;
            }
            if (l.size as u128) <= curr {
                proof {
                    if curr as int != l.size as int {
                        lemma_sell_walk_nonneg(s.skip(i + 1 as int), curr as int - l.size as int);
                    }
                }
                balance = balance + (l.price as u128) * (l.size as u128);
                curr = curr - (l.size as u128);
            } else {
                balance = balance + curr * (l.price as u128);
                curr = 0;
            }
            if curr == 0 {
                stop = true;
            }
            i = i + 1;
        }
        proof {
            if !stop {
                assert(s.skip(n as int) =~= Seq::<PriceLevel>::empty());
            }
        }
        if balance > (u64::MAX as u128) {
            u64::MAX
        } else {
            balance as u64
        }
    }
}

impl OrderbookAEVO {
    /// Matches against the venue's ask ladder to buy as much of the
    /// asset as possible with `balance`.
    pub fn buy_as_much_as_possible(&self, balance: u64) -> (r: u64)
        ensures
            r as int == book_buy(self.book, balance as int),
    {
        self.book.buy_as_much_as_possible(balance)
    }

    /// Matches against the venue's bid ladder to sell as much of
    /// `asset_balance` as possible.
    pub fn sell_as_much_as_possible(&self, asset_balance: u64) -> (r: u64)
        ensures
            r as int == book_sell(self.book, asset_balance as int),
    {
        self.book.sell_as_much_as_possible(asset_balance)
    }
}

impl OrderbookDXDY {
    /// Matches against the venue's ask ladder to buy as much of the
    /// asset as possible with `balance`.
    pub fn buy_as_much_as_possible(&self, balance: u64) -> (r: u64)
        ensures
            r as int == book_buy(self.book, balance as int),
    {
        self.book.buy_as_much_as_possible(balance)
    }

    /// Matches against the venue's bid ladder to sell as much of
    /// `asset_balance` as possible.
    pub fn sell_as_much_as_possible(&self, asset_balance: u64) -> (r: u64)
        ensures
            r as int == book_sell(self.book, asset_balance as int),
    {
        self.book.sell_as_much_as_possible(asset_balance)
    }
}

/// The capital obtained by buying on `buy_on` with `balance` and
/// selling the proceeds on `sell_on`.
pub open spec fn round_trip(buy_on: VenueOrderBook, sell_on: VenueOrderBook, balance: int) -> int {
    book_sell(sell_on, book_buy(buy_on, balance))
}

/// The arbitrage evaluator: simulates both round trips for the given
/// capital and reports the chosen delta magnitude and a direction
/// sign. With at least one profitable direction (resulting capital at
/// least the original), the result is that direction's gain and sign
/// `+1` — a profitable path always beats an unprofitable one, even
/// when its gain is numerically smaller than the other side's loss.
/// With both directions unprofitable, the result is the smaller loss
/// and sign `-1`.
pub fn check_orderbooks(
    orderbook_aevo: &OrderbookAEVO,
    orderbook_dxdy: &OrderbookDXDY,
    balance: u64,
) -> (r: (PriceDelta, i8))
    ensures
        ({
            let b = balance as int;
            let lr = round_trip(orderbook_aevo.book, orderbook_dxdy.book, b);
            let rl = round_trip(orderbook_dxdy.book, orderbook_aevo.book, b);
            let best = if lr >= rl {
                lr
            } else {
                rl
            };
            &&& (lr >= b && rl >= b ==> r.1 == 1 && r.0 as int == best - b)
            &&& (lr < b && rl < b ==> r.1 == -1 && r.0 as int == b - best)
            &&& (lr >= b && rl < b ==> r.1 == 1 && r.0 as int == lr - b)
            &&& (lr < b && rl >= b ==> r.1 == 1 && r.0 as int == rl - b)
        }),
{
    // Buy the asset on venue A, sell it on venue B.
    let left_buy_right_sell = orderbook_dxdy.sell_as_much_as_possible(
        orderbook_aevo.buy_as_much_as_possible(balance),
    );
    // Buy the asset on venue B, sell it on venue A.
    let right_buy_left_sell = orderbook_aevo.sell_as_much_as_possible(
        orderbook_dxdy.buy_as_much_as_possible(balance),
    );
    if left_buy_right_sell >= balance && right_buy_left_sell >= balance {
        let best = if left_buy_right_sell >= right_buy_left_sell {
            left_buy_right_sell
        } else {
            right_buy_left_sell
        };
        (best - balance, 1)
    } else if left_buy_right_sell < balance && right_buy_left_sell < balance {
        let best = if left_buy_right_sell >= right_buy_left_sell {
            left_buy_right_sell
        } else {
            right_buy_left_sell
        };
        (balance - best, -1)
    } else if left_buy_right_sell >= balance {
        (left_buy_right_sell - balance, 1)
    } else {
        (right_buy_left_sell - balance, 1)
    }
}

/// One evaluation cycle's bookkeeping for the running total: a delta
/// reported with a positive direction is realized, one with a
/// negative direction means no trade and leaves the total unchanged.
pub fn accumulate_profit(cumulative: u64, delta: PriceDelta, sign: i8) -> (r: u64)
    requires
        sign > 0 ==> cumulative + delta <= u64::MAX,
    ensures
        r as int == if sign > 0 {
            cumulative + delta
        } else {
            cumulative as int
        },
{
    if sign > 0 {
        cumulative + delta
    } else {
        cumulative
    }
}

} // verus!
