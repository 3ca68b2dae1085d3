//! Venue B: the fixed subscription payload, the shape of its inbound
//! feed messages, and the normalizer that turns them into
//! venue-agnostic update events.
//!
//! The wire protocol: one subscription message to a fixed channel, no
//! authentication. Inbound updates carry rows of price and size
//! strings and a discriminant that is `"subscribed"` for the initial
//! full snapshot and anything else for an incremental delta. Inbound
//! pings are answered at the transport, outside the library.

use crate::book::{ladder_after_event, UpdateEvent, VenueOrderBook};
use crate::ladder::PriceLevel;
use crate::numeric::{dec_valid, dec_value, parse_amount, DecodeError};
use crate::text::str_eq;
use vstd::prelude::*;

verus! {

broadcast use vstd::string::group_string_axioms;

/// The subscription request: fixed channel and instrument.
pub struct OrderbookPayloadDXDY {
    pub message_type: String,
    pub channel: String,
    pub id: String,
}

impl Default for OrderbookPayloadDXDY {
    fn default() -> (r: Self)
        ensures
            r.message_type@ == "subscribe"@,
            r.channel@ == "v4_orderbook"@,
            r.id@ == "ETH-USDC"@,
    {
        OrderbookPayloadDXDY {
            message_type: "subscribe".to_string(),
            channel: "v4_orderbook".to_string(),
            id: "ETH-USDC".to_string(),
        }
    }
}

/// One inbound level: price and size as decimal strings.
pub struct PriceDataDXDY {
    pub price: String,
    pub size: String,
}

/// The two sides an inbound message carries.
pub struct OrderbookDXDYData {
    pub bids: Vec<PriceDataDXDY>,
    pub asks: Vec<PriceDataDXDY>,
}

/// One inbound order-book message.
pub struct OrderbookDXDYResponse {
    pub message_type: String,
    pub contents: OrderbookDXDYData,
}

/// A row is usable when both strings parse at whole-unit resolution.
pub open spec fn dxdy_row_valid(row: PriceDataDXDY) -> bool {
    &&& dec_valid(row.price@) && dec_value(row.price@) <= u64::MAX as int
    &&& dec_valid(row.size@) && dec_value(row.size@) <= u64::MAX as int
}

/// The level a row denotes; this venue attaches no auxiliary data.
pub open spec fn dxdy_row_level(row: PriceDataDXDY) -> PriceLevel {
    PriceLevel {
        price: dec_value(row.price@) as u64,
        size: dec_value(row.size@) as u64,
        auxiliary: None,
    }
}

pub open spec fn dxdy_rows_valid(rows: Seq<PriceDataDXDY>) -> bool {
    forall|i: int| 0 <= i < rows.len() ==> dxdy_row_valid(#[trigger] rows[i])
}

/// The levels a whole side of the message denotes, row by row.
pub open spec fn dxdy_levels(rows: Seq<PriceDataDXDY>) -> Seq<PriceLevel> {
    rows.map_values(|row: PriceDataDXDY| dxdy_row_level(row))
}

/// Whether the message is the initial full snapshot (any other
/// discriminant is an incremental delta).
pub open spec fn dxdy_is_snapshot(resp: OrderbookDXDYResponse) -> bool {
    resp.message_type@ == "subscribed"@
}

/// Parses one side's rows; fails on the first malformed row, in
/// which case the whole update must be discarded.
fn parse_rows(rows: &Vec<PriceDataDXDY>) -> (r: Result<Vec<PriceLevel>, DecodeError>)
    ensures
        match r {
            Ok(levels) => dxdy_rows_valid(rows@) && levels@ == dxdy_levels(rows@),
            Err(e) => e == DecodeError::BadNumber && !dxdy_rows_valid(rows@),
        },
{
    let n = rows.len();
    let mut out: Vec<PriceLevel> = Vec::new();
    let mut i: usize = 0;
    while i < n
        invariant
            i <= n,
            n == rows@.len(),
            forall|j: int| 0 <= j < i ==> dxdy_row_valid(#[trigger] rows@[j]),
            out@.len() == i,
            forall|j: int| 0 <= j < i ==> out@[j] == dxdy_row_level(#[trigger] rows@[j]),
        decreases n - i,
    {
        let row: &PriceDataDXDY = &rows[i];
        let price = match parse_amount(row.price.as_str()) {
            Ok(v) => v,
            Err(e) => {
                proof {
                    assert(!dxdy_row_valid(rows@[i as int]));
                }
                return Err(e);
            },
        };
        let size = match parse_amount(row.size.as_str()) {
            Ok(v) => v,
            Err(e) => {
                proof {
                    assert(!dxdy_row_valid(rows@[i as int]));
                }
                return Err(e);
            },
        };
        out.push(PriceLevel { price, size, auxiliary: None });
        i = i + 1;
    }
    proof {
        assert(out@ =~= dxdy_levels(rows@));
    }
    Ok(out)
}

/// The venue B normalizer: decodes an inbound message's payload into
/// a venue-agnostic update event, or fails on any malformed numeric
/// string, leaving nothing applied.
pub fn normalize(resp: &OrderbookDXDYResponse) -> (r: Result<UpdateEvent, DecodeError>)
    ensures
        match r {
            Ok(ev) => {
                &&& dxdy_rows_valid(resp.contents.bids@)
                &&& dxdy_rows_valid(resp.contents.asks@)
                &&& ev.is_snapshot() == dxdy_is_snapshot(*resp)
                &&& ev.bid_levels() == dxdy_levels(resp.contents.bids@)
                &&& ev.ask_levels() == dxdy_levels(resp.contents.asks@)
            },
            Err(e) => e == DecodeError::BadNumber && !(dxdy_rows_valid(resp.contents.bids@)
                && dxdy_rows_valid(resp.contents.asks@)),
        },
{
    let bids = match parse_rows(&resp.contents.bids) {
        Ok(v) => v,
        Err(e) => {
            return Err(e);
        },
    };
    let asks = match parse_rows(&resp.contents.asks) {
        Ok(v) => v,
        Err(e) => {
            return Err(e);
        },
    };
    if str_eq(resp.message_type.as_str(), "subscribed") {
        Ok(UpdateEvent::Snapshot { bids, asks })
    } else {
        Ok(UpdateEvent::Delta { bids, asks })
    }
}

/// Venue B's order book, fed exclusively by its normalizer.
pub struct OrderbookDXDY {
    pub book: VenueOrderBook,
}

impl OrderbookDXDY {
    /// An empty book.
    pub fn new() -> (r: Self)
        ensures
            r.book.wf(),
            r.book.bids@ == Seq::<PriceLevel>::empty(),
            r.book.asks@ == Seq::<PriceLevel>::empty(),
    {
        OrderbookDXDY { book: VenueOrderBook::new() }
    }

    /// Applies one inbound message: the initial snapshot replaces
    /// both ladders, anything else upserts level by level. A
    /// malformed numeric string fails the whole update and leaves the
    /// book untouched.
    pub fn apply_changes(&mut self, resp: OrderbookDXDYResponse) -> (r: Result<(), DecodeError>)
        requires
            old(self).book.wf(),
        ensures
            final(self).book.wf(),
            match r {
                Ok(_) => {
                    &&& dxdy_rows_valid(resp.contents.bids@)
                    &&& dxdy_rows_valid(resp.contents.asks@)
                    &&& final(self).book.bids.contents() == ladder_after_event(
                        old(self).book.bids.contents(),
                        dxdy_is_snapshot(resp),
                        dxdy_levels(resp.contents.bids@),
                    )
                    &&& final(self).book.asks.contents() == ladder_after_event(
                        old(self).book.asks.contents(),
                        dxdy_is_snapshot(resp),
                        dxdy_levels(resp.contents.asks@),
                    )
                },
                Err(e) => {
                    &&& e == DecodeError::BadNumber
                    &&& !(dxdy_rows_valid(resp.contents.bids@) && dxdy_rows_valid(
                        resp.contents.asks@,
                    ))
                    &&& final(self).book.bids@ == old(self).book.bids@
                    &&& final(self).book.asks@ == old(self).book.asks@
                },
            },
    {
        match normalize(&resp) {
            Ok(ev) => {
                self.book.apply_update(&ev);
                Ok(())
            },
            Err(e) => Err(e),
        }
    }
}

impl Default for OrderbookDXDY {
    /// An empty book.
    fn default() -> (r: Self)
        ensures
            r.book.wf(),
            r.book.bids@ == Seq::<PriceLevel>::empty(),
            r.book.asks@ == Seq::<PriceLevel>::empty(),
    {
        OrderbookDXDY::new()
    }
}

/// The handshake endpoint for venue B: no authentication is sent,
/// only the address is carried. Opening the socket is transport work
/// and lives outside the library.
pub struct DXDYWSAuthenticator<'a> {
    pub wss_addr: &'a str,
}

impl<'a> DXDYWSAuthenticator<'a> {
    pub fn new(wss_addr: &'a str) -> (r: Self)
        ensures
            r.wss_addr == wss_addr,
    {
        DXDYWSAuthenticator { wss_addr }
    }
}

} // verus!
