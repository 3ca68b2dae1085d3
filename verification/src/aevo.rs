//! Venue A: payload builders for its handshake, the shape of its
//! inbound feed messages, and the normalizer that turns them into
//! venue-agnostic update events.
//!
//! The wire protocol: an auth message, then a channel-list request,
//! then a subscription to the first channel whose identifier contains
//! the traded ticker. Inbound updates carry rows of
//! (price, size, implied volatility) strings and a discriminant that
//! is `"snapshot"` for a full replacement and anything else for an
//! incremental delta.

use crate::book::{ladder_after_event, UpdateEvent, VenueOrderBook};
use crate::ladder::PriceLevel;
use crate::numeric::{dec_valid, dec_value, parse_amount, DecodeError};
use crate::text::{contains_seq, str_contains, str_eq};
use vstd::prelude::*;

verus! {

broadcast use vstd::string::group_string_axioms;

/// Credentials for the auth message.
pub struct AuthDataAEVO {
    pub key: String,
    pub secret: String,
}

impl AuthDataAEVO {
    pub fn new(key: String, secret: String) -> (r: Self)
        ensures
            r.key == key,
            r.secret == secret,
    {
        AuthDataAEVO { key, secret }
    }
}

/// The auth request sent once before streaming.
pub struct AuthPayloadAEVO {
    pub op: String,
    pub data: AuthDataAEVO,
}

impl AuthPayloadAEVO {
    pub fn new(key: String, secret: String) -> (r: Self)
        ensures
            r.op@ == "auth"@,
            r.data.key == key,
            r.data.secret == secret,
    {
        AuthPayloadAEVO { op: "auth".to_string(), data: AuthDataAEVO::new(key, secret) }
    }
}

/// The channel-discovery request.
pub struct ChannelsPayloadAEVO {
    pub op: String,
}

impl ChannelsPayloadAEVO {
    pub fn new() -> (r: Self)
        ensures
            r.op@ == "channels"@,
    {
        ChannelsPayloadAEVO { op: "channels".to_string() }
    }
}

/// The order-book subscription request for the chosen channels.
pub struct OrderbookPayloadAEVO {
    pub op: String,
    pub data: Vec<String>,
}

impl OrderbookPayloadAEVO {
    pub fn new(channels: Vec<String>) -> (r: Self)
        ensures
            r.op@ == "orderbook"@,
            r.data == channels,
    {
        OrderbookPayloadAEVO { op: "orderbook".to_string(), data: channels }
    }
}

/// The venue's answer to channel discovery.
pub struct ChannelsResponseAEVO {
    pub data: Vec<String>,
}

/// The body of an inbound order-book message. Each row is
/// (price, size, implied volatility) as decimal strings.
pub struct OrderbookAEVOData {
    pub message_type: String,
    pub instrument_type: String,
    pub bids: Vec<(String, String, String)>,
    pub asks: Vec<(String, String, String)>,
    pub last_updated: String,
}

/// One inbound order-book message.
pub struct OrderbookAEVOResponse {
    pub channel: String,
    pub data: OrderbookAEVOData,
}

/// Picks the subscription target out of the discovered channels: the
/// first whose identifier contains the traded ticker; none when no
/// identifier does.
pub fn select_channel(channels: &Vec<String>, ticker: &str) -> (r: Option<String>)
    ensures
        match r {
            Some(c) => exists|i: int|
                0 <= i < channels@.len() && c@ == (#[trigger] channels@[i])@ && contains_seq(
                    channels@[i]@,
                    ticker@,
                ) && (forall|j: int|
                    0 <= j < i ==> !contains_seq((#[trigger] channels@[j])@, ticker@)),
            None => forall|i: int|
                0 <= i < channels@.len() ==> !contains_seq((#[trigger] channels@[i])@, ticker@),
        },
{
    let n = channels.len();
    let mut i: usize = 0;
    while i < n
        invariant
            i <= n,
            n == channels@.len(),
            forall|j: int| 0 <= j < i ==> !contains_seq((#[trigger] channels@[j])@, ticker@),
        decreases n - i,
    {
        if str_contains(channels[i].as_str(), ticker) {
            let c = channels[i].clone();
            return Some(c);
        }
        i = i + 1;
    }
    None
}

/// A row is usable when all three strings parse at whole-unit
/// resolution.
pub open spec fn aevo_row_valid(row: (String, String, String)) -> bool {
    &&& dec_valid(row.0@) && dec_value(row.0@) <= u64::MAX as int
    &&& dec_valid(row.1@) && dec_value(row.1@) <= u64::MAX as int
    &&& dec_valid(row.2@) && dec_value(row.2@) <= u64::MAX as int
}

/// The level a row denotes: price and size keyed at whole units, the
/// implied volatility kept as auxiliary data.
pub open spec fn aevo_row_level(row: (String, String, String)) -> PriceLevel {
    PriceLevel {
        price: dec_value(row.0@) as u64,
        size: dec_value(row.1@) as u64,
        auxiliary: Some(dec_value(row.2@) as u64),
    }
}

pub open spec fn aevo_rows_valid(rows: Seq<(String, String, String)>) -> bool {
    forall|i: int| 0 <= i < rows.len() ==> aevo_row_valid(#[trigger] rows[i])
}

/// The levels a whole side of the message denotes, row by row.
pub open spec fn aevo_levels(rows: Seq<(String, String, String)>) -> Seq<PriceLevel> {
    rows.map_values(|row: (String, String, String)| aevo_row_level(row))
}

/// Whether the message announces a full snapshot (any other
/// discriminant is an incremental delta).
pub open spec fn aevo_is_snapshot(resp: OrderbookAEVOResponse) -> bool {
    resp.data.message_type@ == "snapshot"@
}

/// Parses one side's rows; fails on the first malformed row, in
/// which case the whole update must be discarded.
fn parse_rows(rows: &Vec<(String, String, String)>) -> (r: Result<Vec<PriceLevel>, DecodeError>)
    ensures
        match r {
            Ok(levels) => aevo_rows_valid(rows@) && levels@ == aevo_levels(rows@),
            Err(e) => e == DecodeError::BadNumber && !aevo_rows_valid(rows@),
        },
{
    let n = rows.len();
    let mut out: Vec<PriceLevel> = Vec::new();
    let mut i: usize = 0;
    while i < n
        invariant
            i <= n,
            n == rows@.len(),
            forall|j: int| 0 <= j < i ==> aevo_row_valid(#[trigger] rows@[j]),
            out@.len() == i,
            forall|j: int| 0 <= j < i ==> out@[j] == aevo_row_level(#[trigger] rows@[j]),
        decreases n - i,
    {
        let row: &(String, String, String) = &rows[i];
        let price = match parse_amount(row.0.as_str()) {
            Ok(v) => v,
            Err(e) => {
                proof {
                    assert(!aevo_row_valid(rows@[i as int]));
                }
                return Err(e);
            },
        };
        let size = match parse_amount(row.1.as_str()) {
            Ok(v) => v,
            Err(e) => {
                proof {
                    assert(!aevo_row_valid(rows@[i as int]));
                }
                return Err(e);
            },
        };
        let auxiliary = match parse_amount(row.2.as_str()) {
            Ok(v) => v,
            Err(e) => {
                proof {
                    assert(!aevo_row_valid(rows@[i as int]));
                }
                return Err(e);
            },
        };
        out.push(PriceLevel { price, size, auxiliary: Some(auxiliary) });
        i = i + 1;
    }
    proof {
        assert(out@ =~= aevo_levels(rows@));
    }
    Ok(out)
}

/// The venue A normalizer: decodes an inbound message's payload into
/// a venue-agnostic update event, or fails on any malformed numeric
/// string, leaving nothing applied.
pub fn normalize(resp: &OrderbookAEVOResponse) -> (r: Result<UpdateEvent, DecodeError>)
    ensures
        match r {
            Ok(ev) => {
                &&& aevo_rows_valid(resp.data.bids@)
                &&& aevo_rows_valid(resp.data.asks@)
                &&& ev.is_snapshot() == aevo_is_snapshot(*resp)
                &&& ev.bid_levels() == aevo_levels(resp.data.bids@)
                &&& ev.ask_levels() == aevo_levels(resp.data.asks@)
            },
            Err(e) => e == DecodeError::BadNumber && !(aevo_rows_valid(resp.data.bids@)
                && aevo_rows_valid(resp.data.asks@)),
        },
{
    let bids = match parse_rows(&resp.data.bids) {
        Ok(v) => v,
        Err(e) => {
            return Err(e);
        },
    };
    let asks = match parse_rows(&resp.data.asks) {
        Ok(v) => v,
        Err(e) => {
            return Err(e);
        },
    };
    if str_eq(resp.data.message_type.as_str(), "snapshot") {
        Ok(UpdateEvent::Snapshot { bids, asks })
    } else {
        Ok(UpdateEvent::Delta { bids, asks })
    }
}

/// Venue A's order book, fed exclusively by its normalizer.
pub struct OrderbookAEVO {
    pub book: VenueOrderBook,
}

impl OrderbookAEVO {
    /// An empty book.
    pub fn new() -> (r: Self)
        ensures
            r.book.wf(),
            r.book.bids@ == Seq::<PriceLevel>::empty(),
            r.book.asks@ == Seq::<PriceLevel>::empty(),
    {
        OrderbookAEVO { book: VenueOrderBook::new() }
    }

    /// Applies one inbound message: a snapshot replaces both ladders,
    /// anything else upserts level by level. A malformed numeric
    /// string fails the whole update and leaves the book untouched.
    pub fn apply_changes(&mut self, resp: OrderbookAEVOResponse) -> (r: Result<(), DecodeError>)
        requires
            old(self).book.wf(),
        ensures
            final(self).book.wf(),
            match r {
                Ok(_) => {
                    &&& aevo_rows_valid(resp.data.bids@)
                    &&& aevo_rows_valid(resp.data.asks@)
                    &&& final(self).book.bids.contents() == ladder_after_event(
                        old(self).book.bids.contents(),
                        aevo_is_snapshot(resp),
                        aevo_levels(resp.data.bids@),
                    )
                    &&& final(self).book.asks.contents() == ladder_after_event(
                        old(self).book.asks.contents(),
                        aevo_is_snapshot(resp),
                        aevo_levels(resp.data.asks@),
                    )
                },
                Err(e) => {
                    &&& e == DecodeError::BadNumber
                    &&& !(aevo_rows_valid(resp.data.bids@) && aevo_rows_valid(resp.data.asks@))
                    &&& final(self).book.bids@ == old(self).book.bids@
                    &&& final(self).book.asks@ == old(self).book.asks@
                },
            },
    {
        match normalize(&resp) {
            Ok(ev) => {
                self.book.apply_update(&ev);
                Ok(())
            },
            Err(e) => Err(e),
        }
    }
}

impl Default for OrderbookAEVO {
    /// An empty book.
    fn default() -> (r: Self)
        ensures
            r.book.wf(),
            r.book.bids@ == Seq::<PriceLevel>::empty(),
            r.book.asks@ == Seq::<PriceLevel>::empty(),
    {
        OrderbookAEVO::new()
    }
}

/// The handshake endpoint for venue A. Opening the socket and
/// sending the messages is transport work and lives outside the
/// library; this only carries the address and the simulated
/// credentials.
pub struct AEVOWSAuthenticator<'a> {
    pub wss_addr: &'a str,
}

impl<'a> AEVOWSAuthenticator<'a> {
    pub fn new(wss_addr: &'a str) -> (r: Self)
        ensures
            r.wss_addr == wss_addr,
    {
        AEVOWSAuthenticator { wss_addr }
    }

    /// Simulated credentials: no order is ever placed, so fixed
    /// placeholders stand in for a real key pair.
    pub fn generate_api_key(&self) -> (r: (String, String))
        ensures
            r.0@ == "API_KEY"@,
            r.1@ == "SECRET_KEY"@,
    {
        ("API_KEY".to_string(), "SECRET_KEY".to_string())
    }
}

} // verus!
