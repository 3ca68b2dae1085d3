use arbitrage_bot::aevo::{
    select_channel, AuthPayloadAEVO, ChannelsPayloadAEVO, OrderbookAEVO, OrderbookAEVOData,
    OrderbookAEVOResponse, OrderbookPayloadAEVO, AEVOWSAuthenticator,
};
use arbitrage_bot::dxdy::{
    OrderbookDXDY, OrderbookDXDYData, OrderbookDXDYResponse, OrderbookPayloadDXDY, PriceDataDXDY,
    DXDYWSAuthenticator,
};
use arbitrage_bot::ladder::PriceLevel;
use arbitrage_bot::numeric::{parse_amount, DecodeError};
use arbitrage_bot::text::{str_contains, str_eq};

fn aevo_msg(
    message_type: &str,
    bids: Vec<(&str, &str, &str)>,
    asks: Vec<(&str, &str, &str)>,
) -> OrderbookAEVOResponse {
    OrderbookAEVOResponse {
        channel: "orderbook:ETH-PERP".to_string(),
        data: OrderbookAEVOData {
            message_type: message_type.to_string(),
            instrument_type: "PERPETUAL".to_string(),
            bids: bids
                .into_iter()
                .map(|(p, s, iv)| (p.to_string(), s.to_string(), iv.to_string()))
                .collect(),
            asks: asks
                .into_iter()
                .map(|(p, s, iv)| (p.to_string(), s.to_string(), iv.to_string()))
                .collect(),
            last_updated: "1700000000".to_string(),
        },
    }
}

fn dxdy_msg(
    message_type: &str,
    bids: Vec<(&str, &str)>,
    asks: Vec<(&str, &str)>,
) -> OrderbookDXDYResponse {
    OrderbookDXDYResponse {
        message_type: message_type.to_string(),
        contents: OrderbookDXDYData {
            bids: bids
                .into_iter()
                .map(|(p, s)| PriceDataDXDY { price: p.to_string(), size: s.to_string() })
                .collect(),
            asks: asks
                .into_iter()
                .map(|(p, s)| PriceDataDXDY { price: p.to_string(), size: s.to_string() })
                .collect(),
        },
    }
}

#[test]
fn parse_amount_whole_numbers() {
    assert_eq!(parse_amount("0"), Ok(0));
    assert_eq!(parse_amount("100"), Ok(100));
    assert_eq!(parse_amount("18446744073709551615"), Ok(u64::MAX));
}

#[test]
fn parse_amount_truncates_fraction() {
    assert_eq!(parse_amount("100.9"), Ok(100));
    assert_eq!(parse_amount("0.5"), Ok(0));
    assert_eq!(parse_amount("12."), Ok(12));
    assert_eq!(parse_amount("3.1415"), Ok(3));
}

#[test]
fn parse_amount_rejects_malformed() {
    assert_eq!(parse_amount(""), Err(DecodeError::BadNumber));
    assert_eq!(parse_amount("."), Err(DecodeError::BadNumber));
    assert_eq!(parse_amount(".5"), Err(DecodeError::BadNumber));
    assert_eq!(parse_amount("1a"), Err(DecodeError::BadNumber));
    assert_eq!(parse_amount("-3"), Err(DecodeError::BadNumber));
    assert_eq!(parse_amount("1.2.3"), Err(DecodeError::BadNumber));
    assert_eq!(parse_amount("1 "), Err(DecodeError::BadNumber));
}

#[test]
fn parse_amount_rejects_overflow() {
    assert_eq!(parse_amount("18446744073709551616"), Err(DecodeError::BadNumber));
    assert_eq!(parse_amount("99999999999999999999999"), Err(DecodeError::BadNumber));
    // A too-large whole part is rejected even with a fraction.
    assert_eq!(parse_amount("18446744073709551616.5"), Err(DecodeError::BadNumber));
}

#[test]
fn aevo_snapshot_fills_book() {
    let mut book = OrderbookAEVO::new();
    let r = book.apply_changes(aevo_msg(
        "snapshot",
        vec![("90", "5", "0.5")],
        vec![("100.5", "7", "1.25")],
    ));
    assert_eq!(r, Ok(()));
    let asks = book.book.asks.best_ascending();
    assert_eq!(asks, vec![PriceLevel { price: 100, size: 7, auxiliary: Some(1) }]);
    let bids = book.book.bids.best_ascending();
    assert_eq!(bids, vec![PriceLevel { price: 90, size: 5, auxiliary: Some(0) }]);
}

#[test]
fn aevo_snapshot_discards_prior_levels() {
    let mut book = OrderbookAEVO::new();
    book.apply_changes(aevo_msg("snapshot", vec![("90", "5", "0")], vec![("100", "7", "0")]))
        .unwrap();
    book.apply_changes(aevo_msg("snapshot", vec![("91", "1", "0")], vec![])).unwrap();
    assert_eq!(book.book.asks.best_ascending(), vec![]);
    assert_eq!(
        book.book.bids.best_ascending(),
        vec![PriceLevel { price: 91, size: 1, auxiliary: Some(0) }]
    );
}

#[test]
fn aevo_delta_upserts_levels() {
    let mut book = OrderbookAEVO::new();
    book.apply_changes(aevo_msg("snapshot", vec![], vec![("100", "7", "0")])).unwrap();
    book.apply_changes(aevo_msg("update", vec![], vec![("100", "2", "0"), ("110", "3", "0")]))
        .unwrap();
    assert_eq!(
        book.book.asks.best_ascending(),
        vec![
            PriceLevel { price: 100, size: 2, auxiliary: Some(0) },
            PriceLevel { price: 110, size: 3, auxiliary: Some(0) },
        ]
    );
}

#[test]
fn aevo_malformed_update_changes_nothing() {
    let mut book = OrderbookAEVO::new();
    book.apply_changes(aevo_msg("snapshot", vec![], vec![("100", "7", "0")])).unwrap();
    let r = book.apply_changes(aevo_msg("update", vec![("oops", "1", "0")], vec![("90", "1", "0")]));
    assert_eq!(r, Err(DecodeError::BadNumber));
    assert_eq!(
        book.book.asks.best_ascending(),
        vec![PriceLevel { price: 100, size: 7, auxiliary: Some(0) }]
    );
    assert_eq!(book.book.bids.best_ascending(), vec![]);
}

#[test]
fn bad_feed_leaves_other_book_usable() {
    // A malformed message fails only its own venue's update; the
    // other venue's book stays mutable and queryable.
    let mut a = OrderbookAEVO::new();
    let mut d = OrderbookDXDY::new();
    let bad = a.apply_changes(aevo_msg("update", vec![("x", "1", "0")], vec![]));
    assert!(bad.is_err());
    d.apply_changes(dxdy_msg("subscribed", vec![("50", "4")], vec![("60", "4")])).unwrap();
    assert_eq!(d.book.buy_as_much_as_possible(120), 2);
}

#[test]
fn dxdy_subscribed_message_is_the_snapshot() {
    let mut book = OrderbookDXDY::new();
    book.apply_changes(dxdy_msg("subscribed", vec![("90", "5")], vec![("100", "7")])).unwrap();
    assert_eq!(
        book.book.asks.best_ascending(),
        vec![PriceLevel { price: 100, size: 7, auxiliary: None }]
    );
    book.apply_changes(dxdy_msg("channel_data", vec![("90", "2")], vec![])).unwrap();
    assert_eq!(
        book.book.bids.best_ascending(),
        vec![PriceLevel { price: 90, size: 2, auxiliary: None }]
    );
}

#[test]
fn dxdy_malformed_update_changes_nothing() {
    let mut book = OrderbookDXDY::new();
    book.apply_changes(dxdy_msg("subscribed", vec![("90", "5")], vec![])).unwrap();
    let r = book.apply_changes(dxdy_msg("channel_data", vec![("90", "")], vec![]));
    assert_eq!(r, Err(DecodeError::BadNumber));
    assert_eq!(
        book.book.bids.best_ascending(),
        vec![PriceLevel { price: 90, size: 5, auxiliary: None }]
    );
}

#[test]
fn select_channel_takes_first_match() {
    let channels = vec![
        "orderbook:BTC-PERP".to_string(),
        "orderbook:ETH-PERP".to_string(),
        "trades:ETH-PERP".to_string(),
    ];
    assert_eq!(select_channel(&channels, "ETH"), Some("orderbook:ETH-PERP".to_string()));
    assert_eq!(select_channel(&channels, "SOL"), None);
    assert_eq!(select_channel(&vec![], "ETH"), None);
}

#[test]
fn text_helpers_compare_by_contents() {
    assert!(str_eq("snapshot", "snapshot"));
    assert!(!str_eq("snapshot", "update"));
    assert!(!str_eq("snap", "snapshot"));
    assert!(str_contains("orderbook:ETH-PERP", "ETH"));
    assert!(str_contains("ETH", ""));
    assert!(!str_contains("ETH", "ETHX"));
}

#[test]
fn authenticators_carry_address_and_simulated_credentials() {
    let aevo = AEVOWSAuthenticator::new("wss://ws.aevo.xyz");
    assert_eq!(aevo.wss_addr, "wss://ws.aevo.xyz");
    let (key, secret) = aevo.generate_api_key();
    assert_eq!(key, "API_KEY");
    assert_eq!(secret, "SECRET_KEY");
    let dxdy = DXDYWSAuthenticator::new("wss://indexer.dydx.trade/v4/ws");
    assert_eq!(dxdy.wss_addr, "wss://indexer.dydx.trade/v4/ws");
}

#[test]
fn handshake_payloads_carry_fixed_operations() {
    let auth = AuthPayloadAEVO::new("k".to_string(), "s".to_string());
    assert_eq!(auth.op, "auth");
    assert_eq!(auth.data.key, "k");
    assert_eq!(auth.data.secret, "s");
    let channels = ChannelsPayloadAEVO::new();
    assert_eq!(channels.op, "channels");
    let orderbook = OrderbookPayloadAEVO::new(vec!["orderbook:ETH-PERP".to_string()]);
    assert_eq!(orderbook.op, "orderbook");
    assert_eq!(orderbook.data, vec!["orderbook:ETH-PERP".to_string()]);
    let sub = OrderbookPayloadDXDY::default();
    assert_eq!(sub.message_type, "subscribe");
    assert_eq!(sub.channel, "v4_orderbook");
    assert_eq!(sub.id, "ETH-USDC");
}
