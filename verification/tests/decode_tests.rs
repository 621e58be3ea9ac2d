use orderbook_aggregator::decimal::Decimal;
use orderbook_aggregator::decode::{
    parse_binance_first_update, parse_level, parse_levels, parse_side, VenueError,
};
use orderbook_aggregator::json::Json;
use orderbook_aggregator::types::{Exchange, OrderBook, OrderBookUpdate, OrderLevel};

fn level(exchange: Exchange, price: i128, amount: i128) -> OrderLevel {
    OrderLevel {
        exchange,
        price: Decimal::from_units(price),
        amount: Decimal::from_units(amount),
    }
}

fn text(value: &str) -> Json {
    Json::String(value.to_string())
}

fn pair(price: &str, amount: &str) -> Json {
    Json::Array(vec![text(price), text(amount)])
}

fn object(members: Vec<(&str, Json)>) -> Json {
    Json::Object(members.into_iter().map(|(k, v)| (k.to_string(), v)).collect())
}

const BINANCE_DIFF: &str = r#"{"e":"depthUpdate","E":1700000000000,"s":"ETHBTC","U":157,"u":160,
    "b":[["0.0024","10"],["0.0023","0"]],"a":[["0.0026","100.5"]]}"#;

const BITSTAMP_DIFF: &str = r#"{"event":"data","channel":"diff_order_book_ethbtc","data":{
    "timestamp":"1700000000","microtimestamp":"1700000000123456",
    "bids":[["0.05","1.5"]],"asks":[["0.06","2"],["0.07","0.00000000"]]}}"#;

#[test]
fn a_binance_diff_frame_is_read() {
    let update = OrderBookUpdate::from_binance_json(BINANCE_DIFF).unwrap();
    assert_eq!(update.exchange, Exchange::Binance);
    assert_eq!(update.update_id, 160);
    assert_eq!(
        update.bids,
        vec![
            level(Exchange::Binance, 2_400_000, 10_000_000_000),
            level(Exchange::Binance, 2_300_000, 0),
        ]
    );
    assert_eq!(update.asks, vec![level(Exchange::Binance, 2_600_000, 100_500_000_000)]);
    let doc = Json::parse(BINANCE_DIFF).unwrap();
    assert_eq!(parse_binance_first_update(&doc), Some(157));
}

#[test]
fn a_bitstamp_diff_frame_is_read() {
    let update = OrderBookUpdate::from_bitstamp_json(BITSTAMP_DIFF).unwrap();
    assert_eq!(update.exchange, Exchange::Bitstamp);
    assert_eq!(update.update_id, 1_700_000_000_123_456);
    assert_eq!(update.bids, vec![level(Exchange::Bitstamp, 50_000_000, 1_500_000_000)]);
    assert_eq!(
        update.asks,
        vec![
            level(Exchange::Bitstamp, 60_000_000, 2_000_000_000),
            level(Exchange::Bitstamp, 70_000_000, 0),
        ]
    );
}

#[test]
fn frames_of_the_other_venue_are_none() {
    assert!(OrderBookUpdate::from_binance_json(BITSTAMP_DIFF).is_none());
    assert!(OrderBookUpdate::from_bitstamp_json(BINANCE_DIFF).is_none());
}

#[test]
fn a_subscription_answer_is_dropped() {
    let frame = r#"{"event":"bts:subscription_succeeded","channel":"diff_order_book_ethbtc","data":{}}"#;
    assert!(OrderBookUpdate::from_bitstamp_json(frame).is_none());
    let data_shaped = r#"{"event":"bts:other","data":{"microtimestamp":"5","bids":[],"asks":[]}}"#;
    assert!(OrderBookUpdate::from_bitstamp_json(data_shaped).is_none());
    let no_event = r#"{"data":{"microtimestamp":"5","bids":[],"asks":[]}}"#;
    assert!(OrderBookUpdate::from_bitstamp_json(no_event).is_none());
    let event_is_no_string = r#"{"event":1,"data":{"microtimestamp":"5","bids":[],"asks":[]}}"#;
    assert!(OrderBookUpdate::from_bitstamp_json(event_is_no_string).is_none());
    let data = r#"{"event":"data","data":{"microtimestamp":"5","bids":[],"asks":[]}}"#;
    let update = OrderBookUpdate::from_bitstamp_json(data).unwrap();
    assert_eq!(update.update_id, 5);
    assert!(update.bids.is_empty() && update.asks.is_empty());
}

#[test]
fn malformed_frames_are_dropped() {
    for frame in [
        "",
        "not json",
        "{",
        r#"{"u":1,"b":[],"a":[]"#,
        "null",
        "[]",
        "12",
        r#"{"u":1,"b":[]}"#,
        r#"{"u":1,"a":[]}"#,
        r#"{"b":[],"a":[]}"#,
        r#"{"u":"1","b":[],"a":[]}"#,
        r#"{"u":-1,"b":[],"a":[]}"#,
        r#"{"u":1.5,"b":[],"a":[]}"#,
        r#"{"u":1,"b":{},"a":[]}"#,
        r#"{"u":1,"b":[["1.0"]],"a":[]}"#,
        r#"{"u":1,"b":[[1.0,2.0]],"a":[]}"#,
        r#"{"u":1,"b":[["1.0","x"]],"a":[]}"#,
        r#"{"u":1,"b":[["1.0","1"],["1e3","1"]],"a":[]}"#,
        r#"{"u":1,"b":[],"a":["1.0","1"]}"#,
    ] {
        assert!(OrderBookUpdate::from_binance_json(frame).is_none(), "{}", frame);
    }
    for frame in [
        r#"{"event":"data"}"#,
        r#"{"event":"data","data":{"bids":[],"asks":[]}}"#,
        r#"{"event":"data","data":{"microtimestamp":5,"bids":[],"asks":[]}}"#,
        r#"{"event":"data","data":{"microtimestamp":"5us","bids":[],"asks":[]}}"#,
        r#"{"event":"data","data":{"microtimestamp":"5","bids":[]}}"#,
        r#"{"event":"data","data":{"microtimestamp":"5","bids":[["a","1"]],"asks":[]}}"#,
    ] {
        assert!(OrderBookUpdate::from_bitstamp_json(frame).is_none(), "{}", frame);
    }
}

#[test]
fn a_level_may_carry_more_than_two_items() {
    let frame = r#"{"u":9,"b":[["1.5","2","ignored",7]],"a":[]}"#;
    let update = OrderBookUpdate::from_binance_json(frame).unwrap();
    assert_eq!(update.bids, vec![level(Exchange::Binance, 1_500_000_000, 2_000_000_000)]);
}

#[test]
fn from_json_takes_the_first_shape_that_fits() {
    let diff = OrderBookUpdate::from_json(BINANCE_DIFF.to_string());
    assert_eq!((diff.exchange, diff.update_id), (Exchange::Binance, 160));
    assert_eq!(diff.bids.len(), 2);

    let snapshot = OrderBookUpdate::from_json(
        r#"{"lastUpdateId":1027024,"bids":[["4.0","431"]],"asks":[["4.0000020","12"]]}"#
            .to_string(),
    );
    assert_eq!((snapshot.exchange, snapshot.update_id), (Exchange::Binance, 1_027_024));
    assert_eq!(snapshot.bids, vec![level(Exchange::Binance, 4_000_000_000, 431_000_000_000)]);
    assert_eq!(snapshot.asks, vec![level(Exchange::Binance, 4_000_002_000, 12_000_000_000)]);

    let bitstamp = OrderBookUpdate::from_json(BITSTAMP_DIFF.to_string());
    assert_eq!(
        (bitstamp.exchange, bitstamp.update_id),
        (Exchange::Bitstamp, 1_700_000_000_123_456)
    );

    for other in ["", "{}", "null", "garbage", r#"{"event":"bts:heartbeat"}"#] {
        let nothing = OrderBookUpdate::from_json(other.to_string());
        assert_eq!((nothing.exchange, nothing.update_id), (Exchange::Binance, 0));
        assert!(nothing.bids.is_empty() && nothing.asks.is_empty());
    }

    // A frame with both shapes is a diff.
    let both = OrderBookUpdate::from_json(
        r#"{"u":2,"b":[],"a":[],"lastUpdateId":3,"bids":[["1","1"]],"asks":[]}"#.to_string(),
    );
    assert_eq!(both.update_id, 2);
    assert!(both.bids.is_empty());
}

#[test]
fn snapshots_are_read_or_refused() {
    let binance = OrderBook::from_binance_json(
        r#"{"lastUpdateId":111,"bids":[["100.00","1.0"],["99.99","1.1"]],
            "asks":[["100.50","2.0"],["100.51","2.05"]]}"#,
    )
    .unwrap();
    assert_eq!((binance.exchange, binance.last_update_id), (Exchange::Binance, 111));
    assert_eq!(
        binance.bids,
        vec![
            level(Exchange::Binance, 100_000_000_000, 1_000_000_000),
            level(Exchange::Binance, 99_990_000_000, 1_100_000_000),
        ]
    );
    assert_eq!(binance.asks[1], level(Exchange::Binance, 100_510_000_000, 2_050_000_000));

    let bitstamp = OrderBook::from_bitstamp_json(
        r#"{"timestamp":"1700000000","microtimestamp":"222","bids":[["100.00","1.0"]],"asks":[]}"#,
    )
    .unwrap();
    assert_eq!((bitstamp.exchange, bitstamp.last_update_id), (Exchange::Bitstamp, 222));
    assert_eq!(bitstamp.bids, vec![level(Exchange::Bitstamp, 100_000_000_000, 1_000_000_000)]);
    assert!(bitstamp.asks.is_empty());

    assert_eq!(OrderBook::from_binance_json("oops").err(), Some(VenueError::Decode));
    assert_eq!(
        OrderBook::from_binance_json(r#"{"code":-1121,"msg":"Invalid symbol."}"#).err(),
        Some(VenueError::Decode)
    );
    assert_eq!(
        OrderBook::from_binance_json(r#"{"lastUpdateId":1,"bids":[["x","1"]],"asks":[]}"#).err(),
        Some(VenueError::Decode)
    );
    assert_eq!(
        OrderBook::from_bitstamp_json(r#"{"microtimestamp":222,"bids":[],"asks":[]}"#).err(),
        Some(VenueError::Decode)
    );
    assert_eq!(OrderBook::from_bitstamp_json("").err(), Some(VenueError::Decode));
}

#[test]
fn documents_are_read_member_by_member() {
    let doc = Json::parse(r#"{"s":"x","n":18446744073709551615,"f":1.5,"m":-2,"t":true,"z":null,
        "l":[1,"two",[3]],"o":{"k":"v"}}"#)
    .unwrap();
    assert_eq!(doc.get("s").unwrap().as_str(), Some("x"));
    assert_eq!(doc.get("n").unwrap().as_u64(), Some(u64::MAX));
    assert_eq!(doc.get("f").unwrap().as_u64(), None);
    let numbers = Json::parse("[7, 7.0, 7e0, -7, 18446744073709551616]").unwrap();
    let values: Vec<Option<u64>> =
        numbers.as_array().unwrap().iter().map(|n| n.as_u64()).collect();
    assert_eq!(values, vec![Some(7), None, None, None, None]);
    assert_eq!(doc.get("m").unwrap().as_u64(), None);
    assert!(matches!(doc.get("f"), Some(Json::Number(None))));
    assert!(matches!(doc.get("t"), Some(Json::Bool(true))));
    assert!(matches!(doc.get("z"), Some(Json::Null)));
    assert!(doc.get("missing").is_none());
    assert!(doc.get("S").is_none());
    let list = doc.get("l").unwrap().as_array().unwrap();
    assert_eq!(list.len(), 3);
    assert_eq!(list[0].as_u64(), Some(1));
    assert_eq!(list[1].as_str(), Some("two"));
    assert_eq!(list[2].as_array().unwrap()[0].as_u64(), Some(3));
    assert_eq!(doc.get("o").unwrap().get("k").unwrap().as_str(), Some("v"));
    assert!(doc.get("s").unwrap().get("k").is_none());
    assert!(doc.get("s").unwrap().as_array().is_none());
    assert!(doc.get("l").unwrap().as_str().is_none());
    assert_eq!(doc.get("s").unwrap().as_u64(), None);
    assert!(doc.as_array().is_none());
    assert!(Json::parse("{\"a\":}").is_none());
    assert!(matches!(Json::parse(" [ ] "), Some(Json::Array(items)) if items.is_empty()));
    // A name that stands twice stands for its last value.
    let twice = Json::parse(r#"{"a":1,"a":2}"#).unwrap();
    assert_eq!(twice.get("a").unwrap().as_u64(), Some(2));
}

#[test]
fn the_decoders_work_on_documents_written_by_hand() {
    let doc = object(vec![
        ("u", Json::Number(Some(42))),
        ("U", Json::Number(Some(40))),
        ("b", Json::Array(vec![pair("1.25", "3")])),
        ("a", Json::Array(vec![])),
    ]);
    let update = OrderBookUpdate::parse_binance_diff(&doc).unwrap();
    assert_eq!(update.update_id, 42);
    assert_eq!(update.bids, vec![level(Exchange::Binance, 1_250_000_000, 3_000_000_000)]);
    assert_eq!(parse_binance_first_update(&doc), Some(40));
    assert!(OrderBookUpdate::parse_binance_snapshot(&doc).is_none());
    assert!(OrderBookUpdate::parse_bitstamp(&doc).is_none());

    let payload = object(vec![
        ("microtimestamp", text("77")),
        ("bids", Json::Array(vec![])),
        ("asks", Json::Array(vec![pair("2", "0.5")])),
    ]);
    let book = OrderBookUpdate::parse_bitstamp_book(&payload).unwrap();
    assert_eq!((book.exchange, book.update_id), (Exchange::Bitstamp, 77));
    let frame = object(vec![("event", text("data")), ("data", payload)]);
    let diff = OrderBookUpdate::parse_bitstamp(&frame).unwrap();
    assert_eq!(diff.asks, vec![level(Exchange::Bitstamp, 2_000_000_000, 500_000_000)]);

    assert_eq!(
        parse_level(&pair("-1", "2"), Exchange::Bitstamp),
        Some(level(Exchange::Bitstamp, -1_000_000_000, 2_000_000_000))
    );
    assert_eq!(parse_level(&Json::Array(vec![text("1")]), Exchange::Binance), None);
    assert_eq!(parse_level(&text("1"), Exchange::Binance), None);
    assert_eq!(parse_levels(&vec![pair("1", "1"), Json::Null], Exchange::Binance), None);
    assert_eq!(parse_levels(&vec![], Exchange::Binance), Some(vec![]));
    assert_eq!(parse_side(&doc, "a", Exchange::Binance), Some(vec![]));
    assert_eq!(parse_side(&doc, "u", Exchange::Binance), None);
    assert_eq!(parse_side(&doc, "x", Exchange::Binance), None);

    let made = OrderBookUpdate::assemble(Exchange::Binance, Some(1), Some(vec![]), None);
    assert!(made.is_none());
    let snapshot = OrderBook::from_update(update);
    assert_eq!(snapshot.last_update_id, 42);
    assert_eq!(snapshot.bids.len(), 1);
}
