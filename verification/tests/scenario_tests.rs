use orderbook_aggregator::aggregated_orderbook::{AggregatedOrderBook, Top10Snapshot};
use orderbook_aggregator::decimal::Decimal;
use orderbook_aggregator::types::{
    ApplyError, Exchange, LastUpdateIds, OrderBook, OrderBookUpdate, OrderLevel,
};

fn units(text: &str) -> i128 {
    Decimal::parse(text).unwrap().units
}

fn key(text: &str) -> u64 {
    units(text) as u64
}

fn level(exchange: Exchange, price: &str, amount: &str) -> OrderLevel {
    OrderLevel {
        exchange,
        price: Decimal::parse(price).unwrap(),
        amount: Decimal::parse(amount).unwrap(),
    }
}

fn snapshot(exchange: Exchange, id: u64) -> OrderBook {
    OrderBook {
        exchange,
        last_update_id: id,
        bids: vec![level(exchange, "100.00", "1.0"), level(exchange, "99.99", "1.1")],
        asks: vec![level(exchange, "100.50", "2.0"), level(exchange, "100.51", "2.05")],
    }
}

fn bid_update(exchange: Exchange, id: u64, price: &str, amount: &str) -> OrderBookUpdate {
    OrderBookUpdate {
        exchange,
        update_id: id,
        bids: vec![level(exchange, price, amount)],
        asks: vec![],
    }
}

fn merged_book() -> AggregatedOrderBook {
    let mut book = AggregatedOrderBook::new();
    book.merge_snapshots(vec![
        snapshot(Exchange::Binance, 111),
        snapshot(Exchange::Bitstamp, 222),
    ]);
    book
}

fn raised_book() -> AggregatedOrderBook {
    let mut book = merged_book();
    assert_eq!(
        book.handle_update(bid_update(Exchange::Binance, 112, "100.05", "0.5")),
        Ok(())
    );
    book
}

fn lowered_book() -> AggregatedOrderBook {
    let mut book = raised_book();
    assert_eq!(
        book.handle_update(bid_update(Exchange::Binance, 113, "100.05", "0")),
        Ok(())
    );
    book
}

fn same_summary(a: &Top10Snapshot, b: &Top10Snapshot) -> bool {
    a.spread == b.spread && a.bids == b.bids && a.asks == b.asks
}

fn no_bucket_is_empty(book: &AggregatedOrderBook) -> bool {
    book.bids.values().all(|b| !b.is_empty()) && book.asks.values().all(|b| !b.is_empty())
}

#[test]
fn two_venue_merge() {
    let book = merged_book();
    assert_eq!(book.bids.len(), 2);
    assert_eq!(book.asks.len(), 2);
    for bucket in book.bids.values() {
        assert_eq!(bucket.len(), 2);
        assert!(bucket.contains(Exchange::Binance));
        assert!(bucket.contains(Exchange::Bitstamp));
    }
    assert_eq!(book.get_spread(), 500_000_000);
    assert_eq!(
        book.last_update_id,
        LastUpdateIds { binance: Some(111), bitstamp: Some(222) }
    );
    assert!(no_bucket_is_empty(&book));
}

#[test]
fn cross_venue_top_of_book() {
    let book = raised_book();
    let best = *book.bids.keys().next_back().unwrap();
    assert_eq!(best, key("100.05"));
    let bucket = book.bids.get(&best).unwrap();
    assert!(bucket.contains(Exchange::Binance));
    assert!(!bucket.contains(Exchange::Bitstamp));
    assert_eq!(bucket.len(), 1);
    assert_eq!(book.get_spread(), 450_000_000);
    assert_eq!(book.last_update_id.get(Exchange::Binance), Some(112));
}

#[test]
fn deletion_sentinel() {
    let book = lowered_book();
    assert!(!book.bids.contains_key(&key("100.05")));
    let best = *book.bids.keys().next_back().unwrap();
    assert_eq!(best, key("100.00"));
    let bucket = book.bids.get(&best).unwrap();
    assert!(bucket.contains(Exchange::Binance) && bucket.contains(Exchange::Bitstamp));
    assert_eq!(book.get_spread(), 500_000_000);
    assert!(no_bucket_is_empty(&book));
}

#[test]
fn stale_drop() {
    let mut book = lowered_book();
    let before = book.top_n(10);
    let ids = book.last_update_id;
    let verdict = book.handle_update(bid_update(Exchange::Binance, 113, "99.98", "5.0"));
    assert_eq!(verdict, Err(ApplyError::StaleSequence));
    assert!(!book.bids.contains_key(&key("99.98")));
    assert_eq!(book.bids.len(), 2);
    assert!(same_summary(&before, &book.top_n(10)));
    assert_eq!(book.last_update_id, ids);
}

#[test]
fn stale_drop_of_an_older_update() {
    let mut book = lowered_book();
    let verdict = book.handle_update(bid_update(Exchange::Binance, 5, "99.98", "5.0"));
    assert_eq!(verdict, Err(ApplyError::StaleSequence));
    assert_eq!(book.bids.len(), 2);
    assert_eq!(book.last_update_id.get(Exchange::Binance), Some(113));
}

#[test]
fn asymmetric_sequences() {
    let mut book = lowered_book();
    assert_eq!(
        book.handle_update(bid_update(Exchange::Binance, 200, "99.97", "1.0")),
        Ok(())
    );
    assert_eq!(book.last_update_id.get(Exchange::Binance), Some(200));
    assert_eq!(book.last_update_id.get(Exchange::Bitstamp), Some(222));
    // 223 is above Bitstamp's 222; where Binance stands does not matter.
    assert_eq!(
        book.handle_update(bid_update(Exchange::Bitstamp, 223, "99.96", "2.0")),
        Ok(())
    );
    assert_eq!(book.last_update_id.get(Exchange::Bitstamp), Some(223));
    assert_eq!(book.last_update_id.get(Exchange::Binance), Some(200));
    assert!(book.bids.get(&key("99.96")).unwrap().contains(Exchange::Bitstamp));
    // Binance is judged by its own last id.
    assert_eq!(
        book.handle_update(bid_update(Exchange::Binance, 150, "99.95", "2.0")),
        Err(ApplyError::StaleSequence)
    );
}

#[test]
fn top_10_truncation() {
    let mut book = AggregatedOrderBook::new();
    let mut bids = Vec::new();
    for i in 0..25u64 {
        bids.push(OrderLevel {
            exchange: Exchange::Bitstamp,
            price: Decimal::from_units(50_000_000_000 + (i as i128) * 10_000_000),
            amount: Decimal::from_units(1_000_000_000),
        });
    }
    book.merge_snapshots(vec![OrderBook {
        exchange: Exchange::Bitstamp,
        last_update_id: 1,
        bids,
        asks: vec![],
    }]);
    assert_eq!(book.bids.len(), 25);
    let top = book.top_n(10);
    assert_eq!(top.bids.len(), 10);
    let highest = top.bids.iter().map(|l| l.price.units).max().unwrap();
    assert_eq!(highest, 50_000_000_000 + 24 * 10_000_000);
    assert_eq!(top.bids[0].price.units, highest);
    for (i, l) in top.bids.iter().enumerate() {
        assert_eq!(l.price.units, 50_000_000_000 + (24 - i as i128) * 10_000_000);
        assert_eq!(l.exchange, Exchange::Bitstamp);
    }
    assert!(top.asks.is_empty());
    assert_eq!(top.spread, 0);
}

#[test]
fn top_n_lists_best_first_with_both_venues_together() {
    let book = raised_book();
    let top = book.top_n(2);
    let bids: Vec<(Exchange, i128, i128)> =
        top.bids.iter().map(|l| (l.exchange, l.price.units, l.amount.units)).collect();
    assert_eq!(
        bids,
        vec![
            (Exchange::Binance, units("100.05"), units("0.5")),
            (Exchange::Binance, units("100.00"), units("1.0")),
            (Exchange::Bitstamp, units("100.00"), units("1.0")),
        ]
    );
    let asks: Vec<(Exchange, i128, i128)> =
        top.asks.iter().map(|l| (l.exchange, l.price.units, l.amount.units)).collect();
    assert_eq!(
        asks,
        vec![
            (Exchange::Binance, units("100.50"), units("2.0")),
            (Exchange::Bitstamp, units("100.50"), units("2.0")),
            (Exchange::Binance, units("100.51"), units("2.05")),
            (Exchange::Bitstamp, units("100.51"), units("2.05")),
        ]
    );
    assert_eq!(top.spread, 450_000_000);
    for pair in top.bids.windows(2) {
        assert!(pair[0].price.units >= pair[1].price.units);
    }
    for pair in top.asks.windows(2) {
        assert!(pair[0].price.units <= pair[1].price.units);
    }
    assert!(book.top_n(0).bids.is_empty());
    assert_eq!(book.top_n(100).bids.len(), 5);
    assert!(same_summary(&book.top_n(10), &book.get_top10_snapshot()));
}

#[test]
fn empty_book_has_an_empty_summary() {
    let book = AggregatedOrderBook::new();
    let top = book.get_top10_snapshot();
    assert_eq!(top.spread, 0);
    assert!(top.bids.is_empty());
    assert!(top.asks.is_empty());
    assert_eq!(book.get_spread(), 0);
    assert_eq!(book.last_update_id, LastUpdateIds { binance: None, bitstamp: None });
}

#[test]
fn spread_is_zero_while_a_side_is_empty() {
    let mut book = AggregatedOrderBook::new();
    assert_eq!(
        book.handle_update(bid_update(Exchange::Binance, 1, "100", "1")),
        Ok(())
    );
    assert_eq!(book.get_spread(), 0);
    let ask = OrderBookUpdate {
        exchange: Exchange::Bitstamp,
        update_id: 1,
        bids: vec![],
        asks: vec![level(Exchange::Bitstamp, "99.5", "1")],
    };
    assert_eq!(book.handle_update(ask), Ok(()));
    // Venues may cross: the spread is then below zero.
    assert_eq!(book.get_spread(), -500_000_000);
}

#[test]
fn merging_a_snapshot_twice_changes_nothing() {
    let mut once = AggregatedOrderBook::new();
    once.merge_snapshots(vec![snapshot(Exchange::Binance, 111)]);
    let mut twice = AggregatedOrderBook::new();
    twice.merge_snapshots(vec![snapshot(Exchange::Binance, 111)]);
    twice.merge_snapshots(vec![snapshot(Exchange::Binance, 111)]);
    assert_eq!(once.bids, twice.bids);
    assert_eq!(once.asks, twice.asks);
    assert_eq!(once.spread, twice.spread);
    assert_eq!(once.last_update_id, twice.last_update_id);
}

#[test]
fn merging_keeps_levels_that_the_snapshot_does_not_name() {
    let mut book = raised_book();
    book.merge_snapshots(vec![snapshot(Exchange::Binance, 300)]);
    assert!(book.bids.contains_key(&key("100.05")));
    assert_eq!(book.last_update_id.get(Exchange::Binance), Some(300));
    assert_eq!(book.last_update_id.get(Exchange::Bitstamp), Some(222));
    assert_eq!(book.get_spread(), 450_000_000);
}

#[test]
fn a_snapshot_without_levels_records_its_id() {
    let mut book = AggregatedOrderBook::new();
    book.merge_snapshots(vec![OrderBook {
        exchange: Exchange::Bitstamp,
        last_update_id: 9,
        bids: vec![],
        asks: vec![],
    }]);
    assert_eq!(book.last_update_id, LastUpdateIds { binance: None, bitstamp: Some(9) });
    assert!(book.bids.is_empty() && book.asks.is_empty());
    assert_eq!(
        book.handle_update(bid_update(Exchange::Bitstamp, 9, "1", "1")),
        Err(ApplyError::StaleSequence)
    );
}

#[test]
fn a_later_snapshot_may_carry_an_earlier_id() {
    // A snapshot sets the id of its venue, also to a lower one.
    let mut book = merged_book();
    book.merge_snapshots(vec![snapshot(Exchange::Binance, 50)]);
    assert_eq!(book.last_update_id.get(Exchange::Binance), Some(50));
    assert_eq!(book.last_update_id.get(Exchange::Bitstamp), Some(222));
}

#[test]
fn zero_amount_for_one_of_two_venues_keeps_the_bucket() {
    let mut book = merged_book();
    assert_eq!(
        book.handle_update(bid_update(Exchange::Bitstamp, 223, "100.00", "0.000")),
        Ok(())
    );
    let bucket = book.bids.get(&key("100.00")).unwrap();
    assert!(bucket.contains(Exchange::Binance));
    assert!(!bucket.contains(Exchange::Bitstamp));
    assert_eq!(book.bids.len(), 2);
    // Removing what is not there changes nothing.
    assert_eq!(
        book.handle_update(bid_update(Exchange::Bitstamp, 224, "42", "0")),
        Ok(())
    );
    assert_eq!(book.bids.len(), 2);
    assert!(no_bucket_is_empty(&book));
}

#[test]
fn invalid_levels_reject_the_whole_update() {
    let mut book = merged_book();
    let before = book.top_n(10);
    let negative_price = OrderBookUpdate {
        exchange: Exchange::Binance,
        update_id: 500,
        bids: vec![
            level(Exchange::Binance, "101", "1"),
            level(Exchange::Binance, "-1", "1"),
        ],
        asks: vec![],
    };
    assert_eq!(book.handle_update(negative_price), Err(ApplyError::InvalidLevel));
    let negative_amount = OrderBookUpdate {
        exchange: Exchange::Binance,
        update_id: 500,
        bids: vec![],
        asks: vec![level(Exchange::Binance, "101", "-0.5")],
    };
    assert_eq!(book.handle_update(negative_amount), Err(ApplyError::InvalidLevel));
    let too_high = OrderBookUpdate {
        exchange: Exchange::Binance,
        update_id: 500,
        bids: vec![OrderLevel {
            exchange: Exchange::Binance,
            price: Decimal::from_units(u64::MAX as i128 + 1),
            amount: Decimal::from_units(1),
        }],
        asks: vec![],
    };
    assert_eq!(book.handle_update(too_high), Err(ApplyError::InvalidLevel));
    assert!(same_summary(&before, &book.top_n(10)));
    assert_eq!(book.bids.len(), 2);
    assert_eq!(book.last_update_id.get(Exchange::Binance), Some(111));
    // Stale comes first where both hold.
    let stale_and_invalid = OrderBookUpdate {
        exchange: Exchange::Binance,
        update_id: 111,
        bids: vec![level(Exchange::Binance, "-1", "1")],
        asks: vec![],
    };
    assert_eq!(book.handle_update(stale_and_invalid), Err(ApplyError::StaleSequence));
    // The highest price key is valid.
    let at_the_top = OrderBookUpdate {
        exchange: Exchange::Binance,
        update_id: 501,
        bids: vec![],
        asks: vec![OrderLevel {
            exchange: Exchange::Binance,
            price: Decimal::from_units(u64::MAX as i128),
            amount: Decimal::from_units(1),
        }],
    };
    assert_eq!(book.handle_update(at_the_top), Ok(()));
    assert!(book.asks.contains_key(&u64::MAX));
}

#[test]
fn validate_update_judges_without_changing_the_book() {
    let book = merged_book();
    assert_eq!(
        book.validate_update(&bid_update(Exchange::Binance, 111, "1", "1")),
        Err(ApplyError::StaleSequence)
    );
    assert_eq!(
        book.validate_update(&bid_update(Exchange::Binance, 112, "1", "-1")),
        Err(ApplyError::InvalidLevel)
    );
    assert_eq!(book.validate_update(&bid_update(Exchange::Binance, 112, "1", "1")), Ok(()));
    assert_eq!(book.bids.len(), 2);
}

#[test]
fn price_index_holds_prices_to_the_range_of_the_keys() {
    assert_eq!(AggregatedOrderBook::price_index(Decimal::from_units(-5)), 0);
    assert_eq!(AggregatedOrderBook::price_index(Decimal::from_units(0)), 0);
    assert_eq!(
        AggregatedOrderBook::price_index(Decimal::parse("100.05").unwrap()),
        100_050_000_000
    );
    assert_eq!(
        AggregatedOrderBook::price_index(Decimal::from_units(u64::MAX as i128 + 7)),
        u64::MAX
    );
    // Differences past the ninth decimal fall into one bucket.
    assert_eq!(
        AggregatedOrderBook::price_index(Decimal::parse("1.0000000001").unwrap()),
        AggregatedOrderBook::price_index(Decimal::parse("1.0000000004").unwrap())
    );
}

#[test]
fn try_upsert_level_leaves_the_side_alone_for_an_invalid_level() {
    let mut book = merged_book();
    let bad = level(Exchange::Binance, "-3", "1");
    assert_eq!(
        AggregatedOrderBook::try_upsert_level(&mut book.bids, &bad),
        Err(ApplyError::InvalidLevel)
    );
    assert_eq!(book.bids.len(), 2);
    let good = level(Exchange::Binance, "3", "1");
    assert_eq!(AggregatedOrderBook::try_upsert_level(&mut book.bids, &good), Ok(()));
    assert_eq!(book.bids.len(), 3);
    // The plain upsert files a negative price under the lowest key.
    AggregatedOrderBook::upsert_level(&mut book.bids, &bad);
    assert!(book.bids.contains_key(&0));
}

#[test]
fn prune_keeps_the_twenty_best_of_each_side() {
    let mut book = AggregatedOrderBook::new();
    let mut bids = Vec::new();
    let mut asks = Vec::new();
    for i in 0..25i128 {
        bids.push(OrderLevel {
            exchange: Exchange::Binance,
            price: Decimal::from_units(1_000 + i),
            amount: Decimal::from_units(1),
        });
        asks.push(OrderLevel {
            exchange: Exchange::Bitstamp,
            price: Decimal::from_units(2_000 + i),
            amount: Decimal::from_units(1),
        });
    }
    book.merge_snapshots(vec![OrderBook {
        exchange: Exchange::Binance,
        last_update_id: 7,
        bids,
        asks,
    }]);
    let spread = book.get_spread();
    assert_eq!(spread, 2_000 - 1_024);
    book.prune();
    assert_eq!(book.bids.keys().copied().collect::<Vec<u64>>(), (1_005..1_025).collect::<Vec<u64>>());
    assert_eq!(book.asks.keys().copied().collect::<Vec<u64>>(), (2_000..2_020).collect::<Vec<u64>>());
    assert_eq!(book.get_spread(), spread);
    assert_eq!(book.last_update_id.get(Exchange::Binance), Some(7));
    book.prune();
    assert_eq!(book.bids.len(), 20);
    let mut small = merged_book();
    small.prune();
    assert_eq!(small.bids.len(), 2);
    assert_eq!(small.asks.len(), 2);
}

#[test]
fn purge_venue_removes_one_venue_and_its_id() {
    let mut book = raised_book();
    book.purge_venue(Exchange::Binance);
    assert_eq!(book.bids.len(), 2);
    assert!(!book.bids.contains_key(&key("100.05")));
    for bucket in book.bids.values().chain(book.asks.values()) {
        assert!(!bucket.contains(Exchange::Binance));
        assert!(bucket.contains(Exchange::Bitstamp));
    }
    assert_eq!(book.last_update_id, LastUpdateIds { binance: None, bitstamp: Some(222) });
    assert_eq!(book.get_spread(), 500_000_000);
    // With its id gone, the venue starts over at any id.
    assert_eq!(
        book.handle_update(bid_update(Exchange::Binance, 1, "100.01", "1")),
        Ok(())
    );
    book.purge_venue(Exchange::Bitstamp);
    book.purge_venue(Exchange::Binance);
    assert!(book.bids.is_empty() && book.asks.is_empty());
    assert_eq!(book.get_spread(), 0);
}

#[test]
fn last_update_ids_never_go_down() {
    let mut book = merged_book();
    let ids = [112u64, 112, 5, 300, 299, 301, 301];
    let mut last = 111u64;
    for id in ids {
        let verdict = book.handle_update(bid_update(Exchange::Binance, id, "90", "1"));
        assert_eq!(verdict.is_ok(), id > last);
        let now = book.last_update_id.get(Exchange::Binance).unwrap();
        assert!(now >= last);
        last = now;
        assert_eq!(book.last_update_id.get(Exchange::Bitstamp), Some(222));
        assert!(no_bucket_is_empty(&book));
    }
    assert_eq!(last, 301);
}

#[test]
fn a_book_changed_through_its_methods_stays_in_order() {
    let mut book = AggregatedOrderBook::new();
    assert!(book.is_well_formed());
    book = lowered_book();
    assert!(book.is_well_formed());
    book.prune();
    book.purge_venue(Exchange::Bitstamp);
    assert!(book.is_well_formed());
    assert_eq!(book.current_spread(), book.get_spread());
    // A spread that the sides do not bear out is found.
    book.spread += 1;
    assert!(!book.is_well_formed());
    book.recompute_spread();
    assert!(book.is_well_formed());
    // So is a bucket without any quote.
    book.bids.insert(5, orderbook_aggregator::side::Bucket::new());
    assert!(!AggregatedOrderBook::side_is_filled(&book.bids));
    assert!(!book.is_well_formed());
}
