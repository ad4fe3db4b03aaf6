use quantaradar::domain::OrderSide;
use quantaradar::order_book::{BookHistory, BookSide, OrderBook, OrderBookDelta, OrderBookError, OrderBookSnapshot};

type Level = (f64, f64);

/// The price key of a price: the price in units of 1e-8.
fn key(price: f64) -> u64 {
    (price * 100_000_000.0).round() as u64
}

fn price(key: u64) -> f64 {
    key as f64 / 100_000_000.0
}

/// The change a (price, quantity) pair makes: a level, or a removal for a
/// quantity of zero or less.
fn change(p: f64, q: f64) -> (u64, Option<Level>) {
    (key(p), if q <= 0.0 { None } else { Some((p, q)) })
}

fn update(side: &mut BookSide<Level>, p: f64, q: f64) {
    let (k, l) = change(p, q);
    side.update(k, l);
}

fn delta(sequence: u64, update_id: u64, timestamp: u64, updates: &[(f64, f64, OrderSide)]) -> OrderBookDelta<Level> {
    let mut d = OrderBookDelta::new(sequence, update_id, timestamp);
    for &(p, q, s) in updates {
        let (k, l) = change(p, q);
        d.add_update(k, l, s);
    }
    d
}

fn snapshot(sequence: u64, update_id: u64, timestamp: u64, bids: &[(f64, f64)], asks: &[(f64, f64)],
    checksum: Option<u32>) -> OrderBookSnapshot<Level> {
    OrderBookSnapshot {
        sequence,
        update_id,
        timestamp,
        bids: bids.iter().map(|&(p, q)| change(p, q)).collect(),
        asks: asks.iter().map(|&(p, q)| change(p, q)).collect(),
        checksum,
        book_age_ms: 0,
    }
}

#[test]
fn test_book_side() {
    let mut bids = BookSide::new(OrderSide::Buy);
    update(&mut bids, 100.0, 10.0);
    update(&mut bids, 99.0, 5.0);
    update(&mut bids, 98.0, 3.0);

    assert_eq!(bids.best_price().map(price), Some(100.0));
    assert_eq!(bids.get(key(100.0)), Some((100.0, 10.0)));
    assert_eq!(bids.top_n(2), vec![(100.0, 10.0), (99.0, 5.0)]);

    // Update existing level
    update(&mut bids, 100.0, 15.0);
    assert_eq!(bids.get(key(100.0)), Some((100.0, 15.0)));

    // Remove level
    update(&mut bids, 99.0, 0.0);
    assert_eq!(bids.get(key(99.0)), None);
    assert_eq!(bids.best_price().map(price), Some(100.0));
}

#[test]
fn test_order_book() {
    let mut book = OrderBook::new("BTC/USD".to_string(), "kraken".to_string());

    // Apply snapshot
    book.apply_snapshot(snapshot(1, 100, 1_700_000_000_000, &[(100.0, 10.0), (99.0, 5.0)],
        &[(101.0, 8.0), (102.0, 4.0)], Some(0x1234)));

    assert_eq!(book.best_bid().map(price), Some(100.0));
    assert_eq!(book.best_ask().map(price), Some(101.0));
    let (bid, ask) = (price(book.best_bid().unwrap()), price(book.best_ask().unwrap()));
    assert_eq!(ask - bid, 1.0);
    assert_eq!((bid + ask) / 2.0, 100.5);

    // Apply delta
    let d = delta(2, 101, 1_700_000_000_100, &[(100.5, 7.0, OrderSide::Buy), (101.5, 6.0, OrderSide::Sell)]);
    book.apply_delta(d).unwrap();

    assert_eq!(book.sequence, 2);
    assert_eq!(book.best_bid().map(price), Some(100.5));
    // 101.5 is worse than existing best ask 101.0, so best ask remains 101.0
    assert_eq!(book.best_ask().map(price), Some(101.0));
}

#[test]
fn test_order_book_reconstruction() {
    let mut first = delta(1, 100, 1_700_000_000_000, &[(100.0, 10.0, OrderSide::Buy), (101.0, 8.0, OrderSide::Sell)]);
    first.is_snapshot = true;
    let deltas = vec![first, delta(2, 101, 1_700_000_000_100, &[(100.5, 7.0, OrderSide::Buy)])];

    let book = OrderBook::reconstruct_from_deltas("BTC/USD".to_string(), "kraken".to_string(), deltas).unwrap();
    assert_eq!(book.best_bid().map(price), Some(100.5));
    assert_eq!(book.best_ask().map(price), Some(101.0));
}

#[test]
fn book_side_orders_levels_best_first() {
    let mut asks = BookSide::new(OrderSide::Sell);
    for p in [103.0, 101.0, 102.0] {
        update(&mut asks, p, 1.0);
    }
    assert_eq!(asks.best_price(), Some(key(101.0)));
    assert_eq!(asks.best_level(), Some((101.0, 1.0)));
    assert_eq!(asks.all_levels(), vec![(101.0, 1.0), (102.0, 1.0), (103.0, 1.0)]);
    assert_eq!(asks.top_n(10).len(), 3);
    assert_eq!(asks.top_n(0), vec![]);
    assert_eq!(asks.len(), 3);
    update(&mut asks, 50.0, 0.0);
    assert_eq!(asks.len(), 3);
    let empty: BookSide<Level> = BookSide::new(OrderSide::Buy);
    assert!(empty.is_empty());
    assert_eq!(empty.best_price(), None);
    assert_eq!(empty.best_level(), None);
}

#[test]
fn stale_delta_is_refused_and_changes_nothing() {
    let mut book = OrderBook::new("ETH/USD".to_string(), "kraken".to_string());
    book.apply_delta(delta(5, 1, 10, &[(10.0, 1.0, OrderSide::Buy)])).unwrap();
    let err = book.apply_delta(delta(5, 2, 11, &[(11.0, 1.0, OrderSide::Buy)])).unwrap_err();
    assert_eq!(err, OrderBookError::StaleDelta { sequence: 5, current: 5 });
    assert_eq!(book.best_bid(), Some(key(10.0)));
    assert_eq!(book.timestamp, 10);
    assert_eq!(book.last_update_id, 1);
    // A gap is accepted.
    book.apply_delta(delta(9, 3, 12, &[])).unwrap();
    assert_eq!(book.sequence, 9);
}

#[test]
fn reconstruction_stops_at_first_refused_delta() {
    let deltas = vec![delta(1, 0, 0, &[]), delta(3, 0, 0, &[]), delta(2, 0, 0, &[]), delta(0, 0, 0, &[])];
    let err = OrderBook::<Level>::reconstruct_from_deltas("X".to_string(), "k".to_string(), deltas).unwrap_err();
    assert_eq!(err, OrderBookError::StaleDelta { sequence: 2, current: 3 });
    let none = OrderBook::<Level>::reconstruct_from_deltas("X".to_string(), "k".to_string(), vec![]).unwrap();
    assert_eq!(none.sequence, 0);
    assert!(none.bids.is_empty());
}

#[test]
fn snapshot_replaces_book() {
    let mut book = OrderBook::new("BTC/USD".to_string(), "kraken".to_string());
    book.apply_delta(delta(7, 1, 1, &[(1.0, 1.0, OrderSide::Buy), (9.0, 1.0, OrderSide::Sell)])).unwrap();
    book.apply_snapshot(snapshot(3, 30, 300, &[(2.0, 1.0), (2.5, 0.0)], &[], None));
    assert_eq!(book.bids.all_levels(), vec![(2.0, 1.0)]);
    assert!(book.asks.is_empty());
    assert_eq!(book.sequence, 3);
    assert_eq!(book.last_update_id, 30);
    assert_eq!(book.checksum, None);
}

#[test]
fn history_records_and_replays() {
    let mut h = BookHistory::new("BTC/USD".to_string(), "kraken".to_string(), 3);
    h.apply_delta(delta(1, 100, 1_000, &[(100.0, 10.0, OrderSide::Buy), (101.0, 8.0, OrderSide::Sell)])).unwrap();
    h.apply_delta(delta(2, 101, 1_100, &[(100.5, 7.0, OrderSide::Buy)])).unwrap();
    assert!(h.apply_delta(delta(2, 102, 1_200, &[])).is_err());
    assert_eq!(h.get_delta_history().len(), 2);
    let replayed = h.replay_book(0).unwrap();
    assert_eq!(replayed.bids.all_levels(), h.get_book().bids.all_levels());
    assert_eq!(replayed.asks.all_levels(), h.get_book().asks.all_levels());
    assert_eq!(replayed.sequence, 2);
    assert_eq!(replayed.symbol, "BTC/USD");
    // Replaying from sequence 1 skips the first delta.
    let partial = h.replay_book(1).unwrap();
    assert_eq!(partial.bids.all_levels(), vec![(100.5, 7.0)]);
    assert!(partial.asks.is_empty());
}

#[test]
fn history_is_bounded_and_cleared_by_snapshot() {
    let mut h: BookHistory<Level> = BookHistory::new("BTC/USD".to_string(), "kraken".to_string(), 2);
    for s in 1..=5u64 {
        h.apply_delta(delta(s, s, s, &[])).unwrap();
    }
    let seqs: Vec<u64> = h.get_delta_history().iter().map(|d| d.sequence).collect();
    assert_eq!(seqs, vec![4, 5]);
    h.apply_snapshot(snapshot(10, 10, 10, &[(1.0, 1.0)], &[], Some(7)));
    assert!(h.get_delta_history().is_empty());
    assert_eq!(h.get_book().sequence, 10);
    assert_eq!(h.get_book().checksum, Some(7));
}
