use quantaradar::book_manager::OrderBookManager;
use quantaradar::domain::OrderSide;
use quantaradar::order_book::{OrderBookDelta, OrderBookError, OrderBookSnapshot};

type Level = (f64, f64);

fn key(price: f64) -> u64 {
    (price * 100_000_000.0).round() as u64
}

fn change(p: f64, q: f64) -> (u64, Option<Level>) {
    (key(p), if q <= 0.0 { None } else { Some((p, q)) })
}

fn delta(sequence: u64, timestamp: u64, updates: &[(f64, f64, OrderSide)]) -> OrderBookDelta<Level> {
    let mut d = OrderBookDelta::new(sequence, 100, timestamp);
    for &(p, q, s) in updates {
        let (k, l) = change(p, q);
        d.add_update(k, l, s);
    }
    d
}

#[test]
fn test_order_book_manager() {
    let mut manager: OrderBookManager<Level> = OrderBookManager::new(1000);
    let d = delta(1, 1_700_000_000_000, &[(100.0, 10.0, OrderSide::Buy), (101.0, 8.0, OrderSide::Sell)]);
    manager.apply_delta("kraken", "BTC/USD", d).unwrap();
    let book = manager.get_book("kraken", "BTC/USD").unwrap();
    assert_eq!(book.best_bid(), Some(key(100.0)));
    assert_eq!(book.best_ask(), Some(key(101.0)));
    assert_eq!(book.symbol, "BTC/USD");
    assert_eq!(manager.get_best_bid_ask("kraken", "BTC/USD"), Some((key(100.0), key(101.0))));
}

#[test]
fn manager_books_are_kept_per_symbol() {
    let mut manager: OrderBookManager<Level> = OrderBookManager::new(10);
    manager.apply_delta("kraken", "BTC/USD", delta(1, 1, &[(100.0, 1.0, OrderSide::Buy)])).unwrap();
    manager.apply_delta("kraken", "ETH/USD", delta(1, 1, &[(3000.0, 1.0, OrderSide::Sell)])).unwrap();
    assert_eq!(manager.get_best_bid_ask("kraken", "BTC/USD"), None);
    assert_eq!(manager.get_book("kraken", "ETH/USD").unwrap().best_ask(), Some(key(3000.0)));
    assert!(manager.get_book("binance", "BTC/USD").is_none());
    assert!(manager.get_delta_history("binance", "BTC/USD").is_empty());
}

#[test]
fn manager_refuses_stale_deltas_and_keeps_history() {
    let mut manager: OrderBookManager<Level> = OrderBookManager::new(2);
    for s in 1..=3 {
        manager.apply_delta("kraken", "BTC/USD", delta(s, s, &[(100.0 + s as f64, 1.0, OrderSide::Buy)])).unwrap();
    }
    let err = manager.apply_delta("kraken", "BTC/USD", delta(2, 9, &[]));
    assert_eq!(err, Err(OrderBookError::StaleDelta { sequence: 2, current: 3 }));
    let hist = manager.get_delta_history("kraken", "BTC/USD");
    assert_eq!(hist.iter().map(|d| d.sequence).collect::<Vec<_>>(), vec![2, 3]);
    // A refused first delta still leaves an (empty) book behind.
    let refused = manager.apply_delta("kraken", "SOL/USD", delta(0, 0, &[]));
    assert_eq!(refused, Err(OrderBookError::StaleDelta { sequence: 0, current: 0 }));
    assert_eq!(manager.get_book("kraken", "SOL/USD").unwrap().sequence, 0);
}

#[test]
fn manager_snapshot_clears_history_and_replay_rebuilds() {
    let mut manager: OrderBookManager<Level> = OrderBookManager::new(100);
    manager.apply_delta("kraken", "BTC/USD", delta(1, 10, &[(100.0, 1.0, OrderSide::Buy)])).unwrap();
    manager.apply_delta("kraken", "BTC/USD", delta(2, 20, &[(101.0, 2.0, OrderSide::Sell)])).unwrap();
    let replayed = manager.replay_book("kraken", "BTC/USD", 0).unwrap();
    assert_eq!(replayed.best_bid(), Some(key(100.0)));
    assert_eq!(replayed.best_ask(), Some(key(101.0)));
    assert_eq!(replayed.sequence, 2);
    let partial = manager.replay_book("kraken", "BTC/USD", 1).unwrap();
    assert_eq!(partial.best_bid(), None);
    assert_eq!(partial.best_ask(), Some(key(101.0)));
    let snap = OrderBookSnapshot {
        sequence: 50,
        update_id: 7,
        timestamp: 500,
        bids: vec![change(99.0, 1.0)],
        asks: vec![change(102.0, 1.0)],
        checksum: None,
        book_age_ms: 0,
    };
    manager.apply_snapshot("kraken", "BTC/USD", snap);
    assert!(manager.get_delta_history("kraken", "BTC/USD").is_empty());
    assert_eq!(manager.get_best_bid_ask("kraken", "BTC/USD"), Some((key(99.0), key(102.0))));
    let empty = manager.replay_book("kraken", "XRP/USD", 0).unwrap();
    assert_eq!(empty.sequence, 0);
    assert_eq!(empty.symbol, "XRP/USD");
}
