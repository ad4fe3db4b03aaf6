use quantaradar::feed_manager::{ConnectionEvent, FeedManagerConfig, FeedManagerError, MarketFeedManager, MessageDispatch};
use quantaradar::websocket::{DataType, DropPolicy, Subscription, SubscriptionStatus, WsMode};

fn subscription(exchange: &str, symbol: &str, types: Vec<DataType>) -> Subscription {
    Subscription {
        symbol: symbol.to_string(),
        exchange: exchange.to_string(),
        data_types: types,
        depth: Some(10),
        interval: None,
    }
}

fn manager_with(config: FeedManagerConfig) -> MarketFeedManager<u64> {
    let mut m = MarketFeedManager::new(config);
    m.add_feed(subscription("kraken", "BTC/USD", vec![DataType::Trade]), "wss://ws.kraken.com/v2".to_string())
        .unwrap();
    m
}

fn now_ms() -> u64 {
    std::time::SystemTime::now().duration_since(std::time::UNIX_EPOCH).unwrap().as_millis() as u64
}

fn send(m: &mut MarketFeedManager<u64>, seq: u64) -> MessageDispatch {
    assert!(m.can_handle("kraken", "BTC/USD", seq, now_ms()));
    m.handle_message("kraken", "BTC/USD", seq, now_ms(), None, seq)
}

#[test]
fn test_feed_manager_creation() {
    let manager: MarketFeedManager<u64> = MarketFeedManager::new(FeedManagerConfig::default());
    assert_eq!(manager.get_stats().total_feeds, 0);
}

#[test]
fn test_add_feed() {
    let mut manager: MarketFeedManager<u64> = MarketFeedManager::new(FeedManagerConfig::default());
    let sub = subscription("kraken", "BTC/USD", vec![DataType::Trade, DataType::OrderBook]);
    manager.add_feed(sub, "wss://ws.kraken.com/v2".to_string()).unwrap();
    assert_eq!(manager.get_stats().total_feeds, 1);
    let feed = manager.get_feed("kraken", "BTC/USD").unwrap();
    assert_eq!(feed.subscription.symbol, "BTC/USD");
    assert_eq!(feed.subscription.exchange, "kraken");
}

#[test]
fn adding_a_feed_twice_is_refused() {
    let mut manager = manager_with(FeedManagerConfig::default());
    let again = manager.add_feed(subscription("kraken", "BTC/USD", vec![DataType::Ticker]), String::new());
    assert_eq!(again, Err(FeedManagerError::FeedExists));
    assert_eq!(manager.get_stats().total_feeds, 1);
    // The key is "exchange:symbol": these two pairs share it.
    let mut m: MarketFeedManager<u64> = MarketFeedManager::new(FeedManagerConfig::default());
    m.add_feed(subscription("a:b", "c", vec![]), String::new()).unwrap();
    assert_eq!(m.add_feed(subscription("a", "b:c", vec![]), String::new()), Err(FeedManagerError::FeedExists));
}

#[test]
fn new_feed_is_fresh() {
    let manager = manager_with(FeedManagerConfig::default());
    let feed = manager.get_feed("kraken", "BTC/USD").unwrap();
    assert_eq!(feed.url, "wss://ws.kraken.com/v2");
    assert_eq!(feed.pending_subscriptions.len(), 1);
    assert_eq!(feed.pending_subscriptions[0].data_types, vec![DataType::Trade]);
    assert!(!feed.state.connection.connected);
    assert_eq!(feed.state.connection.status, SubscriptionStatus::Unsubscribed);
    assert_eq!(feed.state.sequence.message_count, 0);
    assert!(manager.get_feed("kraken", "ETH/USD").is_none());
}

#[test]
fn test_handle_message() {
    let mut manager = manager_with(FeedManagerConfig::default());
    let d = send(&mut manager, 1);
    assert_eq!(d, MessageDispatch { delivered: true, gap_fill: None, reconnect: false });
    let feed = manager.get_feed("kraken", "BTC/USD").unwrap();
    assert_eq!(feed.state.sequence.message_count, 1);
    assert!(feed.state.sequence.sequence_ok);
}

#[test]
fn test_sequence_gap_detection() {
    let mut manager = manager_with(FeedManagerConfig::default());
    send(&mut manager, 1);
    send(&mut manager, 5);
    let feed = manager.get_feed("kraken", "BTC/USD").unwrap();
    assert_eq!(feed.state.sequence.dropped_count, 3);
    assert!(!feed.state.sequence.sequence_ok);
}

#[test]
fn large_gap_requests_reconnect_and_fill() {
    let mut manager = manager_with(FeedManagerConfig::default());
    send(&mut manager, 1);
    let d = send(&mut manager, 200);
    assert_eq!(d, MessageDispatch { delivered: true, gap_fill: Some((2, 199)), reconnect: true });
    assert_eq!(manager.get_stats().total_reconnects, 1);
    let feed = manager.get_feed("kraken", "BTC/USD").unwrap();
    assert_eq!(feed.state.connection.reconnect_attempts, 1);
    assert_eq!(feed.state.connection.status, SubscriptionStatus::Subscribing);
    // With gap fill disabled the reconnect still happens, no range is asked.
    let mut quiet = manager_with(FeedManagerConfig { enable_gap_fill: false, ..FeedManagerConfig::default() });
    send(&mut quiet, 1);
    let d = send(&mut quiet, 200);
    assert_eq!(d, MessageDispatch { delivered: true, gap_fill: None, reconnect: true });
}

#[test]
fn duplicate_and_late_messages_skip_the_global_buffer() {
    let mut manager = manager_with(FeedManagerConfig::default());
    assert!(manager.handle_message("kraken", "BTC/USD", 1, 100_000, None, 1).delivered);
    assert!(manager.handle_message("kraken", "BTC/USD", 1, 100_001, None, 1).delivered);
    let late = manager.handle_message("kraken", "BTC/USD", 2, 10, None, 2);
    assert!(!late.delivered);
    assert_eq!(manager.get_global_buffer(10), vec![&1]);
    assert_eq!(manager.get_feed("kraken", "BTC/USD").unwrap().state.sequence.late_event_count, 1);
}

#[test]
fn unknown_feed_messages_go_to_global_buffer() {
    let mut manager = manager_with(FeedManagerConfig::default());
    let d = manager.handle_message("binance", "ETH/USD", 7, 1, None, 70);
    assert_eq!(d, MessageDispatch { delivered: true, gap_fill: None, reconnect: false });
    assert_eq!(manager.get_global_buffer(5), vec![&70]);
    assert!(manager.get_buffered_messages("binance", "ETH/USD", 5).is_empty());
}

#[test]
fn test_stale_detection() {
    let mut manager = manager_with(FeedManagerConfig { stale_timeout_ms: 1_000, ..FeedManagerConfig::default() });
    assert!(manager.check_stale_feeds().is_empty());
    let added = manager.get_feed("kraken", "BTC/USD").unwrap().last_message_ms;
    let stale = manager.stale_feeds_at(added + 2_000);
    assert_eq!(stale.len(), 1);
    assert_eq!(stale[0], "kraken:BTC/USD");
    assert!(manager.stale_feeds_at(added + 1_000).is_empty());
    // A delivered message makes the feed fresh again.
    send(&mut manager, 1);
    assert!(manager.check_stale_feeds().is_empty());
}

#[test]
fn auto_resubscribe_reconnects_stale_feeds() {
    let mut manager = manager_with(FeedManagerConfig { stale_timeout_ms: 1_000, ..FeedManagerConfig::default() });
    manager.add_feed(subscription("coinbase", "BTC-USD", vec![DataType::Ticker]), String::new()).unwrap();
    manager.add_feed(subscription("odd:venue", "X", vec![]), String::new()).unwrap();
    let added = manager.get_feed("kraken", "BTC/USD").unwrap().last_message_ms;
    assert_eq!(manager.auto_resubscribe_stale_at(added), 0);
    // All three are stale an hour later; the one whose key does not split
    // back into exchange and symbol is left alone.
    assert_eq!(manager.auto_resubscribe_stale_at(added + 3_600_000), 2);
    assert_eq!(manager.get_stats().total_reconnects, 2);
    assert_eq!(manager.get_feed("odd:venue", "X").unwrap().state.connection.reconnect_attempts, 0);
    assert_eq!(manager.get_feed("coinbase", "BTC-USD").unwrap().state.connection.reconnect_attempts, 1);
    let mut off = manager_with(FeedManagerConfig {
        stale_timeout_ms: 1_000,
        enable_auto_resubscribe: false,
        ..FeedManagerConfig::default()
    });
    assert_eq!(off.auto_resubscribe_stale_at(i64::MAX / 2), 0);
}

#[test]
fn reconnect_feed_stops_at_the_limit() {
    let mut manager = manager_with(FeedManagerConfig { max_reconnect_attempts: 2, ..FeedManagerConfig::default() });
    assert!(manager.reconnect_feed("kraken", "BTC/USD"));
    assert!(manager.reconnect_feed("kraken", "BTC/USD"));
    assert!(!manager.reconnect_feed("kraken", "BTC/USD"));
    assert!(!manager.reconnect_feed("kraken", "ETH/USD"));
    assert_eq!(manager.get_stats().total_reconnects, 2);
    assert_eq!(manager.get_feed("kraken", "BTC/USD").unwrap().state.connection.reconnect_count, 2);
}

#[test]
fn test_buffer_management() {
    let mut manager = manager_with(FeedManagerConfig { max_buffer_size: 5, ..FeedManagerConfig::default() });
    for i in 1..=10 {
        send(&mut manager, i);
    }
    let buffer = manager.get_global_buffer(10);
    assert_eq!(buffer.len(), 5);
    assert_eq!(buffer, vec![&10, &9, &8, &7, &6]);
    assert_eq!(manager.get_stats().dropped_messages, 5);
}

#[test]
fn test_drop_policy_newest_keeps_history() {
    let mut manager = manager_with(FeedManagerConfig {
        max_buffer_size: 3,
        drop_policy: DropPolicy::DropNewest,
        ..FeedManagerConfig::default()
    });
    for i in 1..=5 {
        send(&mut manager, i);
    }
    let buf = manager.get_buffered_messages("kraken", "BTC/USD", 10);
    assert_eq!(buf.len(), 3);
    assert_eq!(*buf[0], 3);
    assert_eq!(manager.get_feed("kraken", "BTC/USD").unwrap().state.sequence.dropped_count, 2);
}

#[test]
fn test_orderbook_payload_sequence() {
    let mut manager = manager_with(FeedManagerConfig::default());
    assert_eq!(manager.handle_orderbook_payload("kraken", "BTC/USD", 10, true), (true, false));
    assert_eq!(manager.handle_orderbook_payload("kraken", "BTC/USD", 11, false), (true, false));
    assert_eq!(manager.handle_orderbook_payload("kraken", "BTC/USD", 11, false), (false, false));
    assert_eq!(manager.handle_orderbook_payload("kraken", "BTC/USD", 14, false), (true, true));
    assert_eq!(manager.handle_orderbook_payload("kraken", "ETH/USD", 1, true), (false, false));
}

#[test]
fn order_book_messages_advance_the_book_sequence() {
    let mut manager = manager_with(FeedManagerConfig::default());
    manager.handle_message("kraken", "BTC/USD", 1, 5, Some((40, true)), 1);
    manager.handle_message("kraken", "BTC/USD", 2, 6, Some((41, false)), 2);
    assert_eq!(manager.get_feed("kraken", "BTC/USD").unwrap().state.book_sequence.last_ob_sequence, 41);
}

#[test]
fn test_gap_fill_background_injects() {
    let mut manager = manager_with(FeedManagerConfig::default());
    send(&mut manager, 1);
    let filled: Vec<(u64, u64)> = (2..=4).map(|s| (s, 1_700_000_000_000 + s)).collect();
    manager.inject_gap_fill("kraken", "BTC/USD", filled);
    let buf = manager.get_buffered_messages("kraken", "BTC/USD", 10);
    assert!(buf.iter().any(|m| **m == 1_700_000_000_003));
    let feed = manager.get_feed("kraken", "BTC/USD").unwrap();
    assert_eq!(feed.state.sequence.last_sequence, 4);
    assert_eq!(feed.state.sequence.message_count, 4);
    assert_eq!(manager.get_stats().total_messages, 3);
    assert_eq!(manager.get_global_buffer(10).len(), 4);
    // No results: nothing changes.
    manager.inject_gap_fill("kraken", "BTC/USD", Vec::new());
    assert_eq!(manager.get_stats().total_messages, 3);
}

#[test]
fn subscribe_and_unsubscribe_edit_pending_subscriptions() {
    let mut manager = manager_with(FeedManagerConfig::default());
    manager.subscribe("kraken", "BTC/USD", vec![DataType::OrderBook]).unwrap();
    let feed = manager.get_feed("kraken", "BTC/USD").unwrap();
    assert_eq!(feed.pending_subscriptions.len(), 2);
    assert_eq!(feed.pending_subscriptions[1].depth, Some(100));
    manager.unsubscribe("kraken", "BTC/USD", &vec![DataType::Trade]).unwrap();
    let feed = manager.get_feed("kraken", "BTC/USD").unwrap();
    assert_eq!(feed.pending_subscriptions.len(), 1);
    assert_eq!(feed.pending_subscriptions[0].data_types, vec![DataType::OrderBook]);
    assert_eq!(manager.subscribe("kraken", "ETH/USD", vec![]), Err(FeedManagerError::FeedNotFound));
    assert_eq!(manager.unsubscribe("kraken", "ETH/USD", &vec![]), Err(FeedManagerError::FeedNotFound));
}

#[test]
fn shutdown_disconnects_every_feed() {
    let mut manager = manager_with(FeedManagerConfig::default());
    manager.reconnect_feed("kraken", "BTC/USD");
    manager.shutdown();
    let feed = manager.get_feed("kraken", "BTC/USD").unwrap();
    assert!(!feed.state.connection.connected);
    assert_eq!(feed.state.connection.status, SubscriptionStatus::Unsubscribed);
    assert_eq!(feed.state.connection.reconnect_count, 1);
}

#[test]
fn start_feed_spawns_once() {
    let mut manager = manager_with(FeedManagerConfig::default());
    assert_eq!(manager.start_feed("kraken", "BTC/USD"), Ok(true));
    assert_eq!(manager.get_feed("kraken", "BTC/USD").unwrap().state.connection.status, SubscriptionStatus::Subscribing);
    assert_eq!(manager.start_feed("kraken", "ETH/USD"), Err(FeedManagerError::FeedNotFound));
}

#[test]
fn simulated_connection_numbers_and_counts_messages() {
    let mut manager = manager_with(FeedManagerConfig { max_buffer_size: 2, ..FeedManagerConfig::default() });
    assert!(manager.connection_should_continue("kraken", "BTC/USD"));
    assert_eq!(manager.on_connection_event("kraken", "BTC/USD", ConnectionEvent::Connected(WsMode::Simulated)), Some(false));
    assert_eq!(manager.start_feed("kraken", "BTC/USD"), Ok(false));
    for _ in 0..3 {
        let seq = manager.next_simulated_sequence("kraken", "BTC/USD");
        manager.on_connection_message("kraken", "BTC/USD", seq, seq * 10, WsMode::Simulated);
    }
    let feed = manager.get_feed("kraken", "BTC/USD").unwrap();
    assert_eq!(feed.state.sequence.last_sequence, 3);
    assert_eq!(feed.state.sequence.message_count, 3);
    assert_eq!(feed.state.sequence.dropped_count, 1);
    let stats = manager.get_stats();
    assert_eq!(stats.total_messages, 3);
    assert_eq!(stats.dropped_messages, 1);
    assert_eq!(manager.get_global_buffer(5), vec![&30, &20]);
    assert_eq!(manager.next_simulated_sequence("kraken", "ETH/USD"), 0);
    assert_eq!(manager.on_connection_event("kraken", "ETH/USD", ConnectionEvent::Stopped), None);
}

#[test]
fn failures_count_until_the_task_gives_up() {
    let mut manager = manager_with(FeedManagerConfig { max_reconnect_attempts: 2, ..FeedManagerConfig::default() });
    assert_eq!(manager.on_connection_event("kraken", "BTC/USD", ConnectionEvent::Failed), Some(false));
    assert!(manager.connection_should_continue("kraken", "BTC/USD"));
    assert_eq!(manager.on_connection_event("kraken", "BTC/USD", ConnectionEvent::Failed), Some(true));
    assert!(!manager.connection_should_continue("kraken", "BTC/USD"));
    assert_eq!(manager.get_feed("kraken", "BTC/USD").unwrap().state.connection.status, SubscriptionStatus::Failed);
    manager.on_connection_event("kraken", "BTC/USD", ConnectionEvent::Stopped);
    assert_eq!(manager.get_feed("kraken", "BTC/USD").unwrap().state.connection.status, SubscriptionStatus::Unsubscribed);
}

#[test]
fn live_messages_always_move_the_sequence_forward() {
    let mut manager = manager_with(FeedManagerConfig::default());
    manager.on_connection_event("kraken", "BTC/USD", ConnectionEvent::Connected(WsMode::Live));
    let seq = manager.next_simulated_sequence("kraken", "BTC/USD");
    assert_eq!(seq, 1);
    manager.on_connection_message("kraken", "BTC/USD", seq, 7, WsMode::Live);
    // A live frame's number never holds the feed back: one past the last.
    assert_eq!(manager.get_feed("kraken", "BTC/USD").unwrap().state.sequence.last_sequence, 2);
    manager.on_connection_message("kraken", "BTC/USD", 10, 8, WsMode::Live);
    assert_eq!(manager.get_feed("kraken", "BTC/USD").unwrap().state.sequence.last_sequence, 10);
    manager.on_connection_message("kraken", "BTC/USD", 4, 9, WsMode::Simulated);
    assert_eq!(manager.get_feed("kraken", "BTC/USD").unwrap().state.sequence.last_sequence, 4);
    assert_eq!(manager.get_stats().total_messages, 3);
}
