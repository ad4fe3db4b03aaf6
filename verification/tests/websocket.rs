use quantaradar::websocket::{
    additional_subscription, exchange_ws_url, gap_fill_range, next_reconnect_delay_ms,
    next_reconnect_delay_with_jitter, push_with_policy, subscription_overlaps, unsubscribe_types, DataType,
    DropPolicy, FeedConnection, FeedOutcome, FeedSequence, FeedState, MessageVerdict, OrderBookSequence,
    Subscription, SubscriptionStatus, WsMode, is_stale, live_data_type, live_url,
};
use std::collections::VecDeque;

fn trade_sub(symbol: &str, types: Vec<DataType>) -> Subscription {
    Subscription {
        symbol: symbol.to_string(),
        exchange: "kraken".to_string(),
        data_types: types,
        depth: Some(10),
        interval: None,
    }
}

#[test]
fn ws_url_per_exchange() {
    assert_eq!(exchange_ws_url("kraken"), "wss://ws.kraken.com/v2");
    assert_eq!(exchange_ws_url("binance"), "wss://stream.binance.com:9443/ws");
    assert_eq!(exchange_ws_url("coinbase"), "wss://ws-feed.exchange.coinbase.com");
    assert_eq!(exchange_ws_url("nope"), "wss://ws.kraken.com/v2");
    assert!(!exchange_ws_url("kraken").is_empty());
}

#[test]
fn defaults_of_policy_and_mode() {
    assert_eq!(DropPolicy::default(), DropPolicy::DropOldest);
    assert_eq!(WsMode::default(), WsMode::Simulated);
}

#[test]
fn buffer_drop_oldest_keeps_last_five() {
    let mut buf: VecDeque<u64> = VecDeque::new();
    let mut lost = 0;
    for i in 1..=10u64 {
        if push_with_policy(&mut buf, 5, i, DropPolicy::DropOldest, "global") {
            lost += 1;
        }
    }
    assert_eq!(buf.len(), 5);
    assert_eq!(lost, 5);
    assert_eq!(buf.iter().copied().collect::<Vec<_>>(), vec![6, 7, 8, 9, 10]);
}

#[test]
fn buffer_drop_newest_keeps_history() {
    let mut buf: VecDeque<u64> = VecDeque::new();
    let mut lost = 0;
    for i in 1..=5u64 {
        if push_with_policy(&mut buf, 3, i, DropPolicy::DropNewest, "kraken:BTC/USD") {
            lost += 1;
        }
    }
    assert_eq!(buf.len(), 3);
    assert_eq!(buf.iter().rev().next(), Some(&3));
    assert_eq!(lost, 2);
}

#[test]
fn buffer_block_refuses_when_full() {
    let mut buf: VecDeque<u64> = VecDeque::from(vec![1, 2]);
    assert!(push_with_policy(&mut buf, 2, 3, DropPolicy::Block, "k"));
    assert_eq!(buf, VecDeque::from(vec![1, 2]));
    assert!(!push_with_policy(&mut buf, 3, 3, DropPolicy::Block, "k"));
    assert_eq!(buf, VecDeque::from(vec![1, 2, 3]));
}

#[test]
fn buffer_of_zero_capacity_keeps_only_latest_under_drop_oldest() {
    let mut buf: VecDeque<u64> = VecDeque::new();
    assert!(push_with_policy(&mut buf, 0, 7, DropPolicy::DropOldest, "k"));
    assert_eq!(buf, VecDeque::from(vec![7]));
}

#[test]
fn feed_first_message_is_counted_and_in_order() {
    let mut f = FeedSequence::new();
    let v = f.on_message(1, 1_700_000_000_000, 5_000);
    assert_eq!(v, MessageVerdict::Accepted { gap_size: 0, from_seq: 1 });
    assert_eq!(f.message_count, 1);
    assert!(f.sequence_ok);
}

#[test]
fn feed_sequence_gap_counts_dropped() {
    let mut f = FeedSequence::new();
    f.on_message(1, 1000, 5_000);
    let v = f.on_message(5, 1001, 5_000);
    assert_eq!(v, MessageVerdict::Accepted { gap_size: 3, from_seq: 2 });
    assert_eq!(f.dropped_count, 3);
    assert!(!f.sequence_ok);
    assert_eq!(gap_fill_range(v, 5, 1), Some((2, 4)));
    assert_eq!(gap_fill_range(v, 5, 4), None);
}

#[test]
fn feed_jump_from_fresh_state_drops_all_before() {
    let mut f = FeedSequence::new();
    f.on_message(50, 1000, 5_000);
    assert_eq!(f.dropped_count, 49);
    assert!(!f.sequence_ok);
}

#[test]
fn feed_duplicate_is_absorbed() {
    let mut f = FeedSequence::new();
    f.on_message(1, 1000, 5_000);
    let v = f.on_message(1, 2000, 5_000);
    assert_eq!(v, MessageVerdict::Duplicate);
    assert_eq!(f.message_count, 1);
    assert_eq!(f.last_processed_time, 2000);
    assert_eq!(gap_fill_range(v, 1, 0), None);
}

#[test]
fn feed_late_event_is_rejected() {
    let mut f = FeedSequence::new();
    f.on_message(1, 10_000, 1_000);
    let v = f.on_message(2, 8_000, 1_000);
    assert_eq!(v, MessageVerdict::Late);
    assert_eq!(f.late_event_count, 1);
    assert_eq!(f.last_sequence, 1);
    assert_eq!(f.last_processed_time, 10_000);
    assert_eq!(f.message_count, 1);
    // Within the window it is applied.
    assert_eq!(f.on_message(2, 9_500, 1_000), MessageVerdict::Accepted { gap_size: 0, from_seq: 2 });
}

#[test]
fn orderbook_payload_sequence() {
    let mut s = OrderBookSequence::new();
    assert_eq!(s.apply(10, true), (true, false));
    assert_eq!(s.apply(11, false), (true, false));
    assert_eq!(s.apply(11, false), (false, false));
    assert_eq!(s.apply(14, false), (true, true));
    assert_eq!(s.apply(0, false), (false, false));
    assert_eq!(s.apply(12, false), (false, false));
    assert_eq!(s.last_ob_sequence, 14);
    assert_eq!(s.apply(3, true), (true, false));
    assert_eq!(s.last_ob_sequence, 3);
}

#[test]
fn connection_life_cycle() {
    let mut c = FeedConnection::new();
    assert_eq!(c.status, SubscriptionStatus::Unsubscribed);
    assert!(c.start());
    assert_eq!(c.status, SubscriptionStatus::Subscribing);
    assert!(c.should_continue(3));
    c.on_connected(WsMode::Live);
    assert!(c.connected);
    assert!(!c.start());
    assert!(!c.on_error(3));
    assert!(!c.on_error(3));
    assert!(c.on_error(3));
    assert_eq!(c.status, SubscriptionStatus::Failed);
    assert!(!c.should_continue(3));
    assert!(!c.reconnect(3));
    assert_eq!(c.reconnect_attempts, 3);
    c.on_stopped();
    assert_eq!(c.status, SubscriptionStatus::Unsubscribed);
    assert!(!c.connected);
}

#[test]
fn reconnect_counts_attempts() {
    let mut c = FeedConnection::new();
    assert!(c.reconnect(2));
    assert_eq!(c.reconnect_attempts, 1);
    assert_eq!(c.reconnect_count, 1);
    assert_eq!(c.status, SubscriptionStatus::Subscribing);
    c.on_connected(WsMode::Simulated);
    assert_eq!(c.reconnect_attempts, 0);
    assert_eq!(c.reconnect_count, 0);
}

#[test]
fn backoff_grows_by_half_and_caps() {
    assert_eq!(next_reconnect_delay_ms(1000, 60_000, 0), 1500);
    assert_eq!(next_reconnect_delay_ms(1000, 60_000, 1234), 1734);
    assert_eq!(next_reconnect_delay_ms(50_000, 60_000, 999), 60_999);
    assert_eq!(next_reconnect_delay_ms(0, 60_000, 5), 5);
}

#[test]
fn backoff_jitter_stays_below_a_second() {
    for _ in 0..50 {
        let d = next_reconnect_delay_with_jitter(1000, 60_000);
        assert!((1500..2500).contains(&d));
    }
}

#[test]
fn unsubscribe_removes_overlapping() {
    let mut subs = vec![
        trade_sub("BTC/USD", vec![DataType::Trade]),
        trade_sub("ETH/USD", vec![DataType::OrderBook, DataType::Ticker]),
        trade_sub("SOL/USD", vec![DataType::Ticker, DataType::Trade]),
    ];
    assert!(subscription_overlaps(&subs[2].data_types, &vec![DataType::Trade]));
    assert!(!subscription_overlaps(&subs[1].data_types, &vec![DataType::Trade]));
    unsubscribe_types(&mut subs, &vec![DataType::Trade]);
    assert_eq!(subs.len(), 1);
    assert_eq!(subs[0].symbol, "ETH/USD");
}

#[test]
fn additional_subscription_has_default_depth() {
    let s = additional_subscription("kraken", "BTC/USD", vec![DataType::OHLCV]);
    assert_eq!(s.symbol, "BTC/USD");
    assert_eq!(s.exchange, "kraken");
    assert_eq!(s.data_types, vec![DataType::OHLCV]);
    assert_eq!(s.depth, Some(100));
    assert_eq!(s.interval, None);
}

#[test]
fn test_handle_message_counts_and_orders() {
    let mut feed: FeedState<u64> = FeedState::new(100_000);
    let o = feed.handle_message(1, 1_700_000_000_000, 1, 10_000, DropPolicy::DropOldest, 100, 10);
    assert_eq!(o, FeedOutcome {
        verdict: MessageVerdict::Accepted { gap_size: 0, from_seq: 1 },
        buffer_lost: false,
        gap_fill: None,
        reconnect: false,
    });
    assert_eq!(feed.sequence.message_count, 1);
    assert!(feed.sequence.sequence_ok);
}

#[test]
fn test_sequence_gap_detection_in_feed() {
    let mut feed: FeedState<u64> = FeedState::new(100_000);
    feed.handle_message(1, 1000, 1, 10_000, DropPolicy::DropOldest, 100, 10);
    feed.handle_message(5, 1000, 5, 10_000, DropPolicy::DropOldest, 100, 10);
    assert_eq!(feed.sequence.dropped_count, 3);
    assert!(!feed.sequence.sequence_ok);
}

#[test]
fn feed_buffer_drops_count_as_dropped() {
    let mut feed: FeedState<u64> = FeedState::new(3);
    for i in 1..=5u64 {
        feed.handle_message(i, 1000 + i, i, 10_000, DropPolicy::DropNewest, 100, 10);
    }
    assert_eq!(feed.buffer.len(), 3);
    assert_eq!(feed.buffer.iter().rev().next(), Some(&3));
    assert_eq!(feed.sequence.dropped_count, 2);
}

#[test]
fn large_gap_triggers_reconnect_and_fill() {
    let mut feed: FeedState<u64> = FeedState::new(10);
    feed.handle_message(1, 1000, 1, 10_000, DropPolicy::DropOldest, 100, 10);
    let o = feed.handle_message(150, 1001, 150, 10_000, DropPolicy::DropOldest, 100, 10);
    assert_eq!(o.gap_fill, Some((2, 149)));
    assert!(o.reconnect);
    assert_eq!(feed.connection.reconnect_attempts, 1);
    assert_eq!(feed.connection.status, SubscriptionStatus::Subscribing);
    // Filled messages are buffered and counted.
    for s in 2..=4u64 {
        assert!(!feed.on_gap_fill(s, s, DropPolicy::DropOldest));
    }
    assert_eq!(feed.sequence.message_count, 5);
    assert_eq!(feed.sequence.last_sequence, 150);
    assert!(feed.buffer.contains(&3));
}

#[test]
fn duplicate_and_late_messages_are_not_buffered() {
    let mut feed: FeedState<u64> = FeedState::new(10);
    feed.handle_message(1, 10_000, 1, 1_000, DropPolicy::DropOldest, 100, 10);
    let dup = feed.handle_message(1, 10_000, 1, 1_000, DropPolicy::DropOldest, 100, 10);
    assert_eq!(dup.verdict, MessageVerdict::Duplicate);
    let late = feed.handle_message(2, 1_000, 2, 1_000, DropPolicy::DropOldest, 100, 10);
    assert_eq!(late.verdict, MessageVerdict::Late);
    assert_eq!(feed.buffer.len(), 1);
}

#[test]
fn stale_after_timeout() {
    assert!(!is_stale(60_000, 0, 60_000));
    assert!(is_stale(60_001, 0, 60_000));
    assert!(!is_stale(0, 10, 60_000));
}

#[test]
fn live_frames_are_classified_by_channel_and_type() {
    assert_eq!(live_data_type("book", "update"), Some(DataType::OrderBook));
    assert_eq!(live_data_type("book", "snapshot"), Some(DataType::OrderBook));
    assert_eq!(live_data_type("ticker", "update"), Some(DataType::Ticker));
    assert_eq!(live_data_type("trade", "snapshot"), Some(DataType::Trade));
    assert_eq!(live_data_type("heartbeat", "update"), Some(DataType::Trade));
    assert_eq!(live_data_type("book", "subscribe"), None);
    assert_eq!(live_data_type("status", ""), None);
    assert_eq!(live_data_type("", "whatever"), Some(DataType::Trade));
}

#[test]
fn live_connections_use_the_feed_url_first() {
    assert_eq!(live_url("wss://example.test/ws", "kraken"), "wss://example.test/ws");
    assert_eq!(live_url("", "binance"), "wss://stream.binance.com:9443/ws");
}
