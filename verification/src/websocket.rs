//! Feed-handler decisions of the WebSocket market-data layer: bounded
//! buffers with a drop policy, per-feed sequence and lateness checks,
//! order-book delta sequencing, reconnect bookkeeping and backoff.
use vstd::prelude::*;
use std::collections::VecDeque;
use crate::text::str_eq;

verus! {

/// Backpressure drop policy for full buffers.
#[derive(Debug, Clone, Copy, PartialEq, Eq, Structural)]
pub enum DropPolicy {
    /// Evict the oldest buffered message and keep the incoming one.
    DropOldest,
    /// Drop the incoming message and keep the history.
    DropNewest,
    /// Like `DropNewest`; the caller also reports the backpressure.
    Block,
}

impl Default for DropPolicy {
    fn default() -> (p: Self)
        ensures
            p == DropPolicy::DropOldest,
    {
        DropPolicy::DropOldest
    }
}

/// WebSocket connection mode.
#[derive(Debug, Clone, Copy, PartialEq, Eq, Structural)]
pub enum WsMode {
    Simulated,
    Live,
}

impl Default for WsMode {
    fn default() -> (m: Self)
        ensures
            m == WsMode::Simulated,
    {
        WsMode::Simulated
    }
}

/// Life cycle of a feed subscription.
#[derive(Debug, Clone, Copy, PartialEq, Eq, Structural)]
pub enum SubscriptionStatus {
    Unsubscribed,
    Subscribing,
    Subscribed,
    Unsubscribing,
    Failed,
}

/// Kind of market data carried by a message.
#[derive(Debug, Clone, Copy, PartialEq, Eq, Structural)]
pub enum DataType {
    Trade,
    OrderBook,
    Ticker,
    OHLCV,
    Heartbeat,
    System,
}

/// A subscription request for one symbol on one exchange.
#[derive(Debug, Clone)]
pub struct Subscription {
    pub symbol: String,
    pub exchange: String,
    pub data_types: Vec<DataType>,
    pub depth: Option<usize>,
    pub interval: Option<u32>,
}

/// The WebSocket URL used for `exchange` in live mode.
pub open spec fn spec_exchange_ws_url(exchange: Seq<char>) -> Seq<char> {
    if exchange == "binance"@ {
        "wss://stream.binance.com:9443/ws"@
    } else if exchange == "coinbase"@ {
        "wss://ws-feed.exchange.coinbase.com"@
    } else {
        "wss://ws.kraken.com/v2"@
    }
}

/// Default WebSocket URL per exchange; unknown exchanges get Kraken's.
pub fn exchange_ws_url(exchange: &str) -> (url: &'static str)
    ensures
        url@ == spec_exchange_ws_url(exchange@),
{
    proof {
        reveal_strlit("kraken");
        reveal_strlit("binance");
        reveal_strlit("coinbase");
        assert("kraken"@.len() == 6);
        assert("binance"@.len() == 7);
        assert("coinbase"@.len() == 8);
    }
    if str_eq(exchange, "kraken") {
        "wss://ws.kraken.com/v2"
    } else if str_eq(exchange, "binance") {
        "wss://stream.binance.com:9443/ws"
    } else if str_eq(exchange, "coinbase") {
        "wss://ws-feed.exchange.coinbase.com"
    } else {
        "wss://ws.kraken.com/v2"
    }
}

/// The buffer after pushing `msg` onto `buf` under `policy`, and whether a
/// message was lost.
pub open spec fn push_outcome<T>(buf: Seq<T>, max: nat, msg: T, policy: DropPolicy) -> (Seq<T>, bool) {
    if buf.len() < max {
        (buf.push(msg), false)
    } else {
        match policy {
            DropPolicy::DropOldest => (
                (if buf.len() > 0 { buf.drop_first() } else { buf }).push(msg),
                true,
            ),
            _ => (buf, true),
        }
    }
}

/// Push with backpressure policy. Returns true if a message was lost
/// (the oldest evicted under `DropOldest`, or the incoming one dropped
/// under `DropNewest`/`Block`). `key` names the buffer for the caller's
/// reports.
pub fn push_with_policy<T>(buf: &mut VecDeque<T>, max: usize, msg: T, policy: DropPolicy, key: &str) -> (lost: bool)
    ensures
        (final(buf)@, lost) == push_outcome(old(buf)@, max as nat, msg, policy),
{
    if buf.len() < max {
        buf.push_back(msg);
        return false;
    }
    match policy {
        DropPolicy::DropOldest => {
            let _ = buf.pop_front();
            buf.push_back(msg);
            true
        },
        DropPolicy::DropNewest => true,
        DropPolicy::Block => true,
    }
}

/// A buffer that holds at most `max` messages (with `max > 0`) still
/// holds at most `max` after any push, whatever the policy.
pub proof fn lemma_push_respects_capacity<T>(buf: Seq<T>, max: nat, msg: T, policy: DropPolicy)
    requires
        max > 0,
        buf.len() <= max,
    ensures
        push_outcome(buf, max, msg, policy).0.len() <= max,
{
}

/// Under `DropOldest` a full buffer keeps exactly the `max` most recent
/// messages, the incoming one last.
pub proof fn lemma_drop_oldest_keeps_latest<T>(buf: Seq<T>, max: nat, msg: T)
    requires
        max > 0,
        buf.len() == max,
    ensures
        push_outcome(buf, max, msg, DropPolicy::DropOldest).0 =~= buf.push(msg).subrange(1, max as int + 1),
        push_outcome(buf, max, msg, DropPolicy::DropOldest).1,
{
}

/// Under `DropNewest` and `Block` the history is never rewritten: the old
/// contents stay a prefix of the buffer.
pub proof fn lemma_drop_newest_keeps_history<T>(buf: Seq<T>, max: nat, msg: T, policy: DropPolicy)
    requires
        policy != DropPolicy::DropOldest,
    ensures
        push_outcome(buf, max, msg, policy).0.subrange(0, buf.len() as int) =~= buf,
{
}

/// A message is lost exactly when the buffer was already full.
pub proof fn lemma_loss_iff_full<T>(buf: Seq<T>, max: nat, msg: T, policy: DropPolicy)
    ensures
        push_outcome(buf, max, msg, policy).1 <== (buf.len() >= max),
        push_outcome(buf, max, msg, policy).1 ==> (buf.len() >= max),
{
}

/// What a feed does with one incoming message.
#[derive(Debug, Clone, Copy, PartialEq, Eq, Structural)]
pub enum MessageVerdict {
    /// Same sequence number as the last applied one: reported as handled,
    /// nothing is applied.
    Duplicate,
    /// Older than the lateness window allows: rejected.
    Late,
    /// Applied. `gap_size` messages were missing before it, the first of
    /// them being `from_seq`.
    Accepted { gap_size: u64, from_seq: u64 },
}

/// Sequence, lateness and message counters of one feed.
#[derive(Debug, Clone, Copy, PartialEq, Eq, Structural)]
pub struct FeedSequence {
    pub last_sequence: u64,
    pub last_processed_time: u64,
    pub message_count: u64,
    pub dropped_count: u64,
    pub late_event_count: u64,
    pub sequence_ok: bool,
}

/// `a - b`, saturating at zero.
pub open spec fn sat_sub(a: u64, b: u64) -> u64 {
    if a >= b { (a - b) as u64 } else { 0 }
}

/// Number of sequence numbers skipped between `last` and `seq`.
pub open spec fn sequence_gap(last: u64, seq: u64) -> u64 {
    if seq > last + 1 { (seq - last - 1) as u64 } else { 0 }
}

/// Whether `FeedSequence::on_message` is defined on these inputs: no
/// sequence number follows `u64::MAX`, and no counter overflows.
pub open spec fn on_message_defined(f: FeedSequence, seq: u64, ts: u64, max_lateness_ms: u64) -> bool {
    seq != f.last_sequence ==> {
        &&& f.last_sequence < u64::MAX
        &&& f.dropped_count + sequence_gap(f.last_sequence, seq) <= u64::MAX
        &&& f.late_event_count < u64::MAX
        &&& f.message_count < u64::MAX
    }
}

/// The feed state after a message `seq` with timestamp `ts`, and the verdict.
pub open spec fn on_message_outcome(f: FeedSequence, seq: u64, ts: u64, max_lateness_ms: u64) -> (FeedSequence, MessageVerdict) {
    if seq == f.last_sequence {
        (
            FeedSequence { last_processed_time: if ts >= f.last_processed_time { ts } else { f.last_processed_time }, ..f },
            MessageVerdict::Duplicate,
        )
    } else {
        let gap = sequence_gap(f.last_sequence, seq);
        let checked = FeedSequence {
            dropped_count: (f.dropped_count + gap) as u64,
            sequence_ok: seq == f.last_sequence + 1,
            ..f
        };
        if ts < sat_sub(f.last_processed_time, max_lateness_ms) {
            (FeedSequence { late_event_count: (f.late_event_count + 1) as u64, ..checked }, MessageVerdict::Late)
        } else {
            (
                FeedSequence {
                    last_sequence: seq,
                    last_processed_time: ts,
                    message_count: (f.message_count + 1) as u64,
                    ..checked
                },
                MessageVerdict::Accepted { gap_size: gap, from_seq: (f.last_sequence + 1) as u64 },
            )
        }
    }
}

impl FeedSequence {
    /// The state of a fresh feed.
    pub open spec fn new_spec() -> FeedSequence {
        FeedSequence {
            last_sequence: 0,
            last_processed_time: 0,
            message_count: 0,
            dropped_count: 0,
            late_event_count: 0,
            sequence_ok: true,
        }
    }

    /// A fresh feed: nothing seen, sequence healthy.
    pub fn new() -> (f: Self)
        ensures
            f == (FeedSequence {
                last_sequence: 0,
                last_processed_time: 0,
                message_count: 0,
                dropped_count: 0,
                late_event_count: 0,
                sequence_ok: true,
            }),
    {
        FeedSequence {
            last_sequence: 0,
            last_processed_time: 0,
            message_count: 0,
            dropped_count: 0,
            late_event_count: 0,
            sequence_ok: true,
        }
    }

    /// Checks message `seq` stamped `ts` against the feed: duplicates are
    /// absorbed, skipped sequence numbers are counted as dropped, events
    /// older than `last_processed_time - max_lateness_ms` are rejected, and
    /// everything else is applied.
    pub fn on_message(&mut self, seq: u64, ts: u64, max_lateness_ms: u64) -> (v: MessageVerdict)
        requires
            on_message_defined(*old(self), seq, ts, max_lateness_ms),
        ensures
            (*final(self), v) == on_message_outcome(*old(self), seq, ts, max_lateness_ms),
    {
        if seq == self.last_sequence {
            if ts > self.last_processed_time {
                self.last_processed_time = ts;
            }
            return MessageVerdict::Duplicate;
        }
        let mut gap_size: u64 = 0;
        if seq > self.last_sequence + 1 {
            gap_size = seq - self.last_sequence - 1;
            self.dropped_count = self.dropped_count + gap_size;
            self.sequence_ok = false;
        } else if seq < self.last_sequence {
            self.sequence_ok = false;
        } else {
            self.sequence_ok = true;
        }
        if ts < self.last_processed_time.saturating_sub(max_lateness_ms) {
            self.late_event_count = self.late_event_count + 1;
            return MessageVerdict::Late;
        }
        let from_seq = self.last_sequence + 1;
        self.last_sequence = seq;
        self.last_processed_time = ts;
        self.message_count = self.message_count + 1;
        MessageVerdict::Accepted { gap_size, from_seq }
    }
}

/// The range of sequence numbers to request from a gap-fill provider after
/// `verdict` for message `seq`: only for a gap of at least `threshold`
/// (and at least one) missing messages.
pub fn gap_fill_range(verdict: MessageVerdict, seq: u64, threshold: u64) -> (r: Option<(u64, u64)>)
    ensures
        r == gap_fill_range_spec(verdict, seq, threshold),
{
    match verdict {
        MessageVerdict::Accepted { gap_size, from_seq } => {
            if gap_size > 0 && gap_size >= threshold {
                Some((from_seq, seq.saturating_sub(1)))
            } else {
                None
            }
        },
        _ => None,
    }
}

/// A rejected late event moves neither the sequence position, the clock
/// nor the message count of the feed.
pub proof fn lemma_late_event_changes_no_position(f: FeedSequence, seq: u64, ts: u64, max_lateness_ms: u64)
    requires
        on_message_defined(f, seq, ts, max_lateness_ms),
        on_message_outcome(f, seq, ts, max_lateness_ms).1 == MessageVerdict::Late,
    ensures
        on_message_outcome(f, seq, ts, max_lateness_ms).0.last_sequence == f.last_sequence,
        on_message_outcome(f, seq, ts, max_lateness_ms).0.last_processed_time == f.last_processed_time,
        on_message_outcome(f, seq, ts, max_lateness_ms).0.message_count == f.message_count,
        on_message_outcome(f, seq, ts, max_lateness_ms).0.late_event_count == f.late_event_count + 1,
{
}

/// Every skipped sequence number is counted as dropped exactly once: the
/// drop counter grows by the size of the gap, and an in-order message
/// marks the sequence healthy again.
pub proof fn lemma_drops_count_gap(f: FeedSequence, seq: u64, ts: u64, max_lateness_ms: u64)
    requires
        on_message_defined(f, seq, ts, max_lateness_ms),
        seq != f.last_sequence,
    ensures
        on_message_outcome(f, seq, ts, max_lateness_ms).0.dropped_count == f.dropped_count + sequence_gap(f.last_sequence, seq),
        on_message_outcome(f, seq, ts, max_lateness_ms).0.sequence_ok == (seq == f.last_sequence + 1),
{
}

/// An applied message becomes the feed's last sequence number and clock.
pub proof fn lemma_accepted_becomes_last(f: FeedSequence, seq: u64, ts: u64, max_lateness_ms: u64)
    requires
        on_message_defined(f, seq, ts, max_lateness_ms),
        on_message_outcome(f, seq, ts, max_lateness_ms).1 is Accepted,
    ensures
        on_message_outcome(f, seq, ts, max_lateness_ms).0.last_sequence == seq,
        on_message_outcome(f, seq, ts, max_lateness_ms).0.last_processed_time == ts,
        on_message_outcome(f, seq, ts, max_lateness_ms).0.message_count == f.message_count + 1,
{
}

/// Order-book delta sequencing of one feed.
#[derive(Debug, Clone, Copy, PartialEq, Eq, Structural)]
pub struct OrderBookSequence {
    pub last_ob_sequence: u64,
}

/// `(new last sequence, applied, gap detected)` for an order-book payload
/// with sequence `seq`; a snapshot resets the sequence.
pub open spec fn orderbook_step(last: u64, seq: u64, is_snapshot: bool) -> (u64, bool, bool) {
    if is_snapshot {
        (seq, true, false)
    } else if seq == 0 || seq <= last {
        (last, false, false)
    } else {
        (seq, true, seq > last + 1 && last > 0)
    }
}

impl OrderBookSequence {
    /// No order-book update seen yet.
    pub fn new() -> (s: Self)
        ensures
            s.last_ob_sequence == 0,
    {
        OrderBookSequence { last_ob_sequence: 0 }
    }

    /// Validates an order-book payload against the sequence: returns
    /// `(applied, gap_detected)`. Snapshots always apply and reset the
    /// sequence; duplicate, unsequenced and stale deltas are ignored.
    pub fn apply(&mut self, seq: u64, is_snapshot: bool) -> (r: (bool, bool))
        ensures
            (final(self).last_ob_sequence, r.0, r.1) == orderbook_step(old(self).last_ob_sequence, seq, is_snapshot),
    {
        if is_snapshot {
            self.last_ob_sequence = seq;
            return (true, false);
        }
        if seq == 0 || seq == self.last_ob_sequence {
            return (false, false);
        }
        if seq <= self.last_ob_sequence {
            return (false, false);
        }
        let gap = seq > self.last_ob_sequence + 1 && self.last_ob_sequence > 0;
        self.last_ob_sequence = seq;
        (true, gap)
    }
}

/// Applied deltas only move the order-book sequence forward; an ignored
/// payload leaves it unchanged.
pub proof fn lemma_deltas_move_forward(last: u64, seq: u64)
    ensures
        orderbook_step(last, seq, false).1 ==> orderbook_step(last, seq, false).0 > last,
        !orderbook_step(last, seq, false).1 ==> orderbook_step(last, seq, false).0 == last,
        orderbook_step(last, seq, false).2 ==> orderbook_step(last, seq, false).1,
{
}

/// Connection bookkeeping of one feed.
#[derive(Debug, Clone, Copy, PartialEq, Eq, Structural)]
pub struct FeedConnection {
    pub connected: bool,
    pub reconnect_attempts: u32,
    pub reconnect_count: u32,
    pub status: SubscriptionStatus,
}

impl FeedConnection {
    /// The state of a feed that has been added but not started.
    pub open spec fn new_spec() -> FeedConnection {
        FeedConnection {
            connected: false,
            reconnect_attempts: 0,
            reconnect_count: 0,
            status: SubscriptionStatus::Unsubscribed,
        }
    }

    /// A feed that has been added but not started.
    pub fn new() -> (c: Self)
        ensures
            c == (FeedConnection {
                connected: false,
                reconnect_attempts: 0,
                reconnect_count: 0,
                status: SubscriptionStatus::Unsubscribed,
            }),
    {
        FeedConnection {
            connected: false,
            reconnect_attempts: 0,
            reconnect_count: 0,
            status: SubscriptionStatus::Unsubscribed,
        }
    }

    /// Starting a feed: an already connected feed needs nothing (returns
    /// false); otherwise it is marked subscribing and a connection task must
    /// be spawned (returns true).
    pub fn start(&mut self) -> (spawn: bool)
        ensures
            spawn == !old(self).connected,
            *final(self) == (if old(self).connected { *old(self) } else {
                FeedConnection { status: SubscriptionStatus::Subscribing, ..*old(self) }
            }),
    {
        if self.connected {
            return false;
        }
        self.status = SubscriptionStatus::Subscribing;
        true
    }

    /// Whether the connection task should try (again): a connected feed,
    /// or one with reconnect attempts left.
    pub fn should_continue(&self, max_reconnect_attempts: u32) -> (r: bool)
        ensures
            r == (self.connected || self.reconnect_attempts < max_reconnect_attempts),
    {
        self.connected || self.reconnect_attempts < max_reconnect_attempts
    }

    /// The connection is up and subscribed; the attempt counter is reset.
    /// In simulated mode the reconnect count is reset too.
    pub fn on_connected(&mut self, mode: WsMode)
        ensures
            *final(self) == (FeedConnection {
                connected: true,
                reconnect_attempts: 0,
                reconnect_count: if mode == WsMode::Simulated { 0 } else { old(self).reconnect_count },
                status: SubscriptionStatus::Subscribed,
            }),
    {
        self.connected = true;
        self.status = SubscriptionStatus::Subscribed;
        self.reconnect_attempts = 0;
        if mode == WsMode::Simulated {
            self.reconnect_count = 0;
        }
    }

    /// The connection failed: one more attempt is counted and the feed is
    /// marked failed. Returns true when the attempts are used up and the
    /// task must give up.
    pub fn on_error(&mut self, max_reconnect_attempts: u32) -> (give_up: bool)
        requires
            old(self).reconnect_attempts < u32::MAX,
        ensures
            *final(self) == (FeedConnection {
                connected: false,
                reconnect_attempts: (old(self).reconnect_attempts + 1) as u32,
                status: SubscriptionStatus::Failed,
                ..*old(self)
            }),
            give_up == (final(self).reconnect_attempts >= max_reconnect_attempts),
    {
        self.reconnect_attempts = self.reconnect_attempts + 1;
        self.connected = false;
        self.status = SubscriptionStatus::Failed;
        self.reconnect_attempts >= max_reconnect_attempts
    }

    /// The connection task ended or the manager shut down.
    pub fn on_stopped(&mut self)
        ensures
            *final(self) == (FeedConnection {
                connected: false,
                status: SubscriptionStatus::Unsubscribed,
                ..*old(self)
            }),
    {
        self.connected = false;
        self.status = SubscriptionStatus::Unsubscribed;
    }

    /// A reconnect request: refused (false, nothing changes) once the
    /// attempts are used up; otherwise the feed is disconnected, one more
    /// attempt and reconnect are counted, and it is marked subscribing.
    pub fn reconnect(&mut self, max_reconnect_attempts: u32) -> (accepted: bool)
        requires
            old(self).reconnect_attempts < max_reconnect_attempts ==> old(self).reconnect_count < u32::MAX,
        ensures
            accepted == (old(self).reconnect_attempts < max_reconnect_attempts),
            *final(self) == (if accepted {
                FeedConnection {
                    connected: false,
                    reconnect_attempts: (old(self).reconnect_attempts + 1) as u32,
                    reconnect_count: (old(self).reconnect_count + 1) as u32,
                    status: SubscriptionStatus::Subscribing,
                }
            } else {
                *old(self)
            }),
    {
        if self.reconnect_attempts >= max_reconnect_attempts {
            return false;
        }
        self.connected = false;
        self.reconnect_attempts = self.reconnect_attempts + 1;
        self.reconnect_count = self.reconnect_count + 1;
        self.status = SubscriptionStatus::Subscribing;
        true
    }
}

/// Reconnect requests can never push the attempt counter past the limit
/// they are checked against.
pub proof fn lemma_reconnect_bounded(c: FeedConnection, max: u32)
    requires
        c.reconnect_attempts <= max,
    ensures
        c.reconnect_attempts < max ==> (c.reconnect_attempts + 1) <= max,
{
}

/// The exponential part of the reconnect backoff: half again the current
/// delay, capped at `max_delay_ms`.
pub open spec fn backoff_base(delay_ms: u64, max_delay_ms: u64) -> int {
    let grown = delay_ms + delay_ms / 2;
    if grown <= max_delay_ms { grown } else { max_delay_ms as int }
}

/// Largest delay for which the backoff arithmetic stays exact.
pub open spec fn backoff_delay_limit() -> u64 {
    0x10_0000_0000_0000u64
}

/// The next reconnect delay: `min(1.5 * delay, max)` plus a jitter below
/// one second taken from `jitter`.
pub fn next_reconnect_delay_ms(delay_ms: u64, max_delay_ms: u64, jitter: u64) -> (d: u64)
    requires
        delay_ms <= backoff_delay_limit(),
        max_delay_ms <= backoff_delay_limit(),
    ensures
        d == backoff_base(delay_ms, max_delay_ms) + jitter % 1000,
{
    let grown = delay_ms + delay_ms / 2;
    let capped = if grown <= max_delay_ms { grown } else { max_delay_ms };
    capped + jitter % 1000
}

/// Draws a `u64` from `rand::random` (the thread-local generator). Nothing
/// is stated of the value: it rests on chance.
#[verifier::external_body]
fn random_u64() -> u64 {
    rand::random::<u64>()
}

/// The next reconnect delay with a random jitter: at least the backoff
/// base and less than one second above it.
pub fn next_reconnect_delay_with_jitter(delay_ms: u64, max_delay_ms: u64) -> (d: u64)
    requires
        delay_ms <= backoff_delay_limit(),
        max_delay_ms <= backoff_delay_limit(),
    ensures
        backoff_base(delay_ms, max_delay_ms) <= d < backoff_base(delay_ms, max_delay_ms) + 1000,
{
    let jitter = random_u64();
    next_reconnect_delay_ms(delay_ms, max_delay_ms, jitter)
}

/// Whether a subscription for `sub_types` covers any of `types`.
pub open spec fn types_overlap(sub_types: Seq<DataType>, types: Seq<DataType>) -> bool {
    exists|i: int| 0 <= i < types.len() && sub_types.contains(#[trigger] types[i])
}

fn vec_contains_type(v: &Vec<DataType>, t: DataType) -> (r: bool)
    ensures
        r == v@.contains(t),
{
    let mut i: usize = 0;
    while i < v.len()
        invariant
            i <= v.len(),
            forall|j: int| 0 <= j < i ==> v@[j] != t,
        decreases v.len() - i,
    {
        if v[i] == t {
            assert(v@[i as int] == t);
            return true;
        }
        i = i + 1;
    }
    false
}

/// Whether a subscription for `sub_types` covers any of `types`.
pub fn subscription_overlaps(sub_types: &Vec<DataType>, types: &Vec<DataType>) -> (r: bool)
    ensures
        r == types_overlap(sub_types@, types@),
{
    let mut i: usize = 0;
    while i < types.len()
        invariant
            i <= types.len(),
            forall|j: int| 0 <= j < i ==> !sub_types@.contains(#[trigger] types@[j]),
        decreases types.len() - i,
    {
        if vec_contains_type(sub_types, types[i]) {
            assert(sub_types@.contains(types@[i as int]));
            return true;
        }
        i = i + 1;
    }
    false
}

/// The subscriptions that an unsubscription from `types` keeps.
pub open spec fn kept_by_unsubscribe(types: Seq<DataType>) -> spec_fn(Subscription) -> bool {
    |s: Subscription| !types_overlap(s.data_types@, types)
}

/// Removes every subscription that covers any of `types`, keeping the
/// others in order.
pub fn unsubscribe_types(subs: &mut Vec<Subscription>, types: &Vec<DataType>)
    ensures
        final(subs)@ == old(subs)@.filter(kept_by_unsubscribe(types@)),
{
    let ghost orig = subs@;
    let ghost pred = kept_by_unsubscribe(types@);
    let mut kept: Vec<Subscription> = Vec::new();
    let mut k: usize = 0;
    assert(orig.skip(0) =~= orig);
    assert(orig.len() == subs.len());
    while subs.len() > 0
        invariant
            k <= orig.len(),
            orig.len() <= usize::MAX,
            subs.len() + k == orig.len(),
            subs@ == orig.skip(k as int),
            pred == kept_by_unsubscribe(types@),
            kept@ == orig.take(k as int).filter(pred),
        decreases subs.len(),
    {
        let s = subs.remove(0);
        proof {
            assert(s == orig[k as int]);
            assert(orig.take(k as int + 1) =~= orig.take(k as int).push(s));
            orig.take(k as int).lemma_filter_push(s, pred);
        }
        if !subscription_overlaps(&s.data_types, types) {
            assert(pred(s));
            kept.push(s);
        } else {
            assert(!pred(s));
        }
        k = k + 1;
        proof {
            assert(subs@ =~= orig.skip(k as int));
        }
    }
    proof {
        assert(orig.take(k as int) =~= orig);
    }
    *subs = kept;
}

/// The subscription added for more data types on an existing feed.
pub fn additional_subscription(exchange: &str, symbol: &str, data_types: Vec<DataType>) -> (s: Subscription)
    ensures
        s.symbol@ == symbol@,
        s.exchange@ == exchange@,
        s.data_types@ == data_types@,
        s.depth == Some(100usize),
        s.interval is None,
{
    Subscription {
        symbol: symbol.to_owned(),
        exchange: exchange.to_owned(),
        data_types,
        depth: Some(100),
        interval: None,
    }
}

/// What handling one message did: the verdict of the sequence checks,
/// whether the feed buffer lost a message to make room, the range to
/// request from a gap-fill provider, and whether a reconnect was started.
#[derive(Debug, Clone, Copy, PartialEq, Eq)]
pub struct FeedOutcome {
    pub verdict: MessageVerdict,
    pub buffer_lost: bool,
    pub gap_fill: Option<(u64, u64)>,
    pub reconnect: bool,
}

/// The per-feed state of the feed manager: sequence counters, connection
/// bookkeeping, order-book sequencing and the bounded message buffer.
#[derive(Debug)]
pub struct FeedState<T> {
    pub sequence: FeedSequence,
    pub connection: FeedConnection,
    pub book_sequence: OrderBookSequence,
    pub buffer: VecDeque<T>,
    pub max_buffer_size: usize,
}

/// Whether `FeedState::handle_message` is defined on these inputs: the
/// sequence checks are, the drop counter has room for one more buffer loss,
/// and a reconnect can still be counted.
pub open spec fn handle_defined<T>(f: FeedState<T>, seq: u64, ts: u64, max_lateness_ms: u64) -> bool {
    &&& on_message_defined(f.sequence, seq, ts, max_lateness_ms)
    &&& on_message_outcome(f.sequence, seq, ts, max_lateness_ms).0.dropped_count < u64::MAX
    &&& f.connection.reconnect_count < u32::MAX
}

/// What [`FeedState::handle_message`] reports for message `msg` with
/// sequence number `seq` stamped `ts` on feed `s`.
pub open spec fn message_outcome<T>(s: FeedState<T>, seq: u64, ts: u64, msg: T, max_lateness_ms: u64,
    policy: DropPolicy, gap_threshold: u64, max_reconnect_attempts: u32) -> FeedOutcome {
    let verdict = on_message_outcome(s.sequence, seq, ts, max_lateness_ms).1;
    let gap_fill = gap_fill_range_spec(verdict, seq, gap_threshold);
    FeedOutcome {
        verdict,
        buffer_lost: verdict is Accepted && push_outcome(s.buffer@, s.max_buffer_size as nat, msg, policy).1,
        gap_fill,
        reconnect: gap_fill is Some && s.connection.reconnect_attempts < max_reconnect_attempts,
    }
}

/// `t` is feed `s` after [`FeedState::handle_message`] with these
/// arguments: the sequence checks decide; an applied message goes into the
/// buffer under `policy` and a message lost to make room counts as dropped;
/// a reconnect, when started, disconnects the feed and counts one more
/// attempt and reconnect. The order-book sequence is left alone.
pub open spec fn message_handled<T>(s: FeedState<T>, t: FeedState<T>, seq: u64, ts: u64, msg: T,
    max_lateness_ms: u64, policy: DropPolicy, gap_threshold: u64, max_reconnect_attempts: u32) -> bool {
    let (next, verdict) = on_message_outcome(s.sequence, seq, ts, max_lateness_ms);
    let o = message_outcome(s, seq, ts, msg, max_lateness_ms, policy, gap_threshold, max_reconnect_attempts);
    &&& t.max_buffer_size == s.max_buffer_size
    &&& t.book_sequence == s.book_sequence
    &&& if verdict is Accepted {
        let (buf, lost) = push_outcome(s.buffer@, s.max_buffer_size as nat, msg, policy);
        &&& t.buffer@ == buf
        &&& t.sequence == FeedSequence {
            dropped_count: (next.dropped_count + if lost { 1u64 } else { 0u64 }) as u64,
            ..next
        }
    } else {
        &&& t.buffer@ == s.buffer@
        &&& t.sequence == next
    }
    &&& t.connection == (if o.reconnect {
        FeedConnection {
            connected: false,
            reconnect_attempts: (s.connection.reconnect_attempts + 1) as u32,
            reconnect_count: (s.connection.reconnect_count + 1) as u32,
            status: SubscriptionStatus::Subscribing,
        }
    } else {
        s.connection
    })
}

impl<T> FeedState<T> {
    /// A feed that has seen nothing, with an empty buffer of `max_buffer_size`.
    pub fn new(max_buffer_size: usize) -> (f: Self)
        ensures
            f.sequence == FeedSequence::new_spec(),
            f.connection == FeedConnection::new_spec(),
            f.book_sequence.last_ob_sequence == 0,
            f.buffer@ == Seq::<T>::empty(),
            f.max_buffer_size == max_buffer_size,
    {
        FeedState {
            sequence: FeedSequence::new(),
            connection: FeedConnection::new(),
            book_sequence: OrderBookSequence::new(),
            buffer: VecDeque::new(),
            max_buffer_size,
        }
    }

    /// Whether [`FeedState::handle_message`] is defined for message `seq`
    /// stamped `ts`: no counter of the feed would overflow.
    pub fn can_handle(&self, seq: u64, ts: u64, max_lateness_ms: u64) -> (b: bool)
        ensures
            b == handle_defined(*self, seq, ts, max_lateness_ms),
    {
        if self.connection.reconnect_count == u32::MAX {
            return false;
        }
        let s = &self.sequence;
        if seq == s.last_sequence {
            return s.dropped_count < u64::MAX;
        }
        if s.last_sequence == u64::MAX || s.late_event_count == u64::MAX || s.message_count == u64::MAX {
            return false;
        }
        let gap: u64 = if seq > s.last_sequence + 1 { seq - s.last_sequence - 1 } else { 0 };
        gap < u64::MAX - s.dropped_count
    }

    /// Handles message `msg` with sequence number `seq` stamped `ts`: the
    /// sequence checks decide; an applied message goes into the buffer under
    /// `policy` (a message lost to make room counts as dropped); a gap of at
    /// least `gap_threshold` missing messages starts a reconnect (within
    /// `max_reconnect_attempts`) and yields the range to fill.
    pub fn handle_message(&mut self, seq: u64, ts: u64, msg: T, max_lateness_ms: u64, policy: DropPolicy,
        gap_threshold: u64, max_reconnect_attempts: u32) -> (o: FeedOutcome)
        requires
            handle_defined(*old(self), seq, ts, max_lateness_ms),
        ensures
            o == message_outcome(*old(self), seq, ts, msg, max_lateness_ms, policy, gap_threshold, max_reconnect_attempts),
            message_handled(*old(self), *final(self), seq, ts, msg, max_lateness_ms, policy, gap_threshold,
                max_reconnect_attempts),
    {
        let verdict = self.sequence.on_message(seq, ts, max_lateness_ms);
        let mut lost = false;
        if let MessageVerdict::Accepted { .. } = verdict {
            lost = push_with_policy(&mut self.buffer, self.max_buffer_size, msg, policy, "feed");
            if lost {
                self.sequence.dropped_count = self.sequence.dropped_count + 1;
            }
        }
        let gap_fill = gap_fill_range(verdict, seq, gap_threshold);
        let mut reconnect = false;
        if gap_fill.is_some() {
            reconnect = self.connection.reconnect(max_reconnect_attempts);
        }
        FeedOutcome { verdict, buffer_lost: lost, gap_fill, reconnect }
    }

    /// Takes in a message delivered by gap fill: it goes into the buffer
    /// under `policy` (a loss counts as dropped), is counted, and advances
    /// the last sequence number when it is newer. Returns whether the
    /// buffer lost a message.
    pub fn on_gap_fill(&mut self, seq: u64, msg: T, policy: DropPolicy) -> (lost: bool)
        requires
            old(self).sequence.dropped_count < u64::MAX,
            old(self).sequence.message_count < u64::MAX,
        ensures
            (final(self).buffer@, lost) == push_outcome(old(self).buffer@, old(self).max_buffer_size as nat, msg, policy),
            final(self).sequence == (FeedSequence {
                dropped_count: (old(self).sequence.dropped_count + if lost { 1u64 } else { 0u64 }) as u64,
                message_count: (old(self).sequence.message_count + 1) as u64,
                last_sequence: if seq > old(self).sequence.last_sequence { seq } else { old(self).sequence.last_sequence },
                ..old(self).sequence
            }),
            final(self).connection == old(self).connection,
            final(self).book_sequence == old(self).book_sequence,
            final(self).max_buffer_size == old(self).max_buffer_size,
    {
        let lost = push_with_policy(&mut self.buffer, self.max_buffer_size, msg, policy, "feed");
        if lost {
            self.sequence.dropped_count = self.sequence.dropped_count + 1;
        }
        self.sequence.message_count = self.sequence.message_count + 1;
        if seq > self.sequence.last_sequence {
            self.sequence.last_sequence = seq;
        }
        lost
    }
}

/// The gap-fill range after `verdict` for message `seq` (see
/// [`gap_fill_range`]).
pub open spec fn gap_fill_range_spec(verdict: MessageVerdict, seq: u64, threshold: u64) -> Option<(u64, u64)> {
    match verdict {
        MessageVerdict::Accepted { gap_size, from_seq } =>
            if gap_size > 0 && gap_size >= threshold { Some((from_seq, sat_sub(seq, 1))) } else { None },
        _ => None,
    }
}

/// Whether a feed whose last message arrived at `last_message_ms` is stale
/// at `now_ms`: more than `stale_timeout_ms` have passed.
pub fn is_stale(now_ms: i64, last_message_ms: i64, stale_timeout_ms: i64) -> (b: bool)
    ensures
        b == (now_ms - last_message_ms > stale_timeout_ms),
{
    (now_ms as i128) - (last_message_ms as i128) > (stale_timeout_ms as i128)
}

/// The kind of data a live text frame carries, from its `channel` and
/// `type` fields (empty when absent): none for a frame on a channel that is
/// neither an update nor a snapshot; order-book data on "book", ticker data
/// on "ticker", trades otherwise.
pub open spec fn spec_live_data_type(channel: Seq<char>, frame_type: Seq<char>) -> Option<DataType> {
    if channel.len() > 0 && frame_type != "update"@ && frame_type != "snapshot"@ {
        None
    } else if channel == "book"@ {
        Some(DataType::OrderBook)
    } else if channel == "ticker"@ {
        Some(DataType::Ticker)
    } else {
        Some(DataType::Trade)
    }
}

/// The kind of data a live text frame carries (see
/// [`spec_live_data_type`]).
pub fn live_data_type(channel: &str, frame_type: &str) -> (r: Option<DataType>)
    ensures
        r == spec_live_data_type(channel@, frame_type@),
{
    if channel.unicode_len() > 0 && !str_eq(frame_type, "update") && !str_eq(frame_type, "snapshot") {
        None
    } else if str_eq(channel, "book") {
        Some(DataType::OrderBook)
    } else if str_eq(channel, "ticker") {
        Some(DataType::Ticker)
    } else {
        Some(DataType::Trade)
    }
}

/// The URL a live connection of a feed uses: the feed's own when it has
/// one, else the exchange's default.
pub fn live_url<'a>(feed_url: &'a str, exchange: &str) -> (u: &'a str)
    ensures
        u@ == (if feed_url@.len() > 0 { feed_url@ } else { spec_exchange_ws_url(exchange@) }),
{
    if feed_url.unicode_len() > 0 {
        feed_url
    } else {
        exchange_ws_url(exchange)
    }
}

} // verus!
