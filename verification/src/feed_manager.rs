//! The market feed manager: the feeds kept under their "exchange:symbol"
//! key, the global message buffer across feeds, and the counters over all
//! feeds. Connections, timers and gap-fill providers are driven from outside;
//! this module decides what each event does to the feeds.
use vstd::prelude::*;
use std::collections::VecDeque;
use crate::clock::utc_now_millis;
use crate::text::{pair_key, same_pair_key, has_colon, pair_key_string};
use crate::websocket::{
    push_outcome, push_with_policy, handle_defined, message_outcome, message_handled, orderbook_step, DataType,
    DropPolicy, FeedConnection, FeedSequence, FeedState, MessageVerdict, Subscription, SubscriptionStatus,
    additional_subscription, unsubscribe_types, kept_by_unsubscribe, is_stale, WsMode,
};

verus! {

/// The settings of the feed manager that its decisions read.
#[derive(Debug, Clone, Copy)]
pub struct FeedManagerConfig {
    pub max_buffer_size: usize,
    pub stale_timeout_ms: i64,
    pub max_reconnect_attempts: u32,
    pub sequence_gap_threshold: u64,
    pub max_lateness_ms: u64,
    pub enable_auto_resubscribe: bool,
    pub drop_policy: DropPolicy,
    pub enable_gap_fill: bool,
}

impl Default for FeedManagerConfig {
    fn default() -> (c: Self)
        ensures
            c.max_buffer_size == 100_000,
            c.stale_timeout_ms == 60_000,
            c.max_reconnect_attempts == 10,
            c.sequence_gap_threshold == 100,
            c.max_lateness_ms == 10_000,
            c.enable_auto_resubscribe,
            c.drop_policy == DropPolicy::DropOldest,
            c.enable_gap_fill,
    {
        FeedManagerConfig {
            max_buffer_size: 100_000,
            stale_timeout_ms: 60_000,
            max_reconnect_attempts: 10,
            sequence_gap_threshold: 100,
            max_lateness_ms: 10_000,
            enable_auto_resubscribe: true,
            drop_policy: DropPolicy::DropOldest,
            enable_gap_fill: true,
        }
    }
}

/// Counters over all feeds.
#[derive(Debug, Clone, Copy, PartialEq, Eq, Structural)]
pub struct FeedManagerStats {
    pub total_feeds: usize,
    pub total_messages: u64,
    pub dropped_messages: u64,
    pub total_reconnects: u64,
}

/// Why the manager refused a request about a feed.
#[derive(Debug, Clone, Copy, PartialEq, Eq, Structural)]
pub enum FeedManagerError {
    /// A feed with this key is already there.
    FeedExists,
    /// No feed has this key.
    FeedNotFound,
}

/// One feed: what it was subscribed with, where it connects, the
/// subscriptions still to send, when it last delivered a message, and its
/// sequencing, connection and buffer state.
#[derive(Debug)]
pub struct Feed<T> {
    pub subscription: Subscription,
    pub url: String,
    pub pending_subscriptions: Vec<Subscription>,
    pub last_message_ms: i64,
    pub state: FeedState<T>,
}

/// The key of a feed: its exchange and symbol joined by a colon.
pub open spec fn feed_key<T>(f: Feed<T>) -> Seq<char> {
    pair_key(f.subscription.exchange@, f.subscription.symbol@)
}

/// No two feeds share a key.
pub open spec fn keys_distinct<T>(feeds: Seq<Feed<T>>) -> bool {
    forall|i: int, j: int| 0 <= i < j < feeds.len() ==> feed_key(feeds[i]) != feed_key(feeds[j])
}

/// Some feed has `key`.
pub open spec fn has_key<T>(feeds: Seq<Feed<T>>, key: Seq<char>) -> bool {
    exists|i: int| 0 <= i < feeds.len() && feed_key(#[trigger] feeds[i]) == key
}

/// Where the feed with `key` stands (meaningful when some feed has it).
pub open spec fn key_index<T>(feeds: Seq<Feed<T>>, key: Seq<char>) -> int {
    choose|i: int| 0 <= i < feeds.len() && feed_key(#[trigger] feeds[i]) == key
}

/// `a` and `b` ask for the same thing.
pub open spec fn same_subscription(a: Subscription, b: Subscription) -> bool {
    &&& a.symbol@ == b.symbol@
    &&& a.exchange@ == b.exchange@
    &&& a.data_types@ == b.data_types@
    &&& a.depth == b.depth
    &&& a.interval == b.interval
}

/// `f` is the feed that `add_feed` makes of `subscription` and `url` for
/// buffers of `max_buffer_size`: nothing seen, not connected, the
/// subscription pending.
pub open spec fn fresh_feed<T>(f: Feed<T>, subscription: Subscription, url: String, max_buffer_size: usize) -> bool {
    &&& same_subscription(f.subscription, subscription)
    &&& f.url == url
    &&& f.pending_subscriptions@.len() == 1
    &&& same_subscription(f.pending_subscriptions@[0], subscription)
    &&& f.state.sequence == FeedSequence::new_spec()
    &&& f.state.connection == FeedConnection::new_spec()
    &&& f.state.book_sequence.last_ob_sequence == 0
    &&& f.state.buffer@ == Seq::<T>::empty()
    &&& f.state.max_buffer_size == max_buffer_size
}

/// What the manager did with one message: whether it was delivered (not
/// rejected as late), the range to request from a gap-fill provider, and
/// whether a reconnect of the feed was started.
#[derive(Debug, Clone, Copy, PartialEq, Eq)]
pub struct MessageDispatch {
    pub delivered: bool,
    pub gap_fill: Option<(u64, u64)>,
    pub reconnect: bool,
}

/// `after` is `before` with a clone of `msg` pushed under `policy` into a
/// buffer of `max` messages.
pub open spec fn clone_pushed<T: Clone>(before: Seq<T>, after: Seq<T>, max: nat, msg: T, policy: DropPolicy) -> bool {
    exists|c: T| cloned(msg, c) && after == push_outcome(before, max, c, policy).0
}

/// Whether pushing into `buf` (of `max` messages) loses a message: only a
/// full buffer does, whatever the message.
pub open spec fn push_loses<T>(buf: Seq<T>, max: nat) -> bool {
    buf.len() >= max
}

/// What the manager holds: its settings, the feeds in the order they were
/// added, the global buffer, and the message, drop and reconnect counters.
pub struct FeedManagerView<T> {
    pub config: FeedManagerConfig,
    pub feeds: Seq<Feed<T>>,
    pub global: Seq<T>,
    pub total_messages: u64,
    pub dropped_messages: u64,
    pub total_reconnects: u64,
}

/// Whether [`MarketFeedManager::handle_message`] is defined for message
/// `seq` stamped `ts` to the feed with `key`: no counter would overflow.
pub open spec fn handle_ready<T>(v: FeedManagerView<T>, key: Seq<char>, seq: u64, ts: u64) -> bool {
    &&& v.dropped_messages < u64::MAX
    &&& has_key(v.feeds, key) ==> {
        &&& handle_defined(v.feeds[key_index(v.feeds, key)].state, seq, ts, v.config.max_lateness_ms)
        &&& v.total_reconnects < u64::MAX
    }
}

/// The connection `c` after a reconnect request with `max` attempts
/// allowed: refused once the attempts are used up, otherwise disconnected
/// with one more attempt and reconnect counted, subscribing.
pub open spec fn reconnected(c: FeedConnection, max: u32) -> FeedConnection {
    if c.reconnect_attempts < max {
        FeedConnection {
            connected: false,
            reconnect_attempts: (c.reconnect_attempts + 1) as u32,
            reconnect_count: (c.reconnect_count + 1) as u32,
            status: SubscriptionStatus::Subscribing,
        }
    } else {
        c
    }
}

/// Feed `f` with its connection replaced by `c`.
pub open spec fn with_connection<T>(f: Feed<T>, c: FeedConnection) -> Feed<T> {
    Feed { state: FeedState { connection: c, ..f.state }, ..f }
}

/// Whether [`MarketFeedManager::reconnect_feed`] is defined for the feed
/// with `key`: the reconnect counters have room.
pub open spec fn reconnect_ready<T>(v: FeedManagerView<T>, key: Seq<char>) -> bool {
    has_key(v.feeds, key) ==> {
        &&& v.total_reconnects < u64::MAX
        &&& v.feeds[key_index(v.feeds, key)].state.connection.reconnect_count < u32::MAX
    }
}

/// Feed `f` after the manager shut down: disconnected and unsubscribed.
pub open spec fn stopped<T>(f: Feed<T>) -> Feed<T> {
    with_connection(f, FeedConnection {
        connected: false,
        status: SubscriptionStatus::Unsubscribed,
        ..f.state.connection
    })
}

/// The newest `limit` messages of `buf` (all of them if it holds fewer),
/// newest first.
pub open spec fn newest_first<T>(buf: Seq<T>, limit: nat) -> Seq<T> {
    let n = if limit < buf.len() { limit } else { buf.len() };
    Seq::new(n, |k: int| buf[buf.len() - 1 - k])
}

/// References to the newest `limit` messages of `buf`, newest first.
fn newest_refs<T>(buf: &VecDeque<T>, limit: usize) -> (r: Vec<&T>)
    ensures
        r@.len() == newest_first(buf@, limit as nat).len(),
        forall|k: int| 0 <= k < r@.len() ==> *r@[k] == newest_first(buf@, limit as nat)[k],
{
    let n = buf.len();
    let count = if limit < n { limit } else { n };
    let mut r: Vec<&T> = Vec::new();
    let mut k: usize = 0;
    while k < count
        invariant
            n == buf@.len(),
            count == newest_first(buf@, limit as nat).len(),
            k <= count,
            r@.len() == k,
            forall|j: int| 0 <= j < k ==> *r@[j] == newest_first(buf@, limit as nat)[j],
        decreases count - k,
    {
        r.push(&buf[n - 1 - k]);
        k = k + 1;
    }
    r
}

/// Whether feed `f` is stale at `now_ms`: more than `timeout_ms` have
/// passed since its last message.
pub open spec fn stale_at<T>(f: Feed<T>, now_ms: i64, timeout_ms: i64) -> bool {
    now_ms - f.last_message_ms > timeout_ms
}

/// The keys of the feeds stale at `now_ms`, in the order of the feeds.
pub open spec fn stale_keys<T>(feeds: Seq<Feed<T>>, now_ms: i64, timeout_ms: i64) -> Seq<Seq<char>>
    decreases feeds.len(),
{
    if feeds.len() == 0 {
        Seq::empty()
    } else {
        let rest = stale_keys(feeds.drop_last(), now_ms, timeout_ms);
        if stale_at(feeds.last(), now_ms, timeout_ms) { rest.push(feed_key(feeds.last())) } else { rest }
    }
}

/// Whether auto-resubscription at `now_ms` reconnects feed `f`: it is
/// stale, and its key splits back into its exchange and symbol (neither
/// holds a colon).
pub open spec fn resubscribable<T>(f: Feed<T>, now_ms: i64, timeout_ms: i64) -> bool {
    &&& stale_at(f, now_ms, timeout_ms)
    &&& !f.subscription.exchange@.contains(':')
    &&& !f.subscription.symbol@.contains(':')
}

/// Feed `f` after auto-resubscription at `now_ms` with `max` reconnect
/// attempts allowed.
pub open spec fn resubscribed<T>(f: Feed<T>, now_ms: i64, timeout_ms: i64, max: u32) -> Feed<T> {
    if resubscribable(f, now_ms, timeout_ms) {
        with_connection(f, reconnected(f.state.connection, max))
    } else {
        f
    }
}

/// How many of `feeds` auto-resubscription at `now_ms` reconnects: the
/// resubscribable ones with reconnect attempts left.
pub open spec fn resubscribe_count<T>(feeds: Seq<Feed<T>>, now_ms: i64, timeout_ms: i64, max: u32) -> nat
    decreases feeds.len(),
{
    if feeds.len() == 0 {
        0
    } else {
        let f = feeds.last();
        resubscribe_count(feeds.drop_last(), now_ms, timeout_ms, max)
            + if resubscribable(f, now_ms, timeout_ms) && f.state.connection.reconnect_attempts < max { 1nat } else { 0nat }
    }
}

/// Whether auto-resubscription at `now_ms` is defined: when it is enabled,
/// the reconnect counters of the manager and of every feed it reconnects
/// have room.
pub open spec fn resubscribe_ready<T>(v: FeedManagerView<T>, now_ms: i64) -> bool {
    v.config.enable_auto_resubscribe ==> {
        &&& v.total_reconnects + v.feeds.len() <= u64::MAX
        &&& forall|j: int| 0 <= j < v.feeds.len() && resubscribable(#[trigger] v.feeds[j], now_ms, v.config.stale_timeout_ms)
            ==> v.feeds[j].state.connection.reconnect_count < u32::MAX
    }
}

/// The buffer after pushing each of `msgs` in turn onto `buf` (of `max`
/// messages) under `policy`, and how many messages were lost.
pub open spec fn fill_seq<T>(buf: Seq<T>, max: nat, msgs: Seq<T>, policy: DropPolicy) -> (Seq<T>, nat)
    decreases msgs.len(),
{
    if msgs.len() == 0 {
        (buf, 0)
    } else {
        let (b, lost) = fill_seq(buf, max, msgs.drop_last(), policy);
        let (b2, l) = push_outcome(b, max, msgs.last(), policy);
        (b2, lost + if l { 1nat } else { 0nat })
    }
}

/// The newest of `last` and `seqs`.
pub open spec fn newest_sequence(last: u64, seqs: Seq<u64>) -> u64
    decreases seqs.len(),
{
    if seqs.len() == 0 {
        last
    } else {
        let m = newest_sequence(last, seqs.drop_last());
        if seqs.last() > m { seqs.last() } else { m }
    }
}

/// The messages of gap-fill results.
pub open spec fn messages_of<T>(filled: Seq<(u64, T)>) -> Seq<T> {
    filled.map_values(|p: (u64, T)| p.1)
}

/// The sequence numbers of gap-fill results.
pub open spec fn sequences_of<T>(filled: Seq<(u64, T)>) -> Seq<u64> {
    filled.map_values(|p: (u64, T)| p.0)
}

/// `t` is feed state `s` after taking in the gap-fill results `filled`
/// (sequence number, message) in turn: each message goes into the buffer
/// under `policy`, a lost one counts as dropped, each one is counted, and
/// the last sequence number moves to the newest one seen.
pub open spec fn gap_filled<T>(s: FeedState<T>, t: FeedState<T>, filled: Seq<(u64, T)>, policy: DropPolicy) -> bool {
    let (buf, lost) = fill_seq(s.buffer@, s.max_buffer_size as nat, messages_of(filled), policy);
    &&& t.buffer@ == buf
    &&& t.sequence == FeedSequence {
        dropped_count: (s.sequence.dropped_count + lost) as u64,
        message_count: (s.sequence.message_count + filled.len()) as u64,
        last_sequence: newest_sequence(s.sequence.last_sequence, sequences_of(filled)),
        ..s.sequence
    }
    &&& t.connection == s.connection
    &&& t.book_sequence == s.book_sequence
    &&& t.max_buffer_size == s.max_buffer_size
}

/// `after` is `before` with clones of `msgs` pushed in turn under `policy`
/// into a buffer of `max` messages, losing `lost` messages.
pub open spec fn clones_filled<T: Clone>(before: Seq<T>, after: Seq<T>, max: nat, msgs: Seq<T>, policy: DropPolicy,
    lost: nat) -> bool {
    exists|cs: Seq<T>| {
        &&& cs.len() == msgs.len()
        &&& forall|k: int| 0 <= k < cs.len() ==> cloned(msgs[k], #[trigger] cs[k])
        &&& fill_seq(before, max, cs, policy) == (after, lost)
    }
}

/// Whether [`MarketFeedManager::inject_gap_fill`] is defined for `n`
/// results for the feed with `key`: no counter would overflow.
pub open spec fn gap_fill_ready<T>(v: FeedManagerView<T>, key: Seq<char>, n: nat) -> bool {
    &&& v.total_messages + n <= u64::MAX
    &&& v.dropped_messages + n <= u64::MAX
    &&& has_key(v.feeds, key) ==> {
        &&& v.feeds[key_index(v.feeds, key)].state.sequence.dropped_count + n <= u64::MAX
        &&& v.feeds[key_index(v.feeds, key)].state.sequence.message_count + n <= u64::MAX
    }
}

/// Pushing `msgs` in turn loses at most as many messages as were pushed.
pub proof fn lemma_fill_lost_bounded<T>(buf: Seq<T>, max: nat, msgs: Seq<T>, policy: DropPolicy)
    ensures
        fill_seq(buf, max, msgs, policy).1 <= msgs.len(),
    decreases msgs.len(),
{
    if msgs.len() > 0 {
        lemma_fill_lost_bounded(buf, max, msgs.drop_last(), policy);
    }
}

/// What the connection task of a feed reports.
#[derive(Debug, Clone, Copy, PartialEq, Eq)]
pub enum ConnectionEvent {
    /// The connection is up and subscribed, in this mode.
    Connected(WsMode),
    /// The connection failed.
    Failed,
    /// The connection task ended.
    Stopped,
}

/// Connection `c` after `event`, with `max` reconnect attempts allowed.
pub open spec fn connection_after(c: FeedConnection, event: ConnectionEvent, max: u32) -> FeedConnection {
    match event {
        ConnectionEvent::Connected(mode) => FeedConnection {
            connected: true,
            reconnect_attempts: 0,
            reconnect_count: if mode == WsMode::Simulated { 0 } else { c.reconnect_count },
            status: SubscriptionStatus::Subscribed,
        },
        ConnectionEvent::Failed => FeedConnection {
            connected: false,
            reconnect_attempts: (c.reconnect_attempts + 1) as u32,
            status: SubscriptionStatus::Failed,
            ..c
        },
        ConnectionEvent::Stopped => FeedConnection {
            connected: false,
            status: SubscriptionStatus::Unsubscribed,
            ..c
        },
    }
}

/// Whether [`MarketFeedManager::on_connection_event`] is defined: a failure
/// can still be counted.
pub open spec fn connection_event_ready<T>(v: FeedManagerView<T>, key: Seq<char>, event: ConnectionEvent) -> bool {
    (has_key(v.feeds, key) && event is Failed)
        ==> v.feeds[key_index(v.feeds, key)].state.connection.reconnect_attempts < u32::MAX
}

/// The feed manager.
pub struct MarketFeedManager<T> {
    config: FeedManagerConfig,
    feeds: Vec<Feed<T>>,
    global_buffer: VecDeque<T>,
    total_messages: u64,
    dropped_messages: u64,
    total_reconnects: u64,
}

impl<T> View for MarketFeedManager<T> {
    type V = FeedManagerView<T>;

    closed spec fn view(&self) -> FeedManagerView<T> {
        FeedManagerView {
            config: self.config,
            feeds: self.feeds@,
            global: self.global_buffer@,
            total_messages: self.total_messages,
            dropped_messages: self.dropped_messages,
            total_reconnects: self.total_reconnects,
        }
    }
}

/// A copy of `s`.
fn copy_subscription(s: &Subscription) -> (r: Subscription)
    ensures
        same_subscription(r, *s),
{
    let mut types: Vec<DataType> = Vec::new();
    let mut i: usize = 0;
    while i < s.data_types.len()
        invariant
            i <= s.data_types.len(),
            types@ == s.data_types@.take(i as int),
        decreases s.data_types.len() - i,
    {
        types.push(s.data_types[i]);
        i = i + 1;
        assert(types@ =~= s.data_types@.take(i as int));
    }
    assert(s.data_types@.take(i as int) =~= s.data_types@);
    Subscription {
        symbol: s.symbol.clone(),
        exchange: s.exchange.clone(),
        data_types: types,
        depth: s.depth,
        interval: s.interval,
    }
}

impl<T> MarketFeedManager<T> {
    #[verifier::type_invariant]
    spec fn well_formed(self) -> bool {
        keys_distinct(self.feeds@)
    }

    /// A manager with `config`, no feeds and an empty global buffer.
    pub fn new(config: FeedManagerConfig) -> (m: Self)
        ensures
            m@.config == config,
            m@.feeds == Seq::<Feed<T>>::empty(),
            m@.global == Seq::<T>::empty(),
            m@.total_messages == 0,
            m@.dropped_messages == 0,
            m@.total_reconnects == 0,
    {
        MarketFeedManager {
            config,
            feeds: Vec::new(),
            global_buffer: VecDeque::new(),
            total_messages: 0,
            dropped_messages: 0,
            total_reconnects: 0,
        }
    }

    /// Takes the manager out, leaving an empty one with the same settings.
    fn take(&mut self) -> (m: Self)
        ensures
            m@ == old(self)@,
            keys_distinct(m@.feeds),
    {
        proof {
            use_type_invariant(&*self);
        }
        let mut taken = MarketFeedManager::new(self.config);
        std::mem::swap(self, &mut taken);
        taken
    }

    /// The settings.
    pub fn config(&self) -> (c: FeedManagerConfig)
        ensures
            c == self@.config,
    {
        self.config
    }

    /// The feeds, in the order they were added.
    pub fn feeds(&self) -> (f: &[Feed<T>])
        ensures
            f@ == self@.feeds,
    {
        self.feeds.as_slice()
    }

    /// Where the feed of `symbol` on `exchange` stands, if there is one.
    fn find(&self, exchange: &str, symbol: &str) -> (r: Option<usize>)
        ensures
            match r {
                Some(i) => {
                    &&& has_key(self@.feeds, pair_key(exchange@, symbol@))
                    &&& i == key_index(self@.feeds, pair_key(exchange@, symbol@))
                    &&& i < self@.feeds.len()
                },
                None => !has_key(self@.feeds, pair_key(exchange@, symbol@)),
            },
    {
        proof {
            use_type_invariant(self);
        }
        let ghost key = pair_key(exchange@, symbol@);
        let mut i: usize = 0;
        while i < self.feeds.len()
            invariant
                i <= self.feeds.len(),
                key == pair_key(exchange@, symbol@),
                keys_distinct(self.feeds@),
                forall|j: int| 0 <= j < i ==> feed_key(#[trigger] self.feeds@[j]) != key,
            decreases self.feeds.len() - i,
        {
            let sub = &self.feeds[i].subscription;
            if same_pair_key(sub.exchange.as_str(), sub.symbol.as_str(), exchange, symbol) {
                proof {
                    assert(feed_key(self.feeds@[i as int]) == key);
                    assert(has_key(self.feeds@, key));
                    let k = key_index(self.feeds@, key);
                    assert(feed_key(self.feeds@[k]) == key);
                }
                return Some(i);
            }
            i = i + 1;
        }
        None
    }

    /// The feed of `symbol` on `exchange`, if there is one.
    pub fn get_feed(&self, exchange: &str, symbol: &str) -> (r: Option<&Feed<T>>)
        ensures
            match r {
                Some(f) => {
                    let key = pair_key(exchange@, symbol@);
                    has_key(self@.feeds, key) && *f == self@.feeds[key_index(self@.feeds, key)]
                },
                None => !has_key(self@.feeds, pair_key(exchange@, symbol@)),
            },
    {
        match self.find(exchange, symbol) {
            Some(i) => Some(&self.feeds[i]),
            None => None,
        }
    }

    /// The counters over all feeds; `total_feeds` is the number of feeds.
    pub fn get_stats(&self) -> (s: FeedManagerStats)
        ensures
            s == (FeedManagerStats {
                total_feeds: self@.feeds.len() as usize,
                total_messages: self@.total_messages,
                dropped_messages: self@.dropped_messages,
                total_reconnects: self@.total_reconnects,
            }),
    {
        FeedManagerStats {
            total_feeds: self.feeds.len(),
            total_messages: self.total_messages,
            dropped_messages: self.dropped_messages,
            total_reconnects: self.total_reconnects,
        }
    }

    /// Adds a feed for `subscription`, connecting to `url`: refused with
    /// `FeedExists` (and nothing changes) when a feed with the same key is
    /// there; otherwise the new feed comes last, with nothing seen, not
    /// connected, the subscription pending, and its last message time set
    /// to now.
    pub fn add_feed(&mut self, subscription: Subscription, url: String) -> (r: Result<(), FeedManagerError>)
        ensures
            r is Err <==> has_key(old(self)@.feeds, pair_key(subscription.exchange@, subscription.symbol@)),
            r is Err ==> r == Err::<(), FeedManagerError>(FeedManagerError::FeedExists) && final(self)@ == old(self)@,
            r is Ok ==> {
                &&& final(self)@.feeds.len() == old(self)@.feeds.len() + 1
                &&& final(self)@.feeds.drop_last() == old(self)@.feeds
                &&& fresh_feed(final(self)@.feeds.last(), subscription, url, old(self)@.config.max_buffer_size)
                &&& final(self)@.config == old(self)@.config
                &&& final(self)@.global == old(self)@.global
                &&& final(self)@.total_messages == old(self)@.total_messages
                &&& final(self)@.dropped_messages == old(self)@.dropped_messages
                &&& final(self)@.total_reconnects == old(self)@.total_reconnects
            },
    {
        proof {
            use_type_invariant(&*self);
        }
        if self.find(subscription.exchange.as_str(), subscription.symbol.as_str()).is_some() {
            return Err(FeedManagerError::FeedExists);
        }
        let pending = copy_subscription(&subscription);
        let feed = Feed {
            subscription,
            url,
            pending_subscriptions: vec![pending],
            last_message_ms: utc_now_millis(),
            state: FeedState::new(self.config.max_buffer_size),
        };
        let MarketFeedManager { config, mut feeds, global_buffer, total_messages, dropped_messages, total_reconnects } =
            self.take();
        let ghost before = feeds@;
        proof {
            assert forall|j: int| 0 <= j < before.len() implies feed_key(before[j]) != feed_key(feed) by {
                if feed_key(before[j]) == feed_key(feed) {
                    assert(has_key(before, feed_key(feed)));
                }
            }
        }
        feeds.push(feed);
        proof {
            assert(feeds@.drop_last() =~= before);
        }
        *self = MarketFeedManager { config, feeds, global_buffer, total_messages, dropped_messages, total_reconnects };
        Ok(())
    }

    /// Whether [`MarketFeedManager::handle_message`] can take message `seq`
    /// stamped `ts` for the feed of `symbol` on `exchange`.
    pub fn can_handle(&self, exchange: &str, symbol: &str, seq: u64, ts: u64) -> (b: bool)
        ensures
            b == handle_ready(self@, pair_key(exchange@, symbol@), seq, ts),
    {
        if self.dropped_messages == u64::MAX {
            return false;
        }
        match self.find(exchange, symbol) {
            None => true,
            Some(i) => self.total_reconnects < u64::MAX
                && self.feeds[i].state.can_handle(seq, ts, self.config.max_lateness_ms),
        }
    }

    /// Handles message `msg` with sequence number `seq` stamped `ts` for the
    /// feed of `symbol` on `exchange`, `book` carrying the sequence number
    /// and snapshot flag of an order-book payload.
    ///
    /// For a known feed the feed's sequence checks decide: a duplicate is
    /// reported delivered and goes no further; a late message is rejected;
    /// an applied one goes into the feed's buffer, marks the feed as heard
    /// from now, advances its order-book sequence, counts a reconnect when a
    /// large gap started one, and yields the gap-fill range when gap fill is
    /// enabled. Applied messages, and every message of an unknown feed, go
    /// (as a clone) into the global buffer, where a lost message counts as
    /// dropped.
    pub fn handle_message(&mut self, exchange: &str, symbol: &str, seq: u64, ts: u64, book: Option<(u64, bool)>,
        msg: T) -> (d: MessageDispatch)
        where T: Clone
        requires
            handle_ready(old(self)@, pair_key(exchange@, symbol@), seq, ts),
        ensures
            final(self)@.config == old(self)@.config,
            final(self)@.total_messages == old(self)@.total_messages,
            final(self)@.feeds.len() == old(self)@.feeds.len(),
            ({
                let key = pair_key(exchange@, symbol@);
                let cfg = old(self)@.config;
                let max = cfg.max_buffer_size as nat;
                if has_key(old(self)@.feeds, key) {
                    let i = key_index(old(self)@.feeds, key);
                    let f = old(self)@.feeds[i];
                    let nf = final(self)@.feeds[i];
                    let o = message_outcome(f.state, seq, ts, msg, cfg.max_lateness_ms, cfg.drop_policy,
                        cfg.sequence_gap_threshold, cfg.max_reconnect_attempts);
                    &&& forall|j: int| 0 <= j < old(self)@.feeds.len() && j != i
                        ==> final(self)@.feeds[j] == old(self)@.feeds[j]
                    &&& nf.subscription == f.subscription
                    &&& nf.url == f.url
                    &&& nf.pending_subscriptions == f.pending_subscriptions
                    &&& message_handled(f.state, FeedState { book_sequence: f.state.book_sequence, ..nf.state },
                        seq, ts, msg, cfg.max_lateness_ms, cfg.drop_policy, cfg.sequence_gap_threshold,
                        cfg.max_reconnect_attempts)
                    &&& d.delivered == !(o.verdict is Late)
                    &&& d.reconnect == o.reconnect
                    &&& d.gap_fill == (if cfg.enable_gap_fill { o.gap_fill } else { None })
                    &&& final(self)@.total_reconnects == old(self)@.total_reconnects + (if o.reconnect { 1int } else { 0int })
                    &&& if o.verdict is Accepted {
                        &&& nf.state.book_sequence.last_ob_sequence == match book {
                            Some((b, snapshot)) => orderbook_step(f.state.book_sequence.last_ob_sequence, b, snapshot).0,
                            None => f.state.book_sequence.last_ob_sequence,
                        }
                        &&& clone_pushed(old(self)@.global, final(self)@.global, max, msg, cfg.drop_policy)
                        &&& final(self)@.dropped_messages == old(self)@.dropped_messages
                            + (if push_loses(old(self)@.global, max) { 1int } else { 0int })
                    } else {
                        &&& nf.state.book_sequence == f.state.book_sequence
                        &&& nf.last_message_ms == f.last_message_ms
                        &&& final(self)@.global == old(self)@.global
                        &&& final(self)@.dropped_messages == old(self)@.dropped_messages
                    }
                } else {
                    &&& final(self)@.feeds == old(self)@.feeds
                    &&& d == (MessageDispatch { delivered: true, gap_fill: None, reconnect: false })
                    &&& final(self)@.total_reconnects == old(self)@.total_reconnects
                    &&& clone_pushed(old(self)@.global, final(self)@.global, max, msg, cfg.drop_policy)
                    &&& final(self)@.dropped_messages == old(self)@.dropped_messages
                        + (if push_loses(old(self)@.global, max) { 1int } else { 0int })
                }
            }),
    {
        let copy = msg.clone();
        proof {
            assert(cloned(msg, copy));
        }
        let found = self.find(exchange, symbol);
        let MarketFeedManager {
            config,
            mut feeds,
            mut global_buffer,
            total_messages,
            mut dropped_messages,
            mut total_reconnects,
        } = self.take();
        let ghost old_feeds = feeds@;
        let mut dispatch = MessageDispatch { delivered: true, gap_fill: None, reconnect: false };
        let mut to_global = true;
        if let Some(i) = found {
            let mut feed = feeds.remove(i);
            let ghost f = feed;
            let o = feed.state.handle_message(seq, ts, msg, config.max_lateness_ms, config.drop_policy,
                config.sequence_gap_threshold, config.max_reconnect_attempts);
            match o.verdict {
                MessageVerdict::Duplicate => {
                    to_global = false;
                },
                MessageVerdict::Late => {
                    to_global = false;
                    dispatch.delivered = false;
                },
                MessageVerdict::Accepted { .. } => {
                    feed.last_message_ms = utc_now_millis();
                    if let Some((b, snapshot)) = book {
                        feed.state.book_sequence.apply(b, snapshot);
                    }
                    if o.reconnect {
                        total_reconnects = total_reconnects + 1;
                    }
                    dispatch.reconnect = o.reconnect;
                    if config.enable_gap_fill {
                        dispatch.gap_fill = o.gap_fill;
                    }
                },
            }
            assert(feed_key(feed) == feed_key(f));
            feeds.insert(i, feed);
            proof {
                assert(feeds@ =~= old_feeds.update(i as int, feed));
                assert forall|a: int, b: int| 0 <= a < b < feeds@.len() implies
                    feed_key(feeds@[a]) != feed_key(feeds@[b]) by {
                    assert(feed_key(feeds@[a]) == feed_key(old_feeds[a]));
                    assert(feed_key(feeds@[b]) == feed_key(old_feeds[b]));
                }
            }
        }
        if to_global {
            let ghost before = global_buffer@;
            let lost = push_with_policy(&mut global_buffer, config.max_buffer_size, copy, config.drop_policy, "global");
            proof {
                assert(cloned(msg, copy) && global_buffer@ == push_outcome(before, config.max_buffer_size as nat, copy,
                    config.drop_policy).0);
                assert(clone_pushed(before, global_buffer@, config.max_buffer_size as nat, msg, config.drop_policy));
            }
            if lost {
                dropped_messages = dropped_messages + 1;
            }
        }
        *self = MarketFeedManager { config, feeds, global_buffer, total_messages, dropped_messages, total_reconnects };
        dispatch
    }

    /// Checks an order-book payload with sequence number `seq` (a snapshot
    /// when `is_snapshot`) against the order-book sequence of the feed of
    /// `symbol` on `exchange`: returns `(applied, gap_detected)` (see
    /// [`orderbook_step`]); `(false, false)` and no change when there is no
    /// such feed.
    pub fn handle_orderbook_payload(&mut self, exchange: &str, symbol: &str, seq: u64, is_snapshot: bool) -> (r: (bool, bool))
        ensures
            final(self)@.config == old(self)@.config,
            final(self)@.global == old(self)@.global,
            final(self)@.total_messages == old(self)@.total_messages,
            final(self)@.dropped_messages == old(self)@.dropped_messages,
            final(self)@.total_reconnects == old(self)@.total_reconnects,
            ({
                let key = pair_key(exchange@, symbol@);
                if has_key(old(self)@.feeds, key) {
                    let i = key_index(old(self)@.feeds, key);
                    let f = old(self)@.feeds[i];
                    let step = orderbook_step(f.state.book_sequence.last_ob_sequence, seq, is_snapshot);
                    &&& r == (step.1, step.2)
                    &&& final(self)@.feeds.len() == old(self)@.feeds.len()
                    &&& forall|j: int| 0 <= j < old(self)@.feeds.len() && j != i
                        ==> final(self)@.feeds[j] == old(self)@.feeds[j]
                    &&& final(self)@.feeds[i].subscription == f.subscription
                    &&& final(self)@.feeds[i].url == f.url
                    &&& final(self)@.feeds[i].pending_subscriptions == f.pending_subscriptions
                    &&& final(self)@.feeds[i].last_message_ms == f.last_message_ms
                    &&& final(self)@.feeds[i].state.sequence == f.state.sequence
                    &&& final(self)@.feeds[i].state.connection == f.state.connection
                    &&& final(self)@.feeds[i].state.buffer == f.state.buffer
                    &&& final(self)@.feeds[i].state.max_buffer_size == f.state.max_buffer_size
                    &&& final(self)@.feeds[i].state.book_sequence.last_ob_sequence == step.0
                } else {
                    &&& r == (false, false)
                    &&& final(self)@.feeds == old(self)@.feeds
                }
            }),
    {
        let found = self.find(exchange, symbol);
        match found {
            None => (false, false),
            Some(i) => {
                let MarketFeedManager { config, mut feeds, global_buffer, total_messages, dropped_messages, total_reconnects } =
                    self.take();
                let ghost old_feeds = feeds@;
                let mut feed = feeds.remove(i);
                let r = feed.state.book_sequence.apply(seq, is_snapshot);
                assert(feed_key(feed) == feed_key(old_feeds[i as int]));
                feeds.insert(i, feed);
                proof {
                    assert(feeds@ =~= old_feeds.update(i as int, feed));
                    lemma_replace_keeps_keys(old_feeds, i as int, feed);
                }
                *self = MarketFeedManager { config, feeds, global_buffer, total_messages, dropped_messages, total_reconnects };
                r
            },
        }
    }

    /// Starts the feed of `symbol` on `exchange`: `FeedNotFound` (and no
    /// change) when there is no such feed; otherwise `Ok(true)` when a
    /// connection task must be spawned (the feed, not connected, is marked
    /// subscribing) and `Ok(false)` when it is already connected.
    pub fn start_feed(&mut self, exchange: &str, symbol: &str) -> (r: Result<bool, FeedManagerError>)
        ensures
            r is Err <==> !has_key(old(self)@.feeds, pair_key(exchange@, symbol@)),
            r is Err ==> r == Err::<bool, FeedManagerError>(FeedManagerError::FeedNotFound) && final(self)@ == old(self)@,
            final(self)@.config == old(self)@.config,
            final(self)@.global == old(self)@.global,
            final(self)@.total_messages == old(self)@.total_messages,
            final(self)@.dropped_messages == old(self)@.dropped_messages,
            final(self)@.total_reconnects == old(self)@.total_reconnects,
            r matches Ok(spawn) ==> {
                let i = key_index(old(self)@.feeds, pair_key(exchange@, symbol@));
                let c = old(self)@.feeds[i].state.connection;
                &&& spawn == !c.connected
                &&& final(self)@.feeds == old(self)@.feeds.update(i, with_connection(old(self)@.feeds[i],
                    if c.connected { c } else { FeedConnection { status: SubscriptionStatus::Subscribing, ..c } }))
            },
    {
        let found = self.find(exchange, symbol);
        match found {
            None => Err(FeedManagerError::FeedNotFound),
            Some(i) => {
                let MarketFeedManager { config, mut feeds, global_buffer, total_messages, dropped_messages, total_reconnects } =
                    self.take();
                let ghost old_feeds = feeds@;
                let mut feed = feeds.remove(i);
                let spawn = feed.state.connection.start();
                assert(feed_key(feed) == feed_key(old_feeds[i as int]));
                feeds.insert(i, feed);
                proof {
                    assert(feeds@ =~= old_feeds.update(i as int, feed));
                    lemma_replace_keeps_keys(old_feeds, i as int, feed);
                }
                *self = MarketFeedManager { config, feeds, global_buffer, total_messages, dropped_messages, total_reconnects };
                Ok(spawn)
            },
        }
    }

    /// Whether the connection task of the feed of `symbol` on `exchange`
    /// should try (again): the feed exists and is connected or has
    /// reconnect attempts left.
    pub fn connection_should_continue(&self, exchange: &str, symbol: &str) -> (r: bool)
        ensures
            r == ({
                let key = pair_key(exchange@, symbol@);
                has_key(self@.feeds, key) && {
                    let c = self@.feeds[key_index(self@.feeds, key)].state.connection;
                    c.connected || c.reconnect_attempts < self@.config.max_reconnect_attempts
                }
            }),
    {
        match self.find(exchange, symbol) {
            Some(i) => self.feeds[i].state.connection.should_continue(self.config.max_reconnect_attempts),
            None => false,
        }
    }

    /// Applies `event` to the connection of the feed of `symbol` on
    /// `exchange`: connected (in `mode`), failed, or stopped (see
    /// [`connection_after`]). Returns `None` when there is no such feed
    /// (nothing changes), else whether the connection task must give up.
    pub fn on_connection_event(&mut self, exchange: &str, symbol: &str, event: ConnectionEvent) -> (r: Option<bool>)
        requires
            connection_event_ready(old(self)@, pair_key(exchange@, symbol@), event),
        ensures
            final(self)@.config == old(self)@.config,
            final(self)@.global == old(self)@.global,
            final(self)@.total_messages == old(self)@.total_messages,
            final(self)@.dropped_messages == old(self)@.dropped_messages,
            final(self)@.total_reconnects == old(self)@.total_reconnects,
            ({
                let key = pair_key(exchange@, symbol@);
                if has_key(old(self)@.feeds, key) {
                    let i = key_index(old(self)@.feeds, key);
                    let c = connection_after(old(self)@.feeds[i].state.connection, event,
                        old(self)@.config.max_reconnect_attempts);
                    &&& final(self)@.feeds == old(self)@.feeds.update(i, with_connection(old(self)@.feeds[i], c))
                    &&& r == Some(event is Failed && c.reconnect_attempts >= old(self)@.config.max_reconnect_attempts)
                } else {
                    &&& r is None
                    &&& final(self)@.feeds == old(self)@.feeds
                }
            }),
    {
        let found = self.find(exchange, symbol);
        match found {
            None => None,
            Some(i) => {
                let MarketFeedManager { config, mut feeds, global_buffer, total_messages, dropped_messages, total_reconnects } =
                    self.take();
                let ghost old_feeds = feeds@;
                let mut feed = feeds.remove(i);
                let give_up = match event {
                    ConnectionEvent::Connected(mode) => {
                        feed.state.connection.on_connected(mode);
                        false
                    },
                    ConnectionEvent::Failed => feed.state.connection.on_error(config.max_reconnect_attempts),
                    ConnectionEvent::Stopped => {
                        feed.state.connection.on_stopped();
                        false
                    },
                };
                assert(feed_key(feed) == feed_key(old_feeds[i as int]));
                feeds.insert(i, feed);
                proof {
                    assert(feeds@ =~= old_feeds.update(i as int, feed));
                    lemma_replace_keeps_keys(old_feeds, i as int, feed);
                }
                *self = MarketFeedManager { config, feeds, global_buffer, total_messages, dropped_messages, total_reconnects };
                Some(give_up)
            },
        }
    }

    /// The next sequence number of a simulated connection of the feed of
    /// `symbol` on `exchange`: one past its last, which it becomes; 0 (and
    /// no change) when there is no such feed.
    pub fn next_simulated_sequence(&mut self, exchange: &str, symbol: &str) -> (seq: u64)
        requires
            ({
                let key = pair_key(exchange@, symbol@);
                has_key(old(self)@.feeds, key)
                    ==> old(self)@.feeds[key_index(old(self)@.feeds, key)].state.sequence.last_sequence < u64::MAX
            }),
        ensures
            final(self)@.config == old(self)@.config,
            final(self)@.global == old(self)@.global,
            final(self)@.total_messages == old(self)@.total_messages,
            final(self)@.dropped_messages == old(self)@.dropped_messages,
            final(self)@.total_reconnects == old(self)@.total_reconnects,
            ({
                let key = pair_key(exchange@, symbol@);
                if has_key(old(self)@.feeds, key) {
                    let i = key_index(old(self)@.feeds, key);
                    let f = old(self)@.feeds[i];
                    &&& seq == f.state.sequence.last_sequence + 1
                    &&& final(self)@.feeds == old(self)@.feeds.update(i, Feed {
                        state: FeedState { sequence: FeedSequence { last_sequence: seq, ..f.state.sequence }, ..f.state },
                        ..f
                    })
                } else {
                    &&& seq == 0
                    &&& final(self)@.feeds == old(self)@.feeds
                }
            }),
    {
        let found = self.find(exchange, symbol);
        match found {
            None => 0,
            Some(i) => {
                let MarketFeedManager { config, mut feeds, global_buffer, total_messages, dropped_messages, total_reconnects } =
                    self.take();
                let ghost old_feeds = feeds@;
                let mut feed = feeds.remove(i);
                let seq = feed.state.sequence.last_sequence + 1;
                feed.state.sequence.last_sequence = seq;
                assert(feed_key(feed) == feed_key(old_feeds[i as int]));
                feeds.insert(i, feed);
                proof {
                    assert(feeds@ =~= old_feeds.update(i as int, feed));
                    lemma_replace_keeps_keys(old_feeds, i as int, feed);
                }
                *self = MarketFeedManager { config, feeds, global_buffer, total_messages, dropped_messages, total_reconnects };
                seq
            },
        }
    }

    /// Takes in message `msg` with sequence number `seq` produced by a
    /// connection in `mode` of the feed of `symbol` on `exchange`: the feed
    /// (when there is one) moves its last sequence number to `seq` (for a
    /// live connection: to the larger of `seq` and one past its last),
    /// counts the message, is heard from now, and buffers it under the drop
    /// policy (a loss counts as dropped); a clone goes into the global buffer
    /// (a loss counts as dropped); the manager counts the message.
    pub fn on_connection_message(&mut self, exchange: &str, symbol: &str, seq: u64, msg: T, mode: WsMode)
        where T: Clone
        requires
            old(self)@.total_messages < u64::MAX,
            old(self)@.dropped_messages < u64::MAX,
            ({
                let key = pair_key(exchange@, symbol@);
                has_key(old(self)@.feeds, key) ==> {
                    let s = old(self)@.feeds[key_index(old(self)@.feeds, key)].state.sequence;
                    &&& s.message_count < u64::MAX
                    &&& s.dropped_count < u64::MAX
                    &&& (mode == WsMode::Live ==> s.last_sequence < u64::MAX)
                }
            }),
        ensures
            final(self)@.config == old(self)@.config,
            final(self)@.total_reconnects == old(self)@.total_reconnects,
            final(self)@.total_messages == old(self)@.total_messages + 1,
            clone_pushed(old(self)@.global, final(self)@.global, old(self)@.config.max_buffer_size as nat, msg,
                old(self)@.config.drop_policy),
            final(self)@.dropped_messages == old(self)@.dropped_messages
                + (if push_loses(old(self)@.global, old(self)@.config.max_buffer_size as nat) { 1int } else { 0int }),
            final(self)@.feeds.len() == old(self)@.feeds.len(),
            ({
                let key = pair_key(exchange@, symbol@);
                if has_key(old(self)@.feeds, key) {
                    let i = key_index(old(self)@.feeds, key);
                    let f = old(self)@.feeds[i];
                    let nf = final(self)@.feeds[i];
                    let (buf, lost) = push_outcome(f.state.buffer@, f.state.max_buffer_size as nat, msg,
                        old(self)@.config.drop_policy);
                    &&& forall|j: int| 0 <= j < old(self)@.feeds.len() && j != i
                        ==> final(self)@.feeds[j] == old(self)@.feeds[j]
                    &&& nf.subscription == f.subscription
                    &&& nf.url == f.url
                    &&& nf.pending_subscriptions == f.pending_subscriptions
                    &&& nf.state.buffer@ == buf
                    &&& nf.state.sequence == FeedSequence {
                        last_sequence: if mode == WsMode::Live && seq <= f.state.sequence.last_sequence {
                            (f.state.sequence.last_sequence + 1) as u64
                        } else {
                            seq
                        },
                        message_count: (f.state.sequence.message_count + 1) as u64,
                        dropped_count: (f.state.sequence.dropped_count + if lost { 1u64 } else { 0u64 }) as u64,
                        ..f.state.sequence
                    }
                    &&& nf.state.connection == f.state.connection
                    &&& nf.state.book_sequence == f.state.book_sequence
                    &&& nf.state.max_buffer_size == f.state.max_buffer_size
                } else {
                    final(self)@.feeds == old(self)@.feeds
                }
            }),
    {
        let copy = msg.clone();
        proof {
            assert(cloned(msg, copy));
        }
        let found = self.find(exchange, symbol);
        let MarketFeedManager {
            config,
            mut feeds,
            mut global_buffer,
            mut total_messages,
            mut dropped_messages,
            total_reconnects,
        } = self.take();
        let ghost old_feeds = feeds@;
        if let Some(i) = found {
            let mut feed = feeds.remove(i);
            let last = feed.state.sequence.last_sequence;
            feed.state.sequence.last_sequence = match mode {
                WsMode::Live => if seq > last { seq } else { last + 1 },
                WsMode::Simulated => seq,
            };
            feed.state.sequence.message_count = feed.state.sequence.message_count + 1;
            feed.last_message_ms = utc_now_millis();
            let max = feed.state.max_buffer_size;
            if push_with_policy(&mut feed.state.buffer, max, msg, config.drop_policy, "feed") {
                feed.state.sequence.dropped_count = feed.state.sequence.dropped_count + 1;
            }
            assert(feed_key(feed) == feed_key(old_feeds[i as int]));
            feeds.insert(i, feed);
            proof {
                assert(feeds@ =~= old_feeds.update(i as int, feed));
                lemma_replace_keeps_keys(old_feeds, i as int, feed);
            }
        }
        let ghost before = global_buffer@;
        let lost = push_with_policy(&mut global_buffer, config.max_buffer_size, copy, config.drop_policy, "global");
        proof {
            assert(cloned(msg, copy) && global_buffer@ == push_outcome(before, config.max_buffer_size as nat, copy,
                config.drop_policy).0);
        }
        if lost {
            dropped_messages = dropped_messages + 1;
        }
        total_messages = total_messages + 1;
        *self = MarketFeedManager { config, feeds, global_buffer, total_messages, dropped_messages, total_reconnects };
    }

    /// Requests a reconnect of the feed of `symbol` on `exchange`: false
    /// (nothing changes) when there is no such feed or its reconnect
    /// attempts are used up; otherwise the feed is disconnected, marked
    /// subscribing, one more attempt and reconnect are counted, and the
    /// manager counts the reconnect (a connection task must be started).
    pub fn reconnect_feed(&mut self, exchange: &str, symbol: &str) -> (r: bool)
        requires
            reconnect_ready(old(self)@, pair_key(exchange@, symbol@)),
        ensures
            final(self)@.config == old(self)@.config,
            final(self)@.global == old(self)@.global,
            final(self)@.total_messages == old(self)@.total_messages,
            final(self)@.dropped_messages == old(self)@.dropped_messages,
            ({
                let key = pair_key(exchange@, symbol@);
                if has_key(old(self)@.feeds, key) {
                    let i = key_index(old(self)@.feeds, key);
                    let c = old(self)@.feeds[i].state.connection;
                    &&& r == (c.reconnect_attempts < old(self)@.config.max_reconnect_attempts)
                    &&& final(self)@.feeds == old(self)@.feeds.update(i,
                        with_connection(old(self)@.feeds[i], reconnected(c, old(self)@.config.max_reconnect_attempts)))
                    &&& final(self)@.total_reconnects == old(self)@.total_reconnects + (if r { 1int } else { 0int })
                } else {
                    &&& !r
                    &&& final(self)@.feeds == old(self)@.feeds
                    &&& final(self)@.total_reconnects == old(self)@.total_reconnects
                }
            }),
    {
        let found = self.find(exchange, symbol);
        match found {
            None => false,
            Some(i) => {
                let MarketFeedManager {
                    config,
                    mut feeds,
                    global_buffer,
                    total_messages,
                    dropped_messages,
                    mut total_reconnects,
                } = self.take();
                let ghost old_feeds = feeds@;
                let mut feed = feeds.remove(i);
                let accepted = feed.state.connection.reconnect(config.max_reconnect_attempts);
                if accepted {
                    total_reconnects = total_reconnects + 1;
                }
                assert(feed_key(feed) == feed_key(old_feeds[i as int]));
                feeds.insert(i, feed);
                proof {
                    assert(feeds@ =~= old_feeds.update(i as int, feed));
                    lemma_replace_keeps_keys(old_feeds, i as int, feed);
                }
                *self = MarketFeedManager { config, feeds, global_buffer, total_messages, dropped_messages, total_reconnects };
                accepted
            },
        }
    }

    /// Adds a subscription to more data types for the feed of `symbol` on
    /// `exchange` (depth 100, no interval) to the subscriptions to send;
    /// `FeedNotFound` (and nothing changes) when there is no such feed.
    pub fn subscribe(&mut self, exchange: &str, symbol: &str, data_types: Vec<DataType>) -> (r: Result<(), FeedManagerError>)
        ensures
            r is Err <==> !has_key(old(self)@.feeds, pair_key(exchange@, symbol@)),
            r is Err ==> r == Err::<(), FeedManagerError>(FeedManagerError::FeedNotFound) && final(self)@ == old(self)@,
            r is Ok ==> {
                let i = key_index(old(self)@.feeds, pair_key(exchange@, symbol@));
                let f = old(self)@.feeds[i];
                let nf = final(self)@.feeds[i];
                &&& final(self)@.feeds.len() == old(self)@.feeds.len()
                &&& forall|j: int| 0 <= j < old(self)@.feeds.len() && j != i ==> final(self)@.feeds[j] == old(self)@.feeds[j]
                &&& nf.subscription == f.subscription
                &&& nf.url == f.url
                &&& nf.last_message_ms == f.last_message_ms
                &&& nf.state == f.state
                &&& nf.pending_subscriptions@.drop_last() == f.pending_subscriptions@
                &&& nf.pending_subscriptions@.len() == f.pending_subscriptions@.len() + 1
                &&& nf.pending_subscriptions@.last().symbol@ == symbol@
                &&& nf.pending_subscriptions@.last().exchange@ == exchange@
                &&& nf.pending_subscriptions@.last().data_types@ == data_types@
                &&& nf.pending_subscriptions@.last().depth == Some(100usize)
                &&& nf.pending_subscriptions@.last().interval is None
                &&& final(self)@.config == old(self)@.config
                &&& final(self)@.global == old(self)@.global
                &&& final(self)@.total_messages == old(self)@.total_messages
                &&& final(self)@.dropped_messages == old(self)@.dropped_messages
                &&& final(self)@.total_reconnects == old(self)@.total_reconnects
            },
    {
        let found = self.find(exchange, symbol);
        match found {
            None => Err(FeedManagerError::FeedNotFound),
            Some(i) => {
                let MarketFeedManager { config, mut feeds, global_buffer, total_messages, dropped_messages, total_reconnects } =
                    self.take();
                let ghost old_feeds = feeds@;
                let mut feed = feeds.remove(i);
                let ghost before = feed.pending_subscriptions@;
                feed.pending_subscriptions.push(additional_subscription(exchange, symbol, data_types));
                proof {
                    assert(feed.pending_subscriptions@.drop_last() =~= before);
                }
                assert(feed_key(feed) == feed_key(old_feeds[i as int]));
                feeds.insert(i, feed);
                proof {
                    assert(feeds@ =~= old_feeds.update(i as int, feed));
                    lemma_replace_keeps_keys(old_feeds, i as int, feed);
                }
                *self = MarketFeedManager { config, feeds, global_buffer, total_messages, dropped_messages, total_reconnects };
                Ok(())
            },
        }
    }

    /// Drops from the feed of `symbol` on `exchange` every subscription to
    /// send that covers any of `data_types`; `FeedNotFound` (and nothing
    /// changes) when there is no such feed.
    pub fn unsubscribe(&mut self, exchange: &str, symbol: &str, data_types: &Vec<DataType>) -> (r: Result<(), FeedManagerError>)
        ensures
            r is Err <==> !has_key(old(self)@.feeds, pair_key(exchange@, symbol@)),
            r is Err ==> r == Err::<(), FeedManagerError>(FeedManagerError::FeedNotFound) && final(self)@ == old(self)@,
            r is Ok ==> {
                let i = key_index(old(self)@.feeds, pair_key(exchange@, symbol@));
                let f = old(self)@.feeds[i];
                let nf = final(self)@.feeds[i];
                &&& final(self)@.feeds.len() == old(self)@.feeds.len()
                &&& forall|j: int| 0 <= j < old(self)@.feeds.len() && j != i ==> final(self)@.feeds[j] == old(self)@.feeds[j]
                &&& nf.subscription == f.subscription
                &&& nf.url == f.url
                &&& nf.last_message_ms == f.last_message_ms
                &&& nf.state == f.state
                &&& nf.pending_subscriptions@ == f.pending_subscriptions@.filter(kept_by_unsubscribe(data_types@))
                &&& final(self)@.config == old(self)@.config
                &&& final(self)@.global == old(self)@.global
                &&& final(self)@.total_messages == old(self)@.total_messages
                &&& final(self)@.dropped_messages == old(self)@.dropped_messages
                &&& final(self)@.total_reconnects == old(self)@.total_reconnects
            },
    {
        let found = self.find(exchange, symbol);
        match found {
            None => Err(FeedManagerError::FeedNotFound),
            Some(i) => {
                let MarketFeedManager { config, mut feeds, global_buffer, total_messages, dropped_messages, total_reconnects } =
                    self.take();
                let ghost old_feeds = feeds@;
                let mut feed = feeds.remove(i);
                unsubscribe_types(&mut feed.pending_subscriptions, data_types);
                assert(feed_key(feed) == feed_key(old_feeds[i as int]));
                feeds.insert(i, feed);
                proof {
                    assert(feeds@ =~= old_feeds.update(i as int, feed));
                    lemma_replace_keeps_keys(old_feeds, i as int, feed);
                }
                *self = MarketFeedManager { config, feeds, global_buffer, total_messages, dropped_messages, total_reconnects };
                Ok(())
            },
        }
    }

    /// Shuts the manager down: every feed is disconnected and unsubscribed.
    pub fn shutdown(&mut self)
        ensures
            final(self)@.feeds.len() == old(self)@.feeds.len(),
            forall|j: int| 0 <= j < old(self)@.feeds.len() ==> final(self)@.feeds[j] == stopped(old(self)@.feeds[j]),
            final(self)@.config == old(self)@.config,
            final(self)@.global == old(self)@.global,
            final(self)@.total_messages == old(self)@.total_messages,
            final(self)@.dropped_messages == old(self)@.dropped_messages,
            final(self)@.total_reconnects == old(self)@.total_reconnects,
    {
        let MarketFeedManager { config, mut feeds, global_buffer, total_messages, dropped_messages, total_reconnects } =
            self.take();
        let ghost orig = feeds@;
        let mut out: Vec<Feed<T>> = Vec::new();
        let mut k: usize = 0;
        assert(orig.skip(0) =~= orig);
        assert(orig.len() == feeds.len());
        while feeds.len() > 0
            invariant
                k <= orig.len(),
                orig.len() <= usize::MAX,
                feeds.len() + k == orig.len(),
                feeds@ == orig.skip(k as int),
                out@.len() == k,
                forall|j: int| 0 <= j < k ==> out@[j] == stopped(#[trigger] orig[j]),
            decreases feeds.len(),
        {
            let mut f = feeds.remove(0);
            assert(f == orig[k as int]);
            f.state.connection.on_stopped();
            out.push(f);
            k = k + 1;
            proof {
                assert(feeds@ =~= orig.skip(k as int));
            }
        }
        proof {
            assert forall|a: int, b: int| 0 <= a < b < out@.len() implies feed_key(out@[a]) != feed_key(out@[b]) by {
                assert(feed_key(out@[a]) == feed_key(orig[a]));
                assert(feed_key(out@[b]) == feed_key(orig[b]));
            }
        }
        *self = MarketFeedManager { config, feeds: out, global_buffer, total_messages, dropped_messages, total_reconnects };
    }

    /// The newest `limit` messages buffered for the feed of `symbol` on
    /// `exchange`, newest first; none when there is no such feed.
    pub fn get_buffered_messages(&self, exchange: &str, symbol: &str, limit: usize) -> (r: Vec<&T>)
        ensures
            ({
                let key = pair_key(exchange@, symbol@);
                let want = if has_key(self@.feeds, key) {
                    newest_first(self@.feeds[key_index(self@.feeds, key)].state.buffer@, limit as nat)
                } else {
                    Seq::<T>::empty()
                };
                &&& r@.len() == want.len()
                &&& forall|k: int| 0 <= k < r@.len() ==> *r@[k] == want[k]
            }),
    {
        match self.find(exchange, symbol) {
            Some(i) => newest_refs(&self.feeds[i].state.buffer, limit),
            None => Vec::new(),
        }
    }

    /// The newest `limit` messages of the global buffer, newest first.
    pub fn get_global_buffer(&self, limit: usize) -> (r: Vec<&T>)
        ensures
            r@.len() == newest_first(self@.global, limit as nat).len(),
            forall|k: int| 0 <= k < r@.len() ==> *r@[k] == newest_first(self@.global, limit as nat)[k],
    {
        newest_refs(&self.global_buffer, limit)
    }

    /// The keys ("exchange:symbol") of the feeds that are stale at
    /// `now_ms`, in the order of the feeds.
    pub fn stale_feeds_at(&self, now_ms: i64) -> (r: Vec<String>)
        ensures
            r@.map_values(|k: String| k@) == stale_keys(self@.feeds, now_ms, self@.config.stale_timeout_ms),
    {
        let timeout = self.config.stale_timeout_ms;
        let mut r: Vec<String> = Vec::new();
        let mut i: usize = 0;
        while i < self.feeds.len()
            invariant
                i <= self.feeds.len(),
                timeout == self@.config.stale_timeout_ms,
                r@.map_values(|k: String| k@) == stale_keys(self@.feeds.take(i as int), now_ms, timeout),
            decreases self.feeds.len() - i,
        {
            let ghost before = r@;
            proof {
                assert(self@.feeds.take(i as int + 1).drop_last() =~= self@.feeds.take(i as int));
                assert(self@.feeds.take(i as int + 1).last() == self@.feeds[i as int]);
            }
            let f = &self.feeds[i];
            if is_stale(now_ms, f.last_message_ms, timeout) {
                r.push(pair_key_string(f.subscription.exchange.as_str(), f.subscription.symbol.as_str()));
                proof {
                    assert(r@.map_values(|k: String| k@) =~= before.map_values(|k: String| k@).push(feed_key(*f)));
                }
            }
            i = i + 1;
        }
        proof {
            assert(self@.feeds.take(i as int) =~= self@.feeds);
        }
        r
    }

    /// The keys of the feeds that are stale now (see
    /// [`MarketFeedManager::stale_feeds_at`]).
    pub fn check_stale_feeds(&self) -> (r: Vec<String>)
        ensures
            exists|now_ms: i64| r@.map_values(|k: String| k@) == stale_keys(self@.feeds, now_ms, self@.config.stale_timeout_ms),
    {
        let now = utc_now_millis();
        self.stale_feeds_at(now)
    }

    /// Auto-resubscription at `now_ms`: when enabled, every stale feed
    /// whose key splits back into its exchange and symbol gets a reconnect
    /// request; returns how many were accepted, which the manager counts as
    /// reconnects. Nothing happens (0) when it is disabled.
    pub fn auto_resubscribe_stale_at(&mut self, now_ms: i64) -> (r: usize)
        requires
            resubscribe_ready(old(self)@, now_ms),
        ensures
            final(self)@.config == old(self)@.config,
            final(self)@.global == old(self)@.global,
            final(self)@.total_messages == old(self)@.total_messages,
            final(self)@.dropped_messages == old(self)@.dropped_messages,
            !old(self)@.config.enable_auto_resubscribe ==> r == 0 && final(self)@ == old(self)@,
            old(self)@.config.enable_auto_resubscribe ==> {
                let cfg = old(self)@.config;
                &&& r == resubscribe_count(old(self)@.feeds, now_ms, cfg.stale_timeout_ms, cfg.max_reconnect_attempts)
                &&& final(self)@.feeds.len() == old(self)@.feeds.len()
                &&& forall|j: int| 0 <= j < old(self)@.feeds.len() ==> final(self)@.feeds[j]
                    == resubscribed(old(self)@.feeds[j], now_ms, cfg.stale_timeout_ms, cfg.max_reconnect_attempts)
                &&& final(self)@.total_reconnects == old(self)@.total_reconnects + r
            },
    {
        if !self.config.enable_auto_resubscribe {
            return 0;
        }
        let MarketFeedManager { config, mut feeds, global_buffer, total_messages, dropped_messages, total_reconnects } =
            self.take();
        let timeout = config.stale_timeout_ms;
        let max = config.max_reconnect_attempts;
        let ghost orig = feeds@;
        let mut out: Vec<Feed<T>> = Vec::new();
        let mut count: usize = 0;
        let mut k: usize = 0;
        assert(orig.skip(0) =~= orig);
        assert(orig.len() == feeds.len());
        while feeds.len() > 0
            invariant
                k <= orig.len(),
                orig.len() <= usize::MAX,
                feeds.len() + k == orig.len(),
                feeds@ == orig.skip(k as int),
                out@.len() == k,
                forall|j: int| 0 <= j < k ==> out@[j] == resubscribed(#[trigger] orig[j], now_ms, timeout, max),
                count == resubscribe_count(orig.take(k as int), now_ms, timeout, max),
                count <= k,
                forall|j: int| 0 <= j < orig.len() && resubscribable(#[trigger] orig[j], now_ms, timeout)
                    ==> orig[j].state.connection.reconnect_count < u32::MAX,
            decreases feeds.len(),
        {
            let mut f = feeds.remove(0);
            assert(f == orig[k as int]);
            proof {
                assert(orig.take(k as int + 1).drop_last() =~= orig.take(k as int));
                assert(orig.take(k as int + 1).last() == orig[k as int]);
            }
            if is_stale(now_ms, f.last_message_ms, timeout) && !has_colon(f.subscription.exchange.as_str())
                && !has_colon(f.subscription.symbol.as_str()) {
                assert(resubscribable(f, now_ms, timeout));
                if f.state.connection.reconnect(max) {
                    count = count + 1;
                }
            }
            out.push(f);
            k = k + 1;
            proof {
                assert(feeds@ =~= orig.skip(k as int));
            }
        }
        proof {
            assert(orig.take(k as int) =~= orig);
            assert forall|a: int, b: int| 0 <= a < b < out@.len() implies feed_key(out@[a]) != feed_key(out@[b]) by {
                assert(feed_key(out@[a]) == feed_key(orig[a]));
                assert(feed_key(out@[b]) == feed_key(orig[b]));
            }
        }
        *self = MarketFeedManager {
            config,
            feeds: out,
            global_buffer,
            total_messages,
            dropped_messages,
            total_reconnects: total_reconnects + count as u64,
        };
        count
    }

    /// Auto-resubscription now (see
    /// [`MarketFeedManager::auto_resubscribe_stale_at`]), for a manager
    /// whose counters have room whatever time it is.
    pub fn auto_resubscribe_stale(&mut self) -> (r: usize)
        requires
            forall|now_ms: i64| resubscribe_ready(old(self)@, now_ms),
        ensures
            final(self)@.config == old(self)@.config,
            !old(self)@.config.enable_auto_resubscribe ==> r == 0 && final(self)@ == old(self)@,
            old(self)@.config.enable_auto_resubscribe ==> exists|now_ms: i64| {
                &&& r == #[trigger] resubscribe_count(old(self)@.feeds, now_ms, old(self)@.config.stale_timeout_ms,
                    old(self)@.config.max_reconnect_attempts)
                &&& final(self)@.feeds.len() == old(self)@.feeds.len()
                &&& forall|j: int| 0 <= j < old(self)@.feeds.len() ==> final(self)@.feeds[j]
                    == resubscribed(old(self)@.feeds[j], now_ms, old(self)@.config.stale_timeout_ms,
                        old(self)@.config.max_reconnect_attempts)
                &&& final(self)@.total_reconnects == old(self)@.total_reconnects + r
            },
    {
        let now = utc_now_millis();
        self.auto_resubscribe_stale_at(now)
    }

    /// Takes in gap-fill results `filled` (sequence number, message) for the
    /// feed of `symbol` on `exchange`: nothing happens when there are none.
    /// Otherwise each message goes, in turn, into the feed's buffer (see
    /// [`gap_filled`]) when there is such a feed, and a clone of each goes
    /// into the global buffer, where a lost message counts as dropped; every
    /// result counts as a message.
    pub fn inject_gap_fill(&mut self, exchange: &str, symbol: &str, filled: Vec<(u64, T)>)
        where T: Clone
        requires
            gap_fill_ready(old(self)@, pair_key(exchange@, symbol@), filled@.len()),
        ensures
            final(self)@.config == old(self)@.config,
            final(self)@.total_reconnects == old(self)@.total_reconnects,
            filled@.len() == 0 ==> final(self)@ == old(self)@,
            filled@.len() > 0 ==> {
                let key = pair_key(exchange@, symbol@);
                let cfg = old(self)@.config;
                &&& final(self)@.total_messages == old(self)@.total_messages + filled@.len()
                &&& final(self)@.dropped_messages >= old(self)@.dropped_messages
                &&& clones_filled(old(self)@.global, final(self)@.global, cfg.max_buffer_size as nat,
                    messages_of(filled@), cfg.drop_policy,
                    (final(self)@.dropped_messages - old(self)@.dropped_messages) as nat)
                &&& final(self)@.feeds.len() == old(self)@.feeds.len()
                &&& if has_key(old(self)@.feeds, key) {
                    let i = key_index(old(self)@.feeds, key);
                    let f = old(self)@.feeds[i];
                    let nf = final(self)@.feeds[i];
                    &&& forall|j: int| 0 <= j < old(self)@.feeds.len() && j != i
                        ==> final(self)@.feeds[j] == old(self)@.feeds[j]
                    &&& nf.subscription == f.subscription
                    &&& nf.url == f.url
                    &&& nf.pending_subscriptions == f.pending_subscriptions
                    &&& nf.last_message_ms == f.last_message_ms
                    &&& gap_filled(f.state, nf.state, filled@, cfg.drop_policy)
                } else {
                    final(self)@.feeds == old(self)@.feeds
                }
            },
    {
        if filled.len() == 0 {
            return;
        }
        let found = self.find(exchange, symbol);
        let MarketFeedManager {
            config,
            mut feeds,
            mut global_buffer,
            mut total_messages,
            mut dropped_messages,
            total_reconnects,
        } = self.take();
        let ghost old_feeds = feeds@;
        let ghost old_global = global_buffer@;
        let ghost d0 = dropped_messages;
        let policy = config.drop_policy;
        let max = config.max_buffer_size;
        let n = filled.len();
        let ghost msgs = filled@;
        let mut filled = filled;
        let mut copies: Vec<T> = Vec::new();
        let mut slot: Option<Feed<T>> = match found {
            Some(i) => Some(feeds.remove(i)),
            None => None,
        };
        let ghost f0 = slot;
        let mut k: usize = 0;
        assert(msgs.skip(0) =~= msgs);
        proof {
            if f0 is Some {
                assert(messages_of(msgs.take(0)) =~= Seq::<T>::empty());
                assert(sequences_of(msgs.take(0)) =~= Seq::<u64>::empty());
            }
        }
        while filled.len() > 0
            invariant
                n == msgs.len(),
                k <= n,
                filled.len() + k == n,
                filled@ == msgs.skip(k as int),
                copies@.len() == k,
                forall|j: int| 0 <= j < k ==> cloned(msgs[j].1, #[trigger] copies@[j]),
                (slot is Some) == (f0 is Some),
                f0 is Some ==> {
                    &&& f0.unwrap().state.sequence.dropped_count + n <= u64::MAX
                    &&& f0.unwrap().state.sequence.message_count + n <= u64::MAX
                },
                slot is Some ==> {
                    let f = slot.unwrap();
                    let g = f0.unwrap();
                    &&& f.subscription == g.subscription
                    &&& f.url == g.url
                    &&& f.pending_subscriptions == g.pending_subscriptions
                    &&& f.last_message_ms == g.last_message_ms
                    &&& gap_filled(g.state, f.state, msgs.take(k as int), policy)
                },
            decreases filled.len(),
        {
            let (seq, m) = filled.remove(0);
            assert((seq, m) == msgs[k as int]);
            let c = m.clone();
            proof {
                assert(cloned(m, c));
            }
            copies.push(c);
            slot = match slot {
                Some(mut f) => {
                    proof {
                        let g = f0.unwrap();
                        lemma_fill_lost_bounded(g.state.buffer@, g.state.max_buffer_size as nat,
                            messages_of(msgs.take(k as int)), policy);
                        assert(messages_of(msgs.take(k as int)).len() == k);
                    }
                    let ghost before = f;
                    f.state.on_gap_fill(seq, m, policy);
                    proof {
                        let g = f0.unwrap();
                        assert(messages_of(msgs.take(k as int + 1)).drop_last() =~= messages_of(msgs.take(k as int)));
                        assert(messages_of(msgs.take(k as int + 1)).last() == m);
                        assert(sequences_of(msgs.take(k as int + 1)).drop_last() =~= sequences_of(msgs.take(k as int)));
                        assert(sequences_of(msgs.take(k as int + 1)).last() == seq);
                        assert(gap_filled(g.state, f.state, msgs.take(k as int + 1), policy));
                    }
                    Some(f)
                },
                None => None,
            };
            k = k + 1;
            proof {
                assert(filled@ =~= msgs.skip(k as int));
            }
        }
        proof {
            assert(msgs.take(k as int) =~= msgs);
        }
        match found {
            Some(i) => {
                match slot {
                    Some(f) => {
                        assert(feed_key(f) == feed_key(old_feeds[i as int]));
                        feeds.insert(i, f);
                        proof {
                            assert(feeds@ =~= old_feeds.update(i as int, f));
                            lemma_replace_keeps_keys(old_feeds, i as int, f);
                        }
                    },
                    None => {},
                }
            },
            None => {},
        }
        let ghost cs = copies@;
        let mut j: usize = 0;
        assert(cs.skip(0) =~= cs);
        assert(cs.take(0) =~= Seq::<T>::empty());
        while copies.len() > 0
            invariant
                n == cs.len(),
                j <= n,
                copies.len() + j == n,
                copies@ == cs.skip(j as int),
                d0 + n <= u64::MAX,
                dropped_messages >= d0,
                fill_seq(old_global, max as nat, cs.take(j as int), policy) == (global_buffer@, (dropped_messages - d0) as nat),
            decreases copies.len(),
        {
            let c = copies.remove(0);
            assert(c == cs[j as int]);
            proof {
                lemma_fill_lost_bounded(old_global, max as nat, cs.take(j as int), policy);
                assert(cs.take(j as int + 1).drop_last() =~= cs.take(j as int));
                assert(cs.take(j as int + 1).last() == c);
            }
            let lost = push_with_policy(&mut global_buffer, max, c, policy, "global");
            if lost {
                dropped_messages = dropped_messages + 1;
            }
            j = j + 1;
            proof {
                assert(copies@ =~= cs.skip(j as int));
            }
        }
        proof {
            assert(cs.take(j as int) =~= cs);
            assert(messages_of(msgs).len() == cs.len());
            assert forall|q: int| 0 <= q < cs.len() implies cloned(messages_of(msgs)[q], #[trigger] cs[q]) by {
                assert(messages_of(msgs)[q] == msgs[q].1);
            }
        }
        total_messages = total_messages + n as u64;
        *self = MarketFeedManager { config, feeds, global_buffer, total_messages, dropped_messages, total_reconnects };
    }
}

/// Replacing feed `i` by a feed with the same key keeps the keys distinct.
proof fn lemma_replace_keeps_keys<T>(feeds: Seq<Feed<T>>, i: int, f: Feed<T>)
    requires
        keys_distinct(feeds),
        0 <= i < feeds.len(),
        feed_key(f) == feed_key(feeds[i]),
    ensures
        keys_distinct(feeds.update(i, f)),
{
    let u = feeds.update(i, f);
    assert forall|a: int, b: int| 0 <= a < b < u.len() implies feed_key(u[a]) != feed_key(u[b]) by {
        assert(feed_key(u[a]) == feed_key(feeds[a]));
        assert(feed_key(u[b]) == feed_key(feeds[b]));
    }
}

/// A feed can be added once: after an addition the new feed's key is
/// there (so adding it again is refused), and every key that was there
/// still is.
pub proof fn lemma_added_feed_is_kept<T>(before: Seq<Feed<T>>, after: Seq<Feed<T>>, subscription: Subscription,
    url: String, max_buffer_size: usize)
    requires
        after.len() == before.len() + 1,
        after.drop_last() == before,
        fresh_feed(after.last(), subscription, url, max_buffer_size),
    ensures
        has_key(after, pair_key(subscription.exchange@, subscription.symbol@)),
        forall|key: Seq<char>| has_key(before, key) ==> has_key(after, key),
{
    assert(feed_key(after[after.len() - 1]) == pair_key(subscription.exchange@, subscription.symbol@));
    assert forall|key: Seq<char>| has_key(before, key) implies has_key(after, key) by {
        let i = choose|i: int| 0 <= i < before.len() && feed_key(#[trigger] before[i]) == key;
        assert(after[i] == before[i]);
    }
}

/// The global buffer never grows past its capacity (a positive one):
/// neither one message nor a run of gap-fill results, whatever the
/// policy, takes a buffer within capacity beyond it.
pub proof fn lemma_global_buffer_bounded<T: Clone>(before: Seq<T>, after: Seq<T>, max: nat, msg: T,
    msgs: Seq<T>, after_fill: Seq<T>, lost: nat, policy: DropPolicy)
    requires
        max > 0,
        before.len() <= max,
    ensures
        clone_pushed(before, after, max, msg, policy) ==> after.len() <= max,
        clones_filled(before, after_fill, max, msgs, policy, lost) ==> after_fill.len() <= max,
{
    if clone_pushed(before, after, max, msg, policy) {
        let c = choose|c: T| cloned(msg, c) && after == push_outcome(before, max, c, policy).0;
        crate::websocket::lemma_push_respects_capacity(before, max, c, policy);
    }
    if clones_filled(before, after_fill, max, msgs, policy, lost) {
        let cs = choose|cs: Seq<T>| {
            &&& cs.len() == msgs.len()
            &&& forall|k: int| 0 <= k < cs.len() ==> cloned(msgs[k], #[trigger] cs[k])
            &&& fill_seq(before, max, cs, policy) == (after_fill, lost)
        };
        lemma_fill_within_capacity(before, max, cs, policy);
    }
}

/// Gap fill never moves a feed's sequence back: the last sequence number
/// afterwards is at least the one before and at least every filled one.
pub proof fn lemma_gap_fill_never_rewinds(last: u64, seqs: Seq<u64>)
    ensures
        newest_sequence(last, seqs) >= last,
        forall|i: int| 0 <= i < seqs.len() ==> newest_sequence(last, seqs) >= #[trigger] seqs[i],
    decreases seqs.len(),
{
    if seqs.len() > 0 {
        let init = seqs.drop_last();
        lemma_gap_fill_never_rewinds(last, init);
        assert forall|i: int| 0 <= i < seqs.len() implies newest_sequence(last, seqs) >= #[trigger] seqs[i] by {
            if i < seqs.len() - 1 {
                assert(seqs[i] == init[i]);
            }
        }
    }
}

/// Pushing a run of messages into a buffer within a positive capacity
/// keeps it within capacity.
proof fn lemma_fill_within_capacity<T>(buf: Seq<T>, max: nat, msgs: Seq<T>, policy: DropPolicy)
    requires
        max > 0,
        buf.len() <= max,
    ensures
        fill_seq(buf, max, msgs, policy).0.len() <= max,
    decreases msgs.len(),
{
    if msgs.len() > 0 {
        lemma_fill_within_capacity(buf, max, msgs.drop_last(), policy);
        let b = fill_seq(buf, max, msgs.drop_last(), policy).0;
        crate::websocket::lemma_push_respects_capacity(b, max, msgs.last(), policy);
    }
}

} // verus!
