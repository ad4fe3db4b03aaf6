//! The L2 order book: price levels kept sorted by their integer price key,
//! delta updates checked against the book's sequence number, snapshots,
//! reconstruction from a delta stream, and the bounded delta history that a
//! book is replayed from.
//!
//! A level is stored under its price key (the price in units of 1e-8, as the
//! book's users compute it) with a payload `V` that the book never reads:
//! what a level holds is the caller's business.
use vstd::prelude::*;
use crate::domain::OrderSide;

verus! {

/// The keys of `s` increase strictly.
pub open spec fn keys_increasing<V>(s: Seq<(u64, V)>) -> bool {
    forall|i: int, j: int| 0 <= i < j < s.len() ==> s[i].0 < s[j].0
}

/// The index of the first entry of `s` whose key is at least `key`
/// (`s.len()` when there is none).
pub open spec fn lower_bound<V>(s: Seq<(u64, V)>, key: u64) -> int
    decreases s.len(),
{
    if s.len() == 0 {
        0
    } else if s[0].0 >= key {
        0
    } else {
        1 + lower_bound(s.drop_first(), key)
    }
}

/// `s` holds an entry with key `key`.
pub open spec fn has_level<V>(s: Seq<(u64, V)>, key: u64) -> bool {
    exists|i: int| 0 <= i < s.len() && #[trigger] s[i].0 == key
}

/// The levels `s` after setting the level at `key` to `level`, or removing
/// it where `level` is none; the keys stay sorted.
pub open spec fn with_level<V>(s: Seq<(u64, V)>, key: u64, level: Option<V>) -> Seq<(u64, V)> {
    let i = lower_bound(s, key);
    let present = i < s.len() && s[i].0 == key;
    match level {
        Some(v) => if present { s.update(i, (key, v)) } else { s.insert(i, (key, v)) },
        None => if present { s.remove(i) } else { s },
    }
}

/// The levels of `s` as a map from price key to payload.
pub open spec fn level_map<V>(s: Seq<(u64, V)>) -> Map<u64, V> {
    Map::new(|k: u64| has_level(s, k), |k: u64| s[lower_bound(s, k)].1)
}

/// The payloads of `s`, best price first: highest key first for bids,
/// lowest first for asks.
pub open spec fn best_first<V>(s: Seq<(u64, V)>, side: OrderSide) -> Seq<V> {
    let ordered = match side {
        OrderSide::Buy => s.reverse(),
        OrderSide::Sell => s,
    };
    ordered.map_values(|e: (u64, V)| e.1)
}

/// `lower_bound` splits `s` into the keys below `key` and, where `s` is
/// sorted, the keys from `key` on.
pub proof fn lemma_lower_bound<V>(s: Seq<(u64, V)>, key: u64)
    ensures
        0 <= lower_bound(s, key) <= s.len(),
        forall|j: int| 0 <= j < lower_bound(s, key) ==> s[j].0 < key,
        keys_increasing(s) ==> forall|j: int| lower_bound(s, key) <= j < s.len() ==> s[j].0 >= key,
    decreases s.len(),
{
    if s.len() > 0 && s[0].0 < key {
        let t = s.drop_first();
        lemma_lower_bound(t, key);
        assert forall|j: int| 0 <= j < lower_bound(s, key) implies s[j].0 < key by {
            if j > 0 {
                assert(s[j] == t[j - 1]);
            }
        }
        if keys_increasing(s) {
            assert(keys_increasing(t)) by {
                assert forall|a: int, b: int| 0 <= a < b < t.len() implies t[a].0 < t[b].0 by {
                    assert(t[a] == s[a + 1]);
                    assert(t[b] == s[b + 1]);
                }
            }
            assert forall|j: int| lower_bound(s, key) <= j < s.len() implies s[j].0 >= key by {
                assert(s[j] == t[j - 1]);
            }
        }
    } else if s.len() > 0 && keys_increasing(s) {
        assert forall|j: int| lower_bound(s, key) <= j < s.len() implies s[j].0 >= key by {
            if j > 0 {
                assert(s[0].0 < s[j].0);
            }
        }
    }
}

/// In sorted levels, the entry with key `key` is the one `lower_bound` finds.
pub proof fn lemma_lower_bound_finds<V>(s: Seq<(u64, V)>, key: u64, i: int)
    requires
        keys_increasing(s),
        0 <= i < s.len(),
        s[i].0 == key,
    ensures
        lower_bound(s, key) == i,
{
    lemma_lower_bound(s, key);
    let lb = lower_bound(s, key);
    if lb < i {
        assert(s[lb].0 < s[i].0);
    }
}

/// Setting or removing a level keeps the keys sorted, and acts on the level
/// map as an insertion or a removal of that key: the book side behaves as a
/// map from price to level.
pub proof fn lemma_with_level<V>(s: Seq<(u64, V)>, key: u64, level: Option<V>)
    requires
        keys_increasing(s),
    ensures
        keys_increasing(with_level(s, key, level)),
        level_map(with_level(s, key, level)) == (match level {
            Some(v) => level_map(s).insert(key, v),
            None => level_map(s).remove(key),
        }),
{
    lemma_lower_bound(s, key);
    let i = lower_bound(s, key);
    let present = i < s.len() && s[i].0 == key;
    let t = with_level(s, key, level);
    // Keys of `t` sorted.
    assert(keys_increasing(t)) by {
        assert forall|a: int, b: int| 0 <= a < b < t.len() implies t[a].0 < t[b].0 by {
            match level {
                Some(v) => {
                    if present {
                        if a == i {
                            assert(s[i].0 < s[b].0);
                        } else if b == i {
                            assert(s[a].0 < s[i].0);
                        }
                    } else {
                        if a < i && b == i {
                        } else if a < i && b > i {
                            assert(t[b] == s[b - 1]);
                        } else if a == i {
                            assert(t[b] == s[b - 1]);
                            assert(s[b - 1].0 >= key);
                            assert(s[b - 1].0 != key || b - 1 == i);
                            if b - 1 == i {
                                assert(s[i].0 != key);
                            }
                        } else if a > i {
                            assert(t[a] == s[a - 1]);
                            assert(t[b] == s[b - 1]);
                        }
                    }
                },
                None => {
                    if present {
                        if a >= i {
                            assert(t[a] == s[a + 1]);
                        }
                        if b >= i {
                            assert(t[b] == s[b + 1]);
                        }
                    }
                },
            }
        }
    }
    let m = level_map(s);
    let mt = level_map(t);
    let expected = match level {
        Some(v) => m.insert(key, v),
        None => m.remove(key),
    };
    assert forall|k: u64| #[trigger] mt.dom().contains(k) == expected.dom().contains(k) by {
        if has_level(t, k) {
            let j = choose|j: int| 0 <= j < t.len() && #[trigger] t[j].0 == k;
            if k != key {
                match level {
                    Some(v) => {
                        if present {
                            assert(s[j].0 == k);
                        } else if j < i {
                            assert(s[j].0 == k);
                        } else {
                            assert(j != i);
                            assert(s[j - 1].0 == k);
                        }
                    },
                    None => {
                        if present && j >= i {
                            assert(s[j + 1].0 == k);
                        } else {
                            assert(s[j].0 == k);
                        }
                    },
                }
            } else {
                if level is None && present {
                    if j < i {
                        assert(s[j].0 < key);
                    } else {
                        assert(s[j + 1].0 > s[i].0);
                    }
                }
            }
        }
        if has_level(s, k) && k != key {
            let j = choose|j: int| 0 <= j < s.len() && #[trigger] s[j].0 == k;
            match level {
                Some(v) => {
                    if present {
                        assert(t[j].0 == k);
                    } else if j < i {
                        assert(t[j].0 == k);
                    } else {
                        assert(t[j + 1].0 == k);
                    }
                },
                None => {
                    if present {
                        if j < i {
                            assert(t[j].0 == k);
                        } else {
                            assert(j != i);
                            assert(t[j - 1].0 == k);
                        }
                    } else {
                        assert(t[j].0 == k);
                    }
                },
            }
        }
        if level is Some && k == key {
            assert(t[i].0 == key);
        }
    }
    assert forall|k: u64| #[trigger] mt.dom().contains(k) implies mt[k] == expected[k] by {
        let j = choose|j: int| 0 <= j < t.len() && #[trigger] t[j].0 == k;
        lemma_lower_bound_finds(t, k, j);
        if k == key {
            assert(j == i);
        } else {
            match level {
                Some(v) => {
                    if present {
                        lemma_lower_bound_finds(s, k, j);
                    } else if j < i {
                        lemma_lower_bound_finds(s, k, j);
                    } else {
                        assert(t[j] == s[j - 1]);
                        lemma_lower_bound_finds(s, k, j - 1);
                    }
                },
                None => {
                    if present && j >= i {
                        assert(t[j] == s[j + 1]);
                        lemma_lower_bound_finds(s, k, j + 1);
                    } else {
                        lemma_lower_bound_finds(s, k, j);
                    }
                },
            }
        }
    }
    assert(mt =~= expected);
}

/// Abstract state of a [`BookSide`]: its levels, sorted by price key, and
/// which side of the book it is.
pub struct BookSideView<V> {
    pub levels: Seq<(u64, V)>,
    pub side: OrderSide,
}

/// One side of an order book: bids (`Buy`) or asks (`Sell`).
#[derive(Debug)]
pub struct BookSide<V> {
    levels: Vec<(u64, V)>,
    side: OrderSide,
}

impl<V> View for BookSide<V> {
    type V = BookSideView<V>;

    closed spec fn view(&self) -> BookSideView<V> {
        BookSideView { levels: self.levels@, side: self.side }
    }
}

impl<V> BookSide<V> {
    #[verifier::type_invariant]
    spec fn sorted(self) -> bool {
        keys_increasing(self.levels@)
    }

    /// An empty side.
    pub fn new(side: OrderSide) -> (b: Self)
        ensures
            b@.levels == Seq::<(u64, V)>::empty(),
            b@.side == side,
    {
        BookSide { levels: Vec::new(), side }
    }

    /// Sets the level at price key `key` to `level`, or removes it where
    /// `level` is none.
    pub fn update(&mut self, key: u64, level: Option<V>)
        ensures
            final(self)@.levels == with_level(old(self)@.levels, key, level),
            final(self)@.side == old(self)@.side,
            keys_increasing(final(self)@.levels),
    {
        proof {
            use_type_invariant(&*self);
        }
        let mut levels: Vec<(u64, V)> = Vec::new();
        std::mem::swap(&mut levels, &mut self.levels);
        proof {
            lemma_lower_bound(levels@, key);
            lemma_with_level(levels@, key, level);
        }
        let mut i: usize = 0;
        while i < levels.len() && levels[i].0 < key
            invariant
                i <= levels.len(),
                forall|j: int| 0 <= j < i ==> levels@[j].0 < key,
                keys_increasing(levels@),
            decreases levels.len() - i,
        {
            i = i + 1;
        }
        proof {
            let lb = lower_bound(levels@, key);
            if (i as int) < lb {
                assert(levels@[i as int].0 >= key);
            } else if lb < i {
                assert(levels@[lb].0 >= key);
            }
            assert(i == lb);
        }
        let present = i < levels.len() && levels[i].0 == key;
        match level {
            Some(v) => {
                if present {
                    levels.set(i, (key, v));
                } else {
                    levels.insert(i, (key, v));
                }
            },
            None => {
                if present {
                    let _ = levels.remove(i);
                }
            },
        }
        self.levels = levels;
    }

    /// The best price key: the highest bid or the lowest ask.
    pub fn best_price(&self) -> (p: Option<u64>)
        ensures
            p == (if self@.levels.len() == 0 {
                None
            } else {
                match self@.side {
                    OrderSide::Buy => Some(self@.levels.last().0),
                    OrderSide::Sell => Some(self@.levels[0].0),
                }
            }),
            p matches Some(k) ==> has_level(self@.levels, k) && forall|i: int| 0 <= i < self@.levels.len() ==>
                (if self@.side == OrderSide::Buy { self@.levels[i].0 <= k } else { self@.levels[i].0 >= k }),
    {
        proof {
            use_type_invariant(self);
            let n = self@.levels.len();
            if n > 0 {
                assert(self@.levels[n - 1].0 == self@.levels.last().0);
                assert(self@.levels[0].0 == self@.levels[0].0);
            }
        }
        let n = self.levels.len();
        if n == 0 {
            return None;
        }
        match self.side {
            OrderSide::Buy => Some(self.levels[n - 1].0),
            OrderSide::Sell => Some(self.levels[0].0),
        }
    }

    /// The number of levels.
    pub fn len(&self) -> (n: usize)
        ensures
            n == self@.levels.len(),
    {
        self.levels.len()
    }

    /// Whether the side has no level.
    pub fn is_empty(&self) -> (e: bool)
        ensures
            e == (self@.levels.len() == 0),
    {
        self.levels.len() == 0
    }
}

impl<V: Copy> BookSide<V> {
    /// The level at the best price.
    pub fn best_level(&self) -> (l: Option<V>)
        ensures
            l == (if self@.levels.len() == 0 {
                None
            } else {
                match self@.side {
                    OrderSide::Buy => Some(self@.levels.last().1),
                    OrderSide::Sell => Some(self@.levels[0].1),
                }
            }),
    {
        let n = self.levels.len();
        if n == 0 {
            return None;
        }
        match self.side {
            OrderSide::Buy => Some(self.levels[n - 1].1),
            OrderSide::Sell => Some(self.levels[0].1),
        }
    }

    /// The level at price key `key`, if there is one.
    pub fn get(&self, key: u64) -> (l: Option<V>)
        ensures
            l == (if level_map(self@.levels).dom().contains(key) {
                Some(level_map(self@.levels)[key])
            } else {
                None
            }),
    {
        proof {
            use_type_invariant(self);
        }
        let mut i: usize = 0;
        while i < self.levels.len()
            invariant
                i <= self.levels.len(),
                forall|j: int| 0 <= j < i ==> self.levels@[j].0 != key,
                keys_increasing(self.levels@),
            decreases self.levels.len() - i,
        {
            if self.levels[i].0 == key {
                proof {
                    lemma_lower_bound_finds(self.levels@, key, i as int);
                }
                return Some(self.levels[i].1);
            }
            i = i + 1;
        }
        None
    }

    /// The first `n` levels, best price first.
    pub fn top_n(&self, n: usize) -> (v: Vec<V>)
        ensures
            v@ == best_first(self@.levels, self@.side).take(
                if n < self@.levels.len() { n as int } else { self@.levels.len() as int }),
    {
        let len = self.levels.len();
        let count = if n < len { n } else { len };
        let ghost all = best_first(self@.levels, self@.side);
        let mut v: Vec<V> = Vec::new();
        let mut i: usize = 0;
        while i < count
            invariant
                count <= len == self.levels@.len(),
                i <= count,
                all == best_first(self@.levels, self@.side),
                all.len() == len,
                v@ == all.take(i as int),
            decreases count - i,
        {
            let idx = match self.side {
                OrderSide::Buy => len - 1 - i,
                OrderSide::Sell => i,
            };
            let lv = self.levels[idx].1;
            proof {
                assert(all[i as int] == lv);
                assert(all.take(i as int + 1) =~= all.take(i as int).push(lv));
            }
            v.push(lv);
            i = i + 1;
        }
        v
    }

    /// Every level, best price first.
    pub fn all_levels(&self) -> (v: Vec<V>)
        ensures
            v@ == best_first(self@.levels, self@.side),
    {
        let v = self.top_n(self.levels.len());
        proof {
            let all = best_first(self@.levels, self@.side);
            assert(all.take(all.len() as int) =~= all);
        }
        v
    }
}

/// The levels after applying, in order, those of `updates` (price key,
/// level or removal, side) that are for `side`.
pub open spec fn apply_updates<V>(levels: Seq<(u64, V)>, updates: Seq<(u64, Option<V>, OrderSide)>, side: OrderSide)
    -> Seq<(u64, V)>
    decreases updates.len(),
{
    if updates.len() == 0 {
        levels
    } else {
        let prev = apply_updates(levels, updates.drop_last(), side);
        let u = updates.last();
        if u.2 == side { with_level(prev, u.0, u.1) } else { prev }
    }
}

/// The levels of one side of a snapshot: its entries applied in order to an
/// empty side.
pub open spec fn snapshot_levels<V>(entries: Seq<(u64, Option<V>)>) -> Seq<(u64, V)>
    decreases entries.len(),
{
    if entries.len() == 0 {
        Seq::empty()
    } else {
        with_level(snapshot_levels(entries.drop_last()), entries.last().0, entries.last().1)
    }
}

/// Applying updates keeps the levels sorted.
pub proof fn lemma_apply_updates_sorted<V>(levels: Seq<(u64, V)>, updates: Seq<(u64, Option<V>, OrderSide)>, side: OrderSide)
    requires
        keys_increasing(levels),
    ensures
        keys_increasing(apply_updates(levels, updates, side)),
    decreases updates.len(),
{
    if updates.len() > 0 {
        lemma_apply_updates_sorted(levels, updates.drop_last(), side);
        let prev = apply_updates(levels, updates.drop_last(), side);
        lemma_with_level(prev, updates.last().0, updates.last().1);
    }
}

/// A delta update of a book: the new sequence number, update id and time,
/// and the level changes (price key, new level or removal, side).
#[derive(Debug)]
pub struct OrderBookDelta<V> {
    pub sequence: u64,
    pub update_id: u64,
    pub timestamp: u64,
    pub updates: Vec<(u64, Option<V>, OrderSide)>,
    pub is_snapshot: bool,
}

impl<V> OrderBookDelta<V> {
    /// A delta with no level change yet.
    pub fn new(sequence: u64, update_id: u64, timestamp: u64) -> (d: Self)
        ensures
            d.sequence == sequence,
            d.update_id == update_id,
            d.timestamp == timestamp,
            d.updates@ == Seq::<(u64, Option<V>, OrderSide)>::empty(),
            !d.is_snapshot,
    {
        OrderBookDelta { sequence, update_id, timestamp, updates: Vec::new(), is_snapshot: false }
    }

    /// Appends a change of the level at `key` on `side`.
    pub fn add_update(&mut self, key: u64, level: Option<V>, side: OrderSide)
        ensures
            final(self).updates@ == old(self).updates@.push((key, level, side)),
            final(self).sequence == old(self).sequence,
            final(self).update_id == old(self).update_id,
            final(self).timestamp == old(self).timestamp,
            final(self).is_snapshot == old(self).is_snapshot,
    {
        self.updates.push((key, level, side));
    }
}

/// A full state of a book.
#[derive(Debug)]
pub struct OrderBookSnapshot<V> {
    pub sequence: u64,
    pub update_id: u64,
    pub timestamp: u64,
    pub bids: Vec<(u64, Option<V>)>,
    pub asks: Vec<(u64, Option<V>)>,
    pub checksum: Option<u32>,
    pub book_age_ms: u64,
}

/// Why a book refused a delta.
#[derive(Debug, Clone, Copy, PartialEq, Eq, Structural)]
pub enum OrderBookError {
    /// The delta's sequence number does not exceed the book's.
    StaleDelta { sequence: u64, current: u64 },
}

/// A full L2 order book.
#[derive(Debug)]
pub struct OrderBook<V> {
    pub symbol: String,
    pub exchange: String,
    pub bids: BookSide<V>,
    pub asks: BookSide<V>,
    pub sequence: u64,
    pub timestamp: u64,
    pub last_update_id: u64,
    pub checksum: Option<u32>,
    pub book_age_ms: u64,
}

/// `book` is the empty book of `symbol` on `exchange`.
pub open spec fn is_empty_book<V>(book: OrderBook<V>, symbol: Seq<char>, exchange: Seq<char>) -> bool {
    &&& book.symbol@ == symbol
    &&& book.exchange@ == exchange
    &&& book.bids@.levels == Seq::<(u64, V)>::empty()
    &&& book.bids@.side == OrderSide::Buy
    &&& book.asks@.levels == Seq::<(u64, V)>::empty()
    &&& book.asks@.side == OrderSide::Sell
    &&& book.sequence == 0
    &&& book.timestamp == 0
    &&& book.last_update_id == 0
    &&& book.checksum is None
    &&& book.book_age_ms == 0
}

/// `after` is `before` with `delta` applied: its level changes made, and its
/// sequence number, time and update id taken.
pub open spec fn delta_applied<V>(before: OrderBook<V>, delta: OrderBookDelta<V>, after: OrderBook<V>) -> bool {
    &&& after.bids@.levels == apply_updates(before.bids@.levels, delta.updates@, OrderSide::Buy)
    &&& after.asks@.levels == apply_updates(before.asks@.levels, delta.updates@, OrderSide::Sell)
    &&& after.bids@.side == before.bids@.side
    &&& after.asks@.side == before.asks@.side
    &&& after.sequence == delta.sequence
    &&& after.timestamp == delta.timestamp
    &&& after.last_update_id == delta.update_id
    &&& after.symbol == before.symbol
    &&& after.exchange == before.exchange
    &&& after.checksum == before.checksum
    &&& after.book_age_ms == before.book_age_ms
}

impl<V: Copy> OrderBook<V> {
    /// An empty book of `symbol` on `exchange`.
    pub fn new(symbol: String, exchange: String) -> (b: Self)
        ensures
            is_empty_book(b, symbol@, exchange@),
            b.symbol == symbol,
            b.exchange == exchange,
    {
        OrderBook {
            symbol,
            exchange,
            bids: BookSide::new(OrderSide::Buy),
            asks: BookSide::new(OrderSide::Sell),
            sequence: 0,
            timestamp: 0,
            last_update_id: 0,
            checksum: None,
            book_age_ms: 0,
        }
    }

    /// The best bid's price key.
    pub fn best_bid(&self) -> (p: Option<u64>)
        ensures
            p == (if self.bids@.levels.len() == 0 {
                None
            } else {
                match self.bids@.side {
                    OrderSide::Buy => Some(self.bids@.levels.last().0),
                    OrderSide::Sell => Some(self.bids@.levels[0].0),
                }
            }),
            p matches Some(k) ==> has_level(self.bids@.levels, k) && forall|i: int| 0 <= i < self.bids@.levels.len() ==>
                (if self.bids@.side == OrderSide::Buy { self.bids@.levels[i].0 <= k } else { self.bids@.levels[i].0 >= k }),
    {
        self.bids.best_price()
    }

    /// The best ask's price key.
    pub fn best_ask(&self) -> (p: Option<u64>)
        ensures
            p == (if self.asks@.levels.len() == 0 {
                None
            } else {
                match self.asks@.side {
                    OrderSide::Buy => Some(self.asks@.levels.last().0),
                    OrderSide::Sell => Some(self.asks@.levels[0].0),
                }
            }),
            p matches Some(k) ==> has_level(self.asks@.levels, k) && forall|i: int| 0 <= i < self.asks@.levels.len() ==>
                (if self.asks@.side == OrderSide::Buy { self.asks@.levels[i].0 <= k } else { self.asks@.levels[i].0 >= k }),
    {
        self.asks.best_price()
    }

    /// Applies `delta`'s level changes in order and takes its sequence
    /// number, time and update id; the sequence number is checked first.
    fn apply_delta_ref(&mut self, delta: &OrderBookDelta<V>) -> (r: Result<(), OrderBookError>)
        ensures
            (r is Ok) == (delta.sequence > old(self).sequence),
            r is Ok ==> delta_applied(*old(self), *delta, *final(self)),
            r is Err ==> r == Err::<(), OrderBookError>(OrderBookError::StaleDelta {
                sequence: delta.sequence,
                current: old(self).sequence,
            }) && *final(self) == *old(self),
    {
        if delta.sequence <= self.sequence {
            return Err(OrderBookError::StaleDelta { sequence: delta.sequence, current: self.sequence });
        }
        let ghost bids0 = self.bids@;
        let ghost asks0 = self.asks@;
        let mut i: usize = 0;
        while i < delta.updates.len()
            invariant
                i <= delta.updates.len(),
                self.bids@.levels == apply_updates(bids0.levels, delta.updates@.take(i as int), OrderSide::Buy),
                self.asks@.levels == apply_updates(asks0.levels, delta.updates@.take(i as int), OrderSide::Sell),
                self.bids@.side == bids0.side,
                self.asks@.side == asks0.side,
                self.sequence == old(self).sequence,
                self.timestamp == old(self).timestamp,
                self.last_update_id == old(self).last_update_id,
                self.symbol == old(self).symbol,
                self.exchange == old(self).exchange,
                self.checksum == old(self).checksum,
                self.book_age_ms == old(self).book_age_ms,
            decreases delta.updates.len() - i,
        {
            let u = delta.updates[i];
            proof {
                assert(delta.updates@.take(i as int + 1).drop_last() =~= delta.updates@.take(i as int));
                assert(delta.updates@.take(i as int + 1).last() == u);
            }
            match u.2 {
                OrderSide::Buy => self.bids.update(u.0, u.1),
                OrderSide::Sell => self.asks.update(u.0, u.1),
            }
            i = i + 1;
        }
        proof {
            assert(delta.updates@.take(i as int) =~= delta.updates@);
        }
        self.sequence = delta.sequence;
        self.timestamp = delta.timestamp;
        self.last_update_id = delta.update_id;
        Ok(())
    }

    /// Applies a delta: a delta whose sequence number does not exceed the
    /// book's is refused and changes nothing; otherwise its level changes
    /// are made in order and the book takes its sequence number, time and
    /// update id.
    pub fn apply_delta(&mut self, delta: OrderBookDelta<V>) -> (r: Result<(), OrderBookError>)
        ensures
            (r is Ok) == (delta.sequence > old(self).sequence),
            r is Ok ==> delta_applied(*old(self), delta, *final(self)),
            r is Err ==> r == Err::<(), OrderBookError>(OrderBookError::StaleDelta {
                sequence: delta.sequence,
                current: old(self).sequence,
            }) && *final(self) == *old(self),
    {
        self.apply_delta_ref(&delta)
    }

    /// Replaces the whole book by `snapshot`.
    pub fn apply_snapshot(&mut self, snapshot: OrderBookSnapshot<V>)
        ensures
            final(self).bids@.levels == snapshot_levels(snapshot.bids@),
            final(self).bids@.side == OrderSide::Buy,
            final(self).asks@.levels == snapshot_levels(snapshot.asks@),
            final(self).asks@.side == OrderSide::Sell,
            final(self).sequence == snapshot.sequence,
            final(self).timestamp == snapshot.timestamp,
            final(self).last_update_id == snapshot.update_id,
            final(self).checksum == snapshot.checksum,
            final(self).symbol == old(self).symbol,
            final(self).exchange == old(self).exchange,
            final(self).book_age_ms == old(self).book_age_ms,
    {
        self.bids = side_from_entries(OrderSide::Buy, &snapshot.bids);
        self.asks = side_from_entries(OrderSide::Sell, &snapshot.asks);
        self.sequence = snapshot.sequence;
        self.timestamp = snapshot.timestamp;
        self.last_update_id = snapshot.update_id;
        self.checksum = snapshot.checksum;
    }
}

/// A side built from snapshot entries applied in order.
fn side_from_entries<V: Copy>(side: OrderSide, entries: &Vec<(u64, Option<V>)>) -> (b: BookSide<V>)
    ensures
        b@.levels == snapshot_levels(entries@),
        b@.side == side,
{
    let mut b = BookSide::new(side);
    let mut i: usize = 0;
    while i < entries.len()
        invariant
            i <= entries.len(),
            b@.levels == snapshot_levels(entries@.take(i as int)),
            b@.side == side,
        decreases entries.len() - i,
    {
        let e = entries[i];
        proof {
            assert(entries@.take(i as int + 1).drop_last() =~= entries@.take(i as int));
            assert(entries@.take(i as int + 1).last() == e);
        }
        b.update(e.0, e.1);
        i = i + 1;
    }
    proof {
        assert(entries@.take(i as int) =~= entries@);
    }
    b
}

/// The sequence number after `deltas`, starting from `start`.
pub open spec fn last_sequence<V>(deltas: Seq<OrderBookDelta<V>>, start: u64) -> u64 {
    if deltas.len() == 0 { start } else { deltas.last().sequence }
}

/// Each delta's sequence number exceeds the one before it, the first one
/// exceeding `start`: a book accepts every delta of the stream.
pub open spec fn sequences_increase<V>(deltas: Seq<OrderBookDelta<V>>, start: u64) -> bool
    decreases deltas.len(),
{
    if deltas.len() == 0 {
        true
    } else {
        sequences_increase(deltas.drop_last(), start)
            && deltas.last().sequence > last_sequence(deltas.drop_last(), start)
    }
}

/// The levels of `side` after the level changes of every delta of `deltas`,
/// in order, made on `levels`.
pub open spec fn replay_levels<V>(levels: Seq<(u64, V)>, deltas: Seq<OrderBookDelta<V>>, side: OrderSide) -> Seq<(u64, V)>
    decreases deltas.len(),
{
    if deltas.len() == 0 {
        levels
    } else {
        apply_updates(replay_levels(levels, deltas.drop_last(), side), deltas.last().updates@, side)
    }
}

/// `end` is `start` after every delta of `deltas` has been applied.
pub open spec fn replays<V>(start: OrderBook<V>, deltas: Seq<OrderBookDelta<V>>, end: OrderBook<V>) -> bool {
    &&& end.bids@.levels == replay_levels(start.bids@.levels, deltas, OrderSide::Buy)
    &&& end.asks@.levels == replay_levels(start.asks@.levels, deltas, OrderSide::Sell)
    &&& end.bids@.side == start.bids@.side
    &&& end.asks@.side == start.asks@.side
    &&& end.sequence == last_sequence(deltas, start.sequence)
    &&& end.timestamp == (if deltas.len() == 0 { start.timestamp } else { deltas.last().timestamp })
    &&& end.last_update_id == (if deltas.len() == 0 { start.last_update_id } else { deltas.last().update_id })
    &&& end.symbol == start.symbol
    &&& end.exchange == start.exchange
    &&& end.checksum == start.checksum
    &&& end.book_age_ms == start.book_age_ms
}

/// `b` is the empty book of `symbol` on `exchange` after every delta of
/// `deltas`.
pub open spec fn reconstructed<V>(deltas: Seq<OrderBookDelta<V>>, symbol: Seq<char>, exchange: Seq<char>, b: OrderBook<V>) -> bool {
    &&& b.symbol@ == symbol
    &&& b.exchange@ == exchange
    &&& b.bids@.levels == replay_levels(Seq::<(u64, V)>::empty(), deltas, OrderSide::Buy)
    &&& b.bids@.side == OrderSide::Buy
    &&& b.asks@.levels == replay_levels(Seq::<(u64, V)>::empty(), deltas, OrderSide::Sell)
    &&& b.asks@.side == OrderSide::Sell
    &&& b.sequence == last_sequence(deltas, 0)
    &&& b.timestamp == (if deltas.len() == 0 { 0 } else { deltas.last().timestamp })
    &&& b.last_update_id == (if deltas.len() == 0 { 0 } else { deltas.last().update_id })
    &&& b.checksum is None
    &&& b.book_age_ms == 0
}

/// `e` reports the first delta of `deltas` that a fresh book refuses.
pub open spec fn first_stale<V>(deltas: Seq<OrderBookDelta<V>>, e: OrderBookError) -> bool {
    exists|k: int| 0 <= k < deltas.len()
        && sequences_increase(deltas.take(k), 0)
        && #[trigger] deltas[k].sequence <= last_sequence(deltas.take(k), 0)
        && e == (OrderBookError::StaleDelta { sequence: deltas[k].sequence, current: last_sequence(deltas.take(k), 0) })
}

/// The deltas of `deltas` with a sequence number above `min`, or all of
/// them where `min` is none, in order.
pub open spec fn select_deltas<V>(deltas: Seq<OrderBookDelta<V>>, min: Option<u64>) -> Seq<OrderBookDelta<V>>
    decreases deltas.len(),
{
    if deltas.len() == 0 {
        Seq::empty()
    } else {
        let prev = select_deltas(deltas.drop_last(), min);
        match min {
            Some(m) => if deltas.last().sequence > m { prev.push(deltas.last()) } else { prev },
            None => prev.push(deltas.last()),
        }
    }
}

/// Selecting with no lower bound keeps every delta.
pub proof fn lemma_select_all<V>(deltas: Seq<OrderBookDelta<V>>)
    ensures
        select_deltas(deltas, None) == deltas,
    decreases deltas.len(),
{
    if deltas.len() > 0 {
        lemma_select_all(deltas.drop_last());
        assert(deltas.drop_last().push(deltas.last()) =~= deltas);
    }
}

/// The empty book of `symbol` on `exchange` with the selected deltas of
/// `deltas` applied, stopping at the first one it refuses.
fn replay_selected<V: Copy>(symbol: String, exchange: String, deltas: &Vec<OrderBookDelta<V>>, min: Option<u64>)
    -> (r: Result<OrderBook<V>, OrderBookError>)
    ensures
        (r is Ok) == sequences_increase(select_deltas(deltas@, min), 0),
        r matches Ok(b) ==> reconstructed(select_deltas(deltas@, min), symbol@, exchange@, b),
        r matches Err(e) ==> first_stale(select_deltas(deltas@, min), e),
{
    let mut book = OrderBook::new(symbol, exchange);
    let ghost start = book;
    let mut i: usize = 0;
    while i < deltas.len()
        invariant
            i <= deltas.len(),
            is_empty_book(start, symbol@, exchange@),
            sequences_increase(select_deltas(deltas@.take(i as int), min), 0),
            replays(start, select_deltas(deltas@.take(i as int), min), book),
        decreases deltas.len() - i,
    {
        let d = &deltas[i];
        let ghost prefix = deltas@.take(i as int);
        let ghost sel = select_deltas(prefix, min);
        proof {
            assert(deltas@.take(i as int + 1).drop_last() =~= prefix);
            assert(deltas@.take(i as int + 1).last() == *d);
        }
        let keep = match min {
            Some(m) => d.sequence > m,
            None => true,
        };
        if keep {
            let ghost before = book;
            let res = book.apply_delta_ref(d);
            match res {
                Err(e) => {
                    proof {
                        let all = select_deltas(deltas@, min);
                        lemma_select_prefix(deltas@, min, i as int + 1);
                        let k = sel.len() as int;
                        assert(select_deltas(deltas@.take(i as int + 1), min) == sel.push(*d));
                        assert(all.take(k + 1) == sel.push(*d));
                        assert(all.take(k) =~= sel) by {
                            assert(all.take(k + 1).take(k) =~= all.take(k));
                            assert(sel.push(*d).take(k) =~= sel);
                        }
                        assert(all[k] == *d) by {
                            assert(all.take(k + 1)[k] == all[k]);
                        }
                        assert(last_sequence(sel, 0) == before.sequence);
                        lemma_stale_stops(all, k);
                    }
                    return Err(e);
                },
                Ok(()) => {
                    proof {
                        assert(select_deltas(deltas@.take(i as int + 1), min) == sel.push(*d));
                        assert(sel.push(*d).drop_last() =~= sel);
                    }
                },
            }
        } else {
            proof {
                assert(select_deltas(deltas@.take(i as int + 1), min) == sel);
            }
        }
        i = i + 1;
    }
    proof {
        assert(deltas@.take(i as int) =~= deltas@);
    }
    Ok(book)
}

/// Selecting from a prefix gives a prefix of the selection.
proof fn lemma_select_prefix<V>(deltas: Seq<OrderBookDelta<V>>, min: Option<u64>, n: int)
    requires
        0 <= n <= deltas.len(),
    ensures
        select_deltas(deltas.take(n), min).len() <= select_deltas(deltas, min).len(),
        select_deltas(deltas, min).take(select_deltas(deltas.take(n), min).len() as int)
            == select_deltas(deltas.take(n), min),
    decreases deltas.len(),
{
    if n == deltas.len() {
        assert(deltas.take(n) =~= deltas);
        assert(select_deltas(deltas, min).take(select_deltas(deltas, min).len() as int) =~= select_deltas(deltas, min));
    } else {
        let init = deltas.drop_last();
        lemma_select_prefix(init, min, n);
        assert(init.take(n) =~= deltas.take(n));
        let a = select_deltas(init, min);
        let b = select_deltas(deltas, min);
        let p = select_deltas(deltas.take(n), min);
        assert(b.take(p.len() as int) =~= a.take(p.len() as int));
    }
}

/// A stream that is in order up to `k` and whose delta `k` does not
/// advance is refused at `k`.
proof fn lemma_stale_stops<V>(all: Seq<OrderBookDelta<V>>, k: int)
    requires
        0 <= k < all.len(),
        sequences_increase(all.take(k), 0),
        all[k].sequence <= last_sequence(all.take(k), 0),
    ensures
        first_stale(all, OrderBookError::StaleDelta { sequence: all[k].sequence, current: last_sequence(all.take(k), 0) }),
        !sequences_increase(all, 0),
{
    lemma_increase_prefix(all, k + 1);
    assert(all.take(k + 1).drop_last() =~= all.take(k));
    assert(all.take(k + 1).last() == all[k]);
}

/// A stream that is in order has every prefix in order.
proof fn lemma_increase_prefix<V>(all: Seq<OrderBookDelta<V>>, n: int)
    requires
        0 <= n <= all.len(),
    ensures
        sequences_increase(all, 0) ==> sequences_increase(all.take(n), 0),
    decreases all.len(),
{
    if n < all.len() {
        lemma_increase_prefix(all.drop_last(), n);
        assert(all.drop_last().take(n) =~= all.take(n));
    } else {
        assert(all.take(n) =~= all);
    }
}

impl<V: Copy> OrderBook<V> {
    /// The empty book of `symbol` on `exchange` with `deltas` applied in
    /// order; the first delta the book refuses ends the reconstruction
    /// with its error.
    pub fn reconstruct_from_deltas(symbol: String, exchange: String, deltas: Vec<OrderBookDelta<V>>)
        -> (r: Result<OrderBook<V>, OrderBookError>)
        ensures
            (r is Ok) == sequences_increase(deltas@, 0),
            r matches Ok(b) ==> reconstructed(deltas@, symbol@, exchange@, b),
            r matches Err(e) ==> first_stale(deltas@, e),
    {
        proof {
            lemma_select_all(deltas@);
        }
        replay_selected(symbol, exchange, &deltas, None)
    }
}

/// The delta history after recording `d`: appended, and the oldest delta
/// dropped once the history is longer than `max`.
pub open spec fn record_delta<V>(history: Seq<OrderBookDelta<V>>, d: OrderBookDelta<V>, max: nat) -> Seq<OrderBookDelta<V>> {
    let h = history.push(d);
    if h.len() > max { h.drop_first() } else { h }
}

/// Abstract state of a [`BookHistory`]: its book, the recorded deltas,
/// oldest first, and how many it keeps.
pub struct BookHistoryView<V> {
    pub book: OrderBook<V>,
    pub history: Seq<OrderBookDelta<V>>,
    pub max_history: usize,
}

/// The book of one symbol together with the deltas applied to it since the
/// last snapshot, at most `max_history` of them, from which the book can be
/// replayed.
#[derive(Debug)]
pub struct BookHistory<V> {
    book: OrderBook<V>,
    history: Vec<OrderBookDelta<V>>,
    max_history: usize,
}

impl<V> View for BookHistory<V> {
    type V = BookHistoryView<V>;

    closed spec fn view(&self) -> BookHistoryView<V> {
        BookHistoryView { book: self.book, history: self.history@, max_history: self.max_history }
    }
}

impl<V: Copy> BookHistory<V> {
    /// An empty book of `symbol` on `exchange` with no history, keeping at
    /// most `max_history` deltas.
    pub fn new(symbol: String, exchange: String, max_history: usize) -> (h: Self)
        ensures
            is_empty_book(h@.book, symbol@, exchange@),
            h@.history == Seq::<OrderBookDelta<V>>::empty(),
            h@.max_history == max_history,
    {
        BookHistory { book: OrderBook::new(symbol, exchange), history: Vec::new(), max_history }
    }

    /// Applies `delta` to the book; an accepted delta is recorded, the
    /// oldest recorded one being dropped once more than `max_history` are
    /// kept. A refused delta changes nothing.
    pub fn apply_delta(&mut self, delta: OrderBookDelta<V>) -> (r: Result<(), OrderBookError>)
        ensures
            (r is Ok) == (delta.sequence > old(self)@.book.sequence),
            final(self)@.max_history == old(self)@.max_history,
            r is Ok ==> delta_applied(old(self)@.book, delta, final(self)@.book)
                && final(self)@.history == record_delta(old(self)@.history, delta, old(self)@.max_history as nat),
            r is Err ==> r == Err::<(), OrderBookError>(OrderBookError::StaleDelta {
                sequence: delta.sequence,
                current: old(self)@.book.sequence,
            }) && final(self)@.book == old(self)@.book && final(self)@.history == old(self)@.history,
    {
        let res = self.book.apply_delta_ref(&delta);
        match res {
            Err(e) => Err(e),
            Ok(()) => {
                self.history.push(delta);
                if self.history.len() > self.max_history {
                    let _ = self.history.remove(0);
                }
                Ok(())
            },
        }
    }

    /// Replaces the book by `snapshot` and forgets the history.
    pub fn apply_snapshot(&mut self, snapshot: OrderBookSnapshot<V>)
        ensures
            final(self)@.book.bids@.levels == snapshot_levels(snapshot.bids@),
            final(self)@.book.bids@.side == OrderSide::Buy,
            final(self)@.book.asks@.levels == snapshot_levels(snapshot.asks@),
            final(self)@.book.asks@.side == OrderSide::Sell,
            final(self)@.book.sequence == snapshot.sequence,
            final(self)@.book.timestamp == snapshot.timestamp,
            final(self)@.book.last_update_id == snapshot.update_id,
            final(self)@.book.checksum == snapshot.checksum,
            final(self)@.book.symbol == old(self)@.book.symbol,
            final(self)@.book.exchange == old(self)@.book.exchange,
            final(self)@.book.book_age_ms == old(self)@.book.book_age_ms,
            final(self)@.history == Seq::<OrderBookDelta<V>>::empty(),
            final(self)@.max_history == old(self)@.max_history,
    {
        self.book.apply_snapshot(snapshot);
        self.history.clear();
    }

    /// The book.
    pub fn get_book(&self) -> (b: &OrderBook<V>)
        ensures
            *b == self@.book,
    {
        &self.book
    }

    /// The recorded deltas, oldest first.
    pub fn get_delta_history(&self) -> (h: &[OrderBookDelta<V>])
        ensures
            h@ == self@.history,
    {
        self.history.as_slice()
    }

    /// A fresh book of the same symbol with the recorded deltas whose
    /// sequence number exceeds `from_sequence` applied in order; the first
    /// one it refuses ends the replay with its error.
    pub fn replay_book(&self, from_sequence: u64) -> (r: Result<OrderBook<V>, OrderBookError>)
        ensures
            (r is Ok) == sequences_increase(select_deltas(self@.history, Some(from_sequence)), 0),
            r matches Ok(b) ==> reconstructed(select_deltas(self@.history, Some(from_sequence)),
                self@.book.symbol@, self@.book.exchange@, b),
            r matches Err(e) ==> first_stale(select_deltas(self@.history, Some(from_sequence)), e),
    {
        replay_selected(self.book.symbol.clone(), self.book.exchange.clone(), &self.history, Some(from_sequence))
    }
}

/// The delta history never grows beyond its capacity, and the delta just
/// recorded is the newest one kept (where anything is kept).
pub proof fn lemma_history_bounded<V>(history: Seq<OrderBookDelta<V>>, d: OrderBookDelta<V>, max: nat)
    requires
        history.len() <= max,
    ensures
        record_delta(history, d, max).len() <= max,
        max > 0 ==> record_delta(history, d, max).last() == d,
{
}

/// Recording an accepted delta keeps a book the replay of its history:
/// while the history has room, the book after the delta is the starting
/// book replayed with the recorded deltas, which stay in order.
pub proof fn lemma_recording_keeps_replayable<V>(start: OrderBook<V>, history: Seq<OrderBookDelta<V>>,
    book: OrderBook<V>, d: OrderBookDelta<V>, after: OrderBook<V>, max: nat)
    requires
        replays(start, history, book),
        sequences_increase(history, start.sequence),
        d.sequence > book.sequence,
        delta_applied(book, d, after),
        history.len() < max,
    ensures
        record_delta(history, d, max) == history.push(d),
        replays(start, history.push(d), after),
        sequences_increase(history.push(d), start.sequence),
{
    let h = history.push(d);
    assert(h.drop_last() =~= history);
}

/// A book that is the empty book replayed with an in-order history is what
/// replaying that history from sequence 0 reconstructs: every recorded
/// delta is selected, and the reconstruction is that book.
pub proof fn lemma_replay_reproduces_book<V>(start: OrderBook<V>, history: Seq<OrderBookDelta<V>>,
    book: OrderBook<V>, symbol: Seq<char>, exchange: Seq<char>)
    requires
        is_empty_book(start, symbol, exchange),
        replays(start, history, book),
        sequences_increase(history, 0),
    ensures
        select_deltas(history, Some(0u64)) == history,
        reconstructed(history, symbol, exchange, book),
{
    lemma_select_positive(history);
}

/// An in-order history from 0 has only positive sequence numbers, so
/// selecting above 0 keeps all of it.
proof fn lemma_select_positive<V>(history: Seq<OrderBookDelta<V>>)
    requires
        sequences_increase(history, 0),
    ensures
        select_deltas(history, Some(0u64)) == history,
        forall|i: int| 0 <= i < history.len() ==> #[trigger] history[i].sequence > 0,
    decreases history.len(),
{
    if history.len() > 0 {
        let init = history.drop_last();
        lemma_select_positive(init);
        assert(init.push(history.last()) =~= history);
        assert forall|i: int| 0 <= i < history.len() implies #[trigger] history[i].sequence > 0 by {
            if i < history.len() - 1 {
                assert(history[i] == init[i]);
            }
        }
    }
}

} // verus!
