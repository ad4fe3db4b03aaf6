//! The order books of many symbols, each kept under its "exchange:symbol"
//! key together with the deltas applied to it since its last snapshot.
use vstd::prelude::*;
use crate::domain::OrderSide;
use crate::order_book::{
    delta_applied, first_stale, is_empty_book, record_delta, reconstructed, select_deltas, sequences_increase,
    snapshot_levels, BookHistory, BookHistoryView, OrderBook, OrderBookDelta, OrderBookError, OrderBookSnapshot,
};
use crate::text::{pair_key, same_pair_key};

verus! {

/// The key of a kept book: its exchange and symbol joined by a colon.
pub open spec fn book_key<V>(h: BookHistoryView<V>) -> Seq<char> {
    pair_key(h.book.exchange@, h.book.symbol@)
}

/// No two kept books share a key.
pub open spec fn book_keys_distinct<V>(books: Seq<BookHistoryView<V>>) -> bool {
    forall|i: int, j: int| 0 <= i < j < books.len() ==> book_key(books[i]) != book_key(books[j])
}

/// Some kept book has `key`.
pub open spec fn has_book<V>(books: Seq<BookHistoryView<V>>, key: Seq<char>) -> bool {
    exists|i: int| 0 <= i < books.len() && book_key(#[trigger] books[i]) == key
}

/// Where the book with `key` is kept (meaningful when some book has it).
pub open spec fn book_index<V>(books: Seq<BookHistoryView<V>>, key: Seq<char>) -> int {
    choose|i: int| 0 <= i < books.len() && book_key(#[trigger] books[i]) == key
}

/// What the manager holds: the kept books in the order they were first
/// touched, and how many deltas each keeps.
pub struct BookManagerView<V> {
    pub books: Seq<BookHistoryView<V>>,
    pub max_history: usize,
}

/// `e` is what an update of `symbol` on `exchange` starts from: the kept
/// book with that key, or else an empty book of the symbol with no
/// history.
pub open spec fn prior_entry<V>(v: BookManagerView<V>, symbol: Seq<char>, exchange: Seq<char>, e: BookHistoryView<V>) -> bool {
    let key = pair_key(exchange, symbol);
    if has_book(v.books, key) {
        e == v.books[book_index(v.books, key)]
    } else {
        &&& is_empty_book(e.book, symbol, exchange)
        &&& e.history == Seq::<OrderBookDelta<V>>::empty()
        &&& e.max_history == v.max_history
    }
}

/// `n` is kept book `e` after applying `delta` with result `r`: an
/// accepted delta is applied and recorded; a refused one changes nothing.
pub open spec fn delta_outcome<V>(e: BookHistoryView<V>, delta: OrderBookDelta<V>, n: BookHistoryView<V>,
    r: Result<(), OrderBookError>) -> bool {
    &&& (r is Ok) == (delta.sequence > e.book.sequence)
    &&& n.max_history == e.max_history
    &&& r is Ok ==> delta_applied(e.book, delta, n.book) && n.history == record_delta(e.history, delta, e.max_history as nat)
    &&& r is Err ==> r == Err::<(), OrderBookError>(OrderBookError::StaleDelta {
        sequence: delta.sequence,
        current: e.book.sequence,
    }) && n.book == e.book && n.history == e.history
}

/// `n` is kept book `e` after `snapshot`: the book is replaced and the
/// history forgotten.
pub open spec fn snapshot_outcome<V>(e: BookHistoryView<V>, snapshot: OrderBookSnapshot<V>, n: BookHistoryView<V>) -> bool {
    &&& n.book.bids@.levels == snapshot_levels(snapshot.bids@)
    &&& n.book.bids@.side == OrderSide::Buy
    &&& n.book.asks@.levels == snapshot_levels(snapshot.asks@)
    &&& n.book.asks@.side == OrderSide::Sell
    &&& n.book.sequence == snapshot.sequence
    &&& n.book.timestamp == snapshot.timestamp
    &&& n.book.last_update_id == snapshot.update_id
    &&& n.book.checksum == snapshot.checksum
    &&& n.book.symbol == e.book.symbol
    &&& n.book.exchange == e.book.exchange
    &&& n.book.book_age_ms == e.book.book_age_ms
    &&& n.history == Seq::<OrderBookDelta<V>>::empty()
    &&& n.max_history == e.max_history
}

/// The kept books after an update of the book with `key`: the same books,
/// with one more at the end when none had the key; every other book is
/// unchanged and the updated one has the key.
pub open spec fn books_after_update<V>(before: Seq<BookHistoryView<V>>, after: Seq<BookHistoryView<V>>, key: Seq<char>) -> bool {
    &&& has_book(after, key)
    &&& if has_book(before, key) {
        &&& after.len() == before.len()
        &&& book_index(after, key) == book_index(before, key)
        &&& forall|j: int| 0 <= j < before.len() && j != book_index(before, key) ==> after[j] == before[j]
    } else {
        &&& after.len() == before.len() + 1
        &&& after.drop_last() == before
        &&& book_index(after, key) == before.len()
    }
}

/// The best price key of a side holding `levels` (ascending by price): the
/// highest for bids, the lowest for asks; none when it is empty.
pub open spec fn side_best<V>(levels: Seq<(u64, V)>, side: OrderSide) -> Option<u64> {
    if levels.len() == 0 {
        None
    } else {
        match side {
            OrderSide::Buy => Some(levels.last().0),
            OrderSide::Sell => Some(levels[0].0),
        }
    }
}

/// Order books of many symbols with their delta histories.
pub struct OrderBookManager<V> {
    books: Vec<BookHistory<V>>,
    max_history: usize,
}

impl<V> View for OrderBookManager<V> {
    type V = BookManagerView<V>;

    closed spec fn view(&self) -> BookManagerView<V> {
        BookManagerView { books: self.books@.map_values(|h: BookHistory<V>| h@), max_history: self.max_history }
    }
}

impl<V> OrderBookManager<V> {
    #[verifier::type_invariant]
    spec fn well_formed(self) -> bool {
        &&& book_keys_distinct(self.books@.map_values(|h: BookHistory<V>| h@))
        &&& forall|i: int| 0 <= i < self.books@.len() ==> (#[trigger] self.books@[i])@.max_history == self.max_history
    }
}

impl<V: Copy> OrderBookManager<V> {
    /// A manager keeping at most `max_history` deltas per book, with no
    /// books.
    pub fn new(max_history: usize) -> (m: Self)
        ensures
            m@.books == Seq::<BookHistoryView<V>>::empty(),
            m@.max_history == max_history,
    {
        let m = OrderBookManager { books: Vec::new(), max_history };
        assert(m.books@.map_values(|h: BookHistory<V>| h@) =~= Seq::<BookHistoryView<V>>::empty());
        m
    }

    /// Where the book of `symbol` on `exchange` is kept, if it is.
    fn find(&self, exchange: &str, symbol: &str) -> (r: Option<usize>)
        ensures
            match r {
                Some(i) => {
                    &&& has_book(self@.books, pair_key(exchange@, symbol@))
                    &&& i == book_index(self@.books, pair_key(exchange@, symbol@))
                    &&& i < self@.books.len()
                },
                None => !has_book(self@.books, pair_key(exchange@, symbol@)),
            },
    {
        proof {
            use_type_invariant(self);
        }
        let ghost key = pair_key(exchange@, symbol@);
        let ghost views = self@.books;
        let mut i: usize = 0;
        while i < self.books.len()
            invariant
                i <= self.books.len(),
                views == self@.books,
                views.len() == self.books@.len(),
                forall|j: int| 0 <= j < views.len() ==> views[j] == self.books@[j]@,
                key == pair_key(exchange@, symbol@),
                book_keys_distinct(views),
                forall|j: int| 0 <= j < i ==> book_key(#[trigger] views[j]) != key,
            decreases self.books.len() - i,
        {
            let b = self.books[i].get_book();
            if same_pair_key(b.exchange.as_str(), b.symbol.as_str(), exchange, symbol) {
                proof {
                    assert(book_key(views[i as int]) == key);
                    assert(has_book(views, key));
                    let k = book_index(views, key);
                    assert(book_key(views[k]) == key);
                }
                return Some(i);
            }
            i = i + 1;
        }
        None
    }

    /// Takes the books out, leaving none.
    fn take_books(&mut self) -> (b: Vec<BookHistory<V>>)
        ensures
            b@.map_values(|h: BookHistory<V>| h@) == old(self)@.books,
            book_keys_distinct(old(self)@.books),
            forall|i: int| 0 <= i < b@.len() ==> (#[trigger] b@[i])@.max_history == old(self)@.max_history,
            final(self)@.max_history == old(self)@.max_history,
    {
        proof {
            use_type_invariant(&*self);
        }
        let mut taken = OrderBookManager::new(self.max_history);
        std::mem::swap(self, &mut taken);
        let OrderBookManager { books, max_history } = taken;
        books
    }

    /// The kept book of `symbol` on `exchange`, made (empty, with no
    /// history) when there is none; returns where it is and the books.
    fn open_book(&mut self, exchange: &str, symbol: &str) -> (r: (Vec<BookHistory<V>>, usize))
        ensures
            ({
                let (books, i) = r;
                let views = books@.map_values(|h: BookHistory<V>| h@);
                let key = pair_key(exchange@, symbol@);
                &&& i < books@.len()
                &&& books_after_update(old(self)@.books, views, key)
                &&& i == book_index(views, key)
                &&& prior_entry(old(self)@, symbol@, exchange@, views[i as int])
                &&& book_keys_distinct(views)
                &&& forall|j: int| 0 <= j < books@.len() ==> (#[trigger] books@[j])@.max_history == old(self)@.max_history
            }),
            final(self)@.max_history == old(self)@.max_history,
    {
        let found = self.find(exchange, symbol);
        let max = self.max_history;
        let mut books = self.take_books();
        let ghost before = old(self)@.books;
        let ghost key = pair_key(exchange@, symbol@);
        match found {
            Some(i) => {
                proof {
                    assert(books@.map_values(|h: BookHistory<V>| h@)[i as int] == before[i as int]);
                }
                (books, i)
            },
            None => {
                let h = BookHistory::new(symbol.to_owned(), exchange.to_owned(), max);
                let i = books.len();
                books.push(h);
                proof {
                    let views = books@.map_values(|h: BookHistory<V>| h@);
                    assert(views.drop_last() =~= before);
                    assert(book_key(views[i as int]) == key);
                    assert forall|a: int, b: int| 0 <= a < b < views.len() implies book_key(views[a]) != book_key(views[b]) by {
                        if b == i {
                            if book_key(views[a]) == key {
                                assert(book_key(before[a]) == key);
                                assert(has_book(before, key));
                            }
                        } else {
                            assert(views[a] == before[a]);
                            assert(views[b] == before[b]);
                        }
                    }
                    assert(has_book(views, key));
                    let k = book_index(views, key);
                    assert(book_key(views[k]) == key);
                }
                (books, i)
            },
        }
    }

    /// Applies `delta` to the book of `symbol` on `exchange`, made first
    /// (empty, with no history) when there is none: an accepted delta is
    /// recorded in the book's history; a refused one is the error and
    /// changes nothing (the made book stays).
    pub fn apply_delta(&mut self, exchange: &str, symbol: &str, delta: OrderBookDelta<V>) -> (r: Result<(), OrderBookError>)
        ensures
            final(self)@.max_history == old(self)@.max_history,
            books_after_update(old(self)@.books, final(self)@.books, pair_key(exchange@, symbol@)),
            exists|e: BookHistoryView<V>| {
                &&& #[trigger] prior_entry(old(self)@, symbol@, exchange@, e)
                &&& delta_outcome(e, delta, final(self)@.books[book_index(final(self)@.books, pair_key(exchange@, symbol@))], r)
            },
    {
        let (mut books, i) = self.open_book(exchange, symbol);
        let ghost views = books@.map_values(|h: BookHistory<V>| h@);
        let ghost e = views[i as int];
        let mut h = books.remove(i);
        let r = h.apply_delta(delta);
        books.insert(i, h);
        proof {
            let nv = books@.map_values(|h: BookHistory<V>| h@);
            assert(nv =~= views.update(i as int, h@));
            assert(book_key(h@) == book_key(e));
            lemma_update_keeps_books(views, i as int, h@, pair_key(exchange@, symbol@));
            lemma_update_stays_after_update(old(self)@.books, views, i as int, h@, pair_key(exchange@, symbol@));
            assert(delta_outcome(e, delta, nv[i as int], r));
        }
        self.books = books;
        r
    }

    /// Replaces the book of `symbol` on `exchange` (made first when there
    /// is none) by `snapshot` and forgets its history.
    pub fn apply_snapshot(&mut self, exchange: &str, symbol: &str, snapshot: OrderBookSnapshot<V>)
        ensures
            final(self)@.max_history == old(self)@.max_history,
            books_after_update(old(self)@.books, final(self)@.books, pair_key(exchange@, symbol@)),
            exists|e: BookHistoryView<V>| {
                &&& #[trigger] prior_entry(old(self)@, symbol@, exchange@, e)
                &&& snapshot_outcome(e, snapshot, final(self)@.books[book_index(final(self)@.books, pair_key(exchange@, symbol@))])
            },
    {
        let (mut books, i) = self.open_book(exchange, symbol);
        let ghost views = books@.map_values(|h: BookHistory<V>| h@);
        let ghost e = views[i as int];
        let mut h = books.remove(i);
        h.apply_snapshot(snapshot);
        books.insert(i, h);
        proof {
            let nv = books@.map_values(|h: BookHistory<V>| h@);
            assert(nv =~= views.update(i as int, h@));
            assert(book_key(h@) == book_key(e));
            lemma_update_keeps_books(views, i as int, h@, pair_key(exchange@, symbol@));
            lemma_update_stays_after_update(old(self)@.books, views, i as int, h@, pair_key(exchange@, symbol@));
            assert(snapshot_outcome(e, snapshot, nv[i as int]));
        }
        self.books = books;
    }

    /// The book of `symbol` on `exchange`, if one is kept.
    pub fn get_book(&self, exchange: &str, symbol: &str) -> (r: Option<&OrderBook<V>>)
        ensures
            match r {
                Some(b) => {
                    let key = pair_key(exchange@, symbol@);
                    has_book(self@.books, key) && *b == self@.books[book_index(self@.books, key)].book
                },
                None => !has_book(self@.books, pair_key(exchange@, symbol@)),
            },
    {
        match self.find(exchange, symbol) {
            Some(i) => Some(self.books[i].get_book()),
            None => None,
        }
    }

    /// The best bid and best ask of the book of `symbol` on `exchange`:
    /// none when no book is kept or either side is empty.
    pub fn get_best_bid_ask(&self, exchange: &str, symbol: &str) -> (r: Option<(u64, u64)>)
        ensures
            ({
                let key = pair_key(exchange@, symbol@);
                if has_book(self@.books, key) {
                    let b = self@.books[book_index(self@.books, key)].book;
                    r == (match (side_best(b.bids@.levels, b.bids@.side), side_best(b.asks@.levels, b.asks@.side)) {
                        (Some(bid), Some(ask)) => Some((bid, ask)),
                        _ => None,
                    })
                } else {
                    r is None
                }
            }),
    {
        match self.get_book(exchange, symbol) {
            None => None,
            Some(b) => match (b.best_bid(), b.best_ask()) {
                (Some(bid), Some(ask)) => Some((bid, ask)),
                _ => None,
            },
        }
    }

    /// The deltas recorded for the book of `symbol` on `exchange`, oldest
    /// first; none when no book is kept.
    pub fn get_delta_history(&self, exchange: &str, symbol: &str) -> (h: Vec<&OrderBookDelta<V>>)
        ensures
            ({
                let key = pair_key(exchange@, symbol@);
                let want = if has_book(self@.books, key) {
                    self@.books[book_index(self@.books, key)].history
                } else {
                    Seq::<OrderBookDelta<V>>::empty()
                };
                &&& h@.len() == want.len()
                &&& forall|k: int| 0 <= k < h@.len() ==> *h@[k] == want[k]
            }),
    {
        let mut out: Vec<&OrderBookDelta<V>> = Vec::new();
        match self.find(exchange, symbol) {
            None => {},
            Some(i) => {
                let hist = self.books[i].get_delta_history();
                let mut k: usize = 0;
                while k < hist.len()
                    invariant
                        k <= hist@.len(),
                        out@.len() == k,
                        forall|j: int| 0 <= j < k ==> *out@[j] == hist@[j],
                    decreases hist.len() - k,
                {
                    out.push(&hist[k]);
                    k = k + 1;
                }
            },
        }
        out
    }

    /// Replays the book of `symbol` on `exchange` from its history: the
    /// recorded deltas with a sequence number above `from_sequence`, applied
    /// in order to an empty book; the first one refused ends the replay with
    /// its error. With no book kept the replay is the empty book.
    pub fn replay_book(&self, exchange: &str, symbol: &str, from_sequence: u64) -> (r: Result<OrderBook<V>, OrderBookError>)
        ensures
            ({
                let key = pair_key(exchange@, symbol@);
                if has_book(self@.books, key) {
                    let e = self@.books[book_index(self@.books, key)];
                    let sel = select_deltas(e.history, Some(from_sequence));
                    &&& (r is Ok) == sequences_increase(sel, 0)
                    &&& r matches Ok(b) ==> reconstructed(sel, e.book.symbol@, e.book.exchange@, b)
                    &&& r matches Err(err) ==> first_stale(sel, err)
                } else {
                    r matches Ok(b) && is_empty_book(b, symbol@, exchange@)
                }
            }),
    {
        match self.find(exchange, symbol) {
            Some(i) => self.books[i].replay_book(from_sequence),
            None => Ok(OrderBook::new(symbol.to_owned(), exchange.to_owned())),
        }
    }
}

/// An update of the book with `key` followed by a change of that book
/// alone is still an update of that book.
proof fn lemma_update_stays_after_update<V>(before: Seq<BookHistoryView<V>>, mid: Seq<BookHistoryView<V>>, i: int,
    n: BookHistoryView<V>, key: Seq<char>)
    requires
        books_after_update(before, mid, key),
        book_keys_distinct(mid),
        i == book_index(mid, key),
        0 <= i < mid.len(),
        book_key(n) == book_key(mid[i]),
    ensures
        books_after_update(before, mid.update(i, n), key),
{
    lemma_update_keeps_books(mid, i, n, key);
    if !has_book(before, key) {
        assert(mid.update(i, n).drop_last() =~= mid.drop_last());
    }
}

/// Replacing the kept book at the index of `key` by one with the same key
/// keeps the keys distinct and the book found where it was.
proof fn lemma_update_keeps_books<V>(books: Seq<BookHistoryView<V>>, i: int, n: BookHistoryView<V>, key: Seq<char>)
    requires
        book_keys_distinct(books),
        has_book(books, key),
        i == book_index(books, key),
        0 <= i < books.len(),
        book_key(n) == book_key(books[i]),
    ensures
        book_keys_distinct(books.update(i, n)),
        has_book(books.update(i, n), key),
        book_index(books.update(i, n), key) == i,
{
    let u = books.update(i, n);
    let k0 = book_index(books, key);
    assert(book_key(books[k0]) == key);
    assert forall|a: int, b: int| 0 <= a < b < u.len() implies book_key(u[a]) != book_key(u[b]) by {
        assert(book_key(u[a]) == book_key(books[a]));
        assert(book_key(u[b]) == book_key(books[b]));
    }
    assert(book_key(u[i]) == key);
    let k = book_index(u, key);
    assert(book_key(u[k]) == key);
}

} // verus!
