//! The archives of many symbols, each kept under its "exchange:symbol" key
//! and made on first use.
use vstd::prelude::*;
use crate::archives::{
    book_archived, fresh_archive, observation_archived, record_defined, trade_archived, tracker_recorded, ArchivesConfig, DataGap,
    StreamKind, SymbolArchive,
};
use crate::storage::StorageConfig;
use crate::text::{pair_key, same_pair_key};

verus! {

/// The key of an archive: its exchange and symbol joined by a colon.
pub open spec fn archive_key<O, T, B>(a: SymbolArchive<O, T, B>) -> Seq<char> {
    pair_key(a.tracker@.exchange, a.tracker@.symbol)
}

/// No two archives share a key.
pub open spec fn archive_keys_distinct<O, T, B>(archives: Seq<SymbolArchive<O, T, B>>) -> bool {
    forall|i: int, j: int| 0 <= i < j < archives.len() ==> archive_key(archives[i]) != archive_key(archives[j])
}

/// Some archive has `key`.
pub open spec fn has_archive<O, T, B>(archives: Seq<SymbolArchive<O, T, B>>, key: Seq<char>) -> bool {
    exists|i: int| 0 <= i < archives.len() && archive_key(#[trigger] archives[i]) == key
}

/// Where the archive with `key` is (meaningful when some archive has it).
pub open spec fn archive_index<O, T, B>(archives: Seq<SymbolArchive<O, T, B>>, key: Seq<char>) -> int {
    choose|i: int| 0 <= i < archives.len() && archive_key(#[trigger] archives[i]) == key
}

/// What the manager holds: its configuration and the archives, in the
/// order they were made.
pub struct ArchiveManagerView<O, T, B> {
    pub config: ArchivesConfig,
    pub archives: Seq<SymbolArchive<O, T, B>>,
}

/// `a` is what archiving for `symbol` on `exchange` starts from: the
/// archive with that key, or else an empty one.
pub open spec fn prior_archive<O, T, B>(v: ArchiveManagerView<O, T, B>, symbol: Seq<char>, exchange: Seq<char>,
    a: SymbolArchive<O, T, B>) -> bool {
    let key = pair_key(exchange, symbol);
    if has_archive(v.archives, key) {
        a == v.archives[archive_index(v.archives, key)]
    } else {
        fresh_archive(a, v.config, symbol, exchange)
    }
}

/// The archives after archiving under `key`: the same archives, with one
/// more at the end when none had the key; every other archive is unchanged
/// and the one written to has the key.
pub open spec fn archives_after_update<O, T, B>(before: Seq<SymbolArchive<O, T, B>>, after: Seq<SymbolArchive<O, T, B>>,
    key: Seq<char>) -> bool {
    &&& has_archive(after, key)
    &&& if has_archive(before, key) {
        &&& after.len() == before.len()
        &&& archive_index(after, key) == archive_index(before, key)
        &&& forall|j: int| 0 <= j < before.len() && j != archive_index(before, key) ==> after[j] == before[j]
    } else {
        &&& after.len() == before.len() + 1
        &&& after.drop_last() == before
        &&& archive_index(after, key) == before.len()
    }
}

/// Whether archiving a record of stream `kind` stamped `timestamp` under
/// `key` is defined: the gap arithmetic of an existing archive stays within
/// `u64`.
pub open spec fn archive_ready<O, T, B>(v: ArchiveManagerView<O, T, B>, key: Seq<char>, kind: StreamKind,
    timestamp: u64) -> bool {
    has_archive(v.archives, key) ==> record_defined(v.archives[archive_index(v.archives, key)].tracker@, kind, timestamp)
}

/// The gaps of all `archives`, archive by archive, each oldest first.
pub open spec fn all_gaps<O, T, B>(archives: Seq<SymbolArchive<O, T, B>>) -> Seq<DataGap>
    decreases archives.len(),
{
    if archives.len() == 0 {
        Seq::empty()
    } else {
        all_gaps(archives.drop_last()) + archives.last().tracker@.gaps
    }
}

/// A copy of `c`.
fn copy_config(c: &ArchivesConfig) -> (r: ArchivesConfig)
    ensures
        r == *c,
{
    ArchivesConfig {
        storage_config: StorageConfig {
            base_path: c.storage_config.base_path.clone(),
            compression: c.storage_config.compression,
            row_group_size: c.storage_config.row_group_size,
            max_batch_size: c.storage_config.max_batch_size,
        },
        gap_detection_threshold_ms: c.gap_detection_threshold_ms,
        max_gap_size_ms: c.max_gap_size_ms,
        replay_batch_size: c.replay_batch_size,
    }
}

/// Archives of many symbols.
pub struct ArchiveManager<O, T, B> {
    config: ArchivesConfig,
    archives: Vec<SymbolArchive<O, T, B>>,
}

impl<O, T, B> View for ArchiveManager<O, T, B> {
    type V = ArchiveManagerView<O, T, B>;

    closed spec fn view(&self) -> ArchiveManagerView<O, T, B> {
        ArchiveManagerView { config: self.config, archives: self.archives@ }
    }
}

impl<O, T, B> ArchiveManager<O, T, B> {
    #[verifier::type_invariant]
    spec fn well_formed(self) -> bool {
        archive_keys_distinct(self.archives@)
    }

    /// A manager with `config` and no archives.
    pub fn new(config: ArchivesConfig) -> (m: Self)
        ensures
            m@.config == config,
            m@.archives == Seq::<SymbolArchive<O, T, B>>::empty(),
    {
        ArchiveManager { config, archives: Vec::new() }
    }

    /// The archives, in the order they were made.
    pub fn archives(&self) -> (a: &[SymbolArchive<O, T, B>])
        ensures
            a@ == self@.archives,
    {
        self.archives.as_slice()
    }

    /// Where the archive of `symbol` on `exchange` is, if there is one.
    fn find(&self, exchange: &str, symbol: &str) -> (r: Option<usize>)
        ensures
            match r {
                Some(i) => {
                    &&& has_archive(self@.archives, pair_key(exchange@, symbol@))
                    &&& i == archive_index(self@.archives, pair_key(exchange@, symbol@))
                    &&& i < self@.archives.len()
                },
                None => !has_archive(self@.archives, pair_key(exchange@, symbol@)),
            },
    {
        proof {
            use_type_invariant(self);
        }
        let ghost key = pair_key(exchange@, symbol@);
        let mut i: usize = 0;
        while i < self.archives.len()
            invariant
                i <= self.archives.len(),
                key == pair_key(exchange@, symbol@),
                archive_keys_distinct(self.archives@),
                forall|j: int| 0 <= j < i ==> archive_key(#[trigger] self.archives@[j]) != key,
            decreases self.archives.len() - i,
        {
            let t = &self.archives[i].tracker;
            if same_pair_key(t.exchange(), t.symbol(), exchange, symbol) {
                proof {
                    assert(archive_key(self.archives@[i as int]) == key);
                    assert(has_archive(self.archives@, key));
                    let k = archive_index(self.archives@, key);
                    assert(archive_key(self.archives@[k]) == key);
                }
                return Some(i);
            }
            i = i + 1;
        }
        None
    }

    /// The archive of `symbol` on `exchange`, if there is one.
    pub fn get_archive(&self, exchange: &str, symbol: &str) -> (r: Option<&SymbolArchive<O, T, B>>)
        ensures
            match r {
                Some(a) => {
                    let key = pair_key(exchange@, symbol@);
                    has_archive(self@.archives, key) && *a == self@.archives[archive_index(self@.archives, key)]
                },
                None => !has_archive(self@.archives, pair_key(exchange@, symbol@)),
            },
    {
        match self.find(exchange, symbol) {
            Some(i) => Some(&self.archives[i]),
            None => None,
        }
    }

    /// Whether archiving a record of stream `kind` stamped `timestamp` for
    /// `symbol` on `exchange` is defined (see [`archive_ready`]).
    pub fn can_archive(&self, exchange: &str, symbol: &str, kind: StreamKind, timestamp: u64) -> (b: bool)
        ensures
            b == archive_ready(self@, pair_key(exchange@, symbol@), kind, timestamp),
    {
        match self.find(exchange, symbol) {
            Some(i) => self.archives[i].tracker.can_record(kind, timestamp),
            None => true,
        }
    }

    /// Takes the archives out, leaving none.
    fn take_archives(&mut self) -> (a: Vec<SymbolArchive<O, T, B>>)
        ensures
            a@ == old(self)@.archives,
            archive_keys_distinct(a@),
            final(self)@.config == old(self)@.config,
    {
        proof {
            use_type_invariant(&*self);
        }
        let mut taken = ArchiveManager::new(copy_config(&self.config));
        std::mem::swap(self, &mut taken);
        let ArchiveManager { config, archives } = taken;
        archives
    }

    /// The archive of `symbol` on `exchange`, made empty when there is
    /// none; returns where it is and the archives.
    fn open_archive(&mut self, exchange: &str, symbol: &str) -> (r: (Vec<SymbolArchive<O, T, B>>, usize))
        ensures
            ({
                let (archives, i) = r;
                let key = pair_key(exchange@, symbol@);
                &&& i < archives@.len()
                &&& archives_after_update(old(self)@.archives, archives@, key)
                &&& i == archive_index(archives@, key)
                &&& prior_archive(old(self)@, symbol@, exchange@, archives@[i as int])
                &&& archive_keys_distinct(archives@)
            }),
            final(self)@.config == old(self)@.config,
    {
        let found = self.find(exchange, symbol);
        let mut archives = self.take_archives();
        let ghost before = old(self)@.archives;
        let ghost key = pair_key(exchange@, symbol@);
        match found {
            Some(i) => (archives, i),
            None => {
                let a = SymbolArchive::new(&self.config, symbol.to_owned(), exchange.to_owned());
                let i = archives.len();
                archives.push(a);
                proof {
                    let v = archives@;
                    assert(v.drop_last() =~= before);
                    assert(archive_key(v[i as int]) == key);
                    assert forall|x: int, y: int| 0 <= x < y < v.len() implies archive_key(v[x]) != archive_key(v[y]) by {
                        if y == i {
                            if archive_key(v[x]) == key {
                                assert(archive_key(before[x]) == key);
                                assert(has_archive(before, key));
                            }
                        } else {
                            assert(v[x] == before[x]);
                            assert(v[y] == before[y]);
                        }
                    }
                    assert(has_archive(v, key));
                    let k = archive_index(v, key);
                    assert(archive_key(v[k]) == key);
                }
                (archives, i)
            },
        }
    }

    /// Archives observation `obs` stamped `timestamp` for `symbol` on
    /// `exchange`, in its archive (made first when there is none): gap
    /// detection on the observation stream, then the write queue. Returns
    /// the detected gap and the full batch to write, if any.
    pub fn add_observation(&mut self, exchange: &str, symbol: &str, obs: O, timestamp: u64)
        -> (r: (Option<DataGap>, Option<Vec<O>>))
        requires
            archive_ready(old(self)@, pair_key(exchange@, symbol@), StreamKind::Observation, timestamp),
        ensures
            final(self)@.config == old(self)@.config,
            archives_after_update(old(self)@.archives, final(self)@.archives, pair_key(exchange@, symbol@)),
            exists|a: SymbolArchive<O, T, B>| {
                &&& #[trigger] prior_archive(old(self)@, symbol@, exchange@, a)
                &&& observation_archived(a, final(self)@.archives[archive_index(final(self)@.archives,
                    pair_key(exchange@, symbol@))], obs, timestamp, r)
            },
    {
        let (mut archives, i) = self.open_archive(exchange, symbol);
        let ghost before = archives@;
        let mut a = archives.remove(i);
        let ghost a0 = a;
        let r = a.add_observation(obs, timestamp);
        archives.insert(i, a);
        proof {
            assert(archives@ =~= before.update(i as int, a));
            lemma_update_stays_after_update(old(self)@.archives, before, i as int, a, pair_key(exchange@, symbol@));
            assert(observation_archived(a0, archives@[i as int], obs, timestamp, r));
        }
        self.archives = archives;
        r
    }

    /// Archives trade `trade` stamped `timestamp` for `symbol` on
    /// `exchange` (see [`ArchiveManager::add_observation`]).
    pub fn add_trade(&mut self, exchange: &str, symbol: &str, trade: T, timestamp: u64)
        -> (r: (Option<DataGap>, Option<Vec<T>>))
        requires
            archive_ready(old(self)@, pair_key(exchange@, symbol@), StreamKind::Trade, timestamp),
        ensures
            final(self)@.config == old(self)@.config,
            archives_after_update(old(self)@.archives, final(self)@.archives, pair_key(exchange@, symbol@)),
            exists|a: SymbolArchive<O, T, B>| {
                &&& #[trigger] prior_archive(old(self)@, symbol@, exchange@, a)
                &&& trade_archived(a, final(self)@.archives[archive_index(final(self)@.archives,
                    pair_key(exchange@, symbol@))], trade, timestamp, r)
            },
    {
        let (mut archives, i) = self.open_archive(exchange, symbol);
        let ghost before = archives@;
        let mut a = archives.remove(i);
        let ghost a0 = a;
        let r = a.add_trade(trade, timestamp);
        archives.insert(i, a);
        proof {
            assert(archives@ =~= before.update(i as int, a));
            lemma_update_stays_after_update(old(self)@.archives, before, i as int, a, pair_key(exchange@, symbol@));
            assert(trade_archived(a0, archives@[i as int], trade, timestamp, r));
        }
        self.archives = archives;
        r
    }

    /// Archives order book `book` stamped `timestamp` for `symbol` on
    /// `exchange` (see [`ArchiveManager::add_observation`]).
    pub fn add_orderbook(&mut self, exchange: &str, symbol: &str, book: B, timestamp: u64)
        -> (r: (Option<DataGap>, Option<Vec<B>>))
        requires
            archive_ready(old(self)@, pair_key(exchange@, symbol@), StreamKind::OrderBook, timestamp),
        ensures
            final(self)@.config == old(self)@.config,
            archives_after_update(old(self)@.archives, final(self)@.archives, pair_key(exchange@, symbol@)),
            exists|a: SymbolArchive<O, T, B>| {
                &&& #[trigger] prior_archive(old(self)@, symbol@, exchange@, a)
                &&& book_archived(a, final(self)@.archives[archive_index(final(self)@.archives,
                    pair_key(exchange@, symbol@))], book, timestamp, r)
            },
    {
        let (mut archives, i) = self.open_archive(exchange, symbol);
        let ghost before = archives@;
        let mut a = archives.remove(i);
        let ghost a0 = a;
        let r = a.add_orderbook(book, timestamp);
        archives.insert(i, a);
        proof {
            assert(archives@ =~= before.update(i as int, a));
            lemma_update_stays_after_update(old(self)@.archives, before, i as int, a, pair_key(exchange@, symbol@));
            assert(book_archived(a0, archives@[i as int], book, timestamp, r));
        }
        self.archives = archives;
        r
    }

    /// The observations of `symbol` on `exchange` archived between
    /// `start_ts` and `end_ts`, read back from storage through its archive
    /// (made first when there is none; see
    /// [`SymbolArchive::replay_observations`]): nothing is read back yet, so
    /// the list is always empty.
    pub fn replay(&mut self, exchange: &str, symbol: &str, start_ts: u64, end_ts: u64) -> (r: Vec<O>)
        ensures
            r@ == Seq::<O>::empty(),
            final(self)@.config == old(self)@.config,
            exists|a: SymbolArchive<O, T, B>| {
                &&& #[trigger] prior_archive(old(self)@, symbol@, exchange@, a)
                &&& final(self)@.archives == if has_archive(old(self)@.archives, pair_key(exchange@, symbol@)) {
                    old(self)@.archives
                } else {
                    old(self)@.archives.push(a)
                }
            },
    {
        let (archives, i) = self.open_archive(exchange, symbol);
        let r = archives[i].replay_observations(start_ts, end_ts);
        proof {
            let key = pair_key(exchange@, symbol@);
            let b = old(self)@.archives;
            let a = archives@[i as int];
            assert(prior_archive(old(self)@, symbol@, exchange@, a));
            if has_archive(b, key) {
                assert(archives@ =~= b);
            } else {
                assert(archives@ =~= b.push(a));
            }
        }
        self.archives = archives;
        r
    }

    /// The gaps of all archives, archive by archive, each oldest first.
    pub fn get_all_gaps(&self) -> (g: Vec<&DataGap>)
        ensures
            g@.len() == all_gaps(self@.archives).len(),
            forall|k: int| 0 <= k < g@.len() ==> *g@[k] == all_gaps(self@.archives)[k],
    {
        let mut out: Vec<&DataGap> = Vec::new();
        let mut i: usize = 0;
        while i < self.archives.len()
            invariant
                i <= self.archives.len(),
                out@.len() == all_gaps(self@.archives.take(i as int)).len(),
                forall|k: int| 0 <= k < out@.len() ==> *out@[k] == all_gaps(self@.archives.take(i as int))[k],
            decreases self.archives.len() - i,
        {
            proof {
                assert(self@.archives.take(i as int + 1).drop_last() =~= self@.archives.take(i as int));
                assert(self@.archives.take(i as int + 1).last() == self@.archives[i as int]);
            }
            let gaps = self.archives[i].tracker.gaps();
            let ghost start = out@.len();
            let mut k: usize = 0;
            while k < gaps.len()
                invariant
                    k <= gaps@.len(),
                    start == all_gaps(self@.archives.take(i as int)).len(),
                    out@.len() == start + k,
                    forall|q: int| 0 <= q < start ==> *out@[q] == all_gaps(self@.archives.take(i as int))[q],
                    forall|q: int| 0 <= q < k ==> *out@[start + q] == gaps@[q],
                decreases gaps.len() - k,
            {
                out.push(&gaps[k]);
                k = k + 1;
            }
            proof {
                let next = all_gaps(self@.archives.take(i as int + 1));
                assert(next =~= all_gaps(self@.archives.take(i as int)) + gaps@);
                assert forall|q: int| 0 <= q < out@.len() implies *out@[q] == next[q] by {
                    if q >= start {
                        assert(*out@[start + (q - start)] == gaps@[q - start]);
                    }
                }
            }
            i = i + 1;
        }
        proof {
            assert(self@.archives.take(i as int) =~= self@.archives);
        }
        out
    }

    /// Takes out everything queued in every archive, for writing: one
    /// entry per archive, in order, each as [`SymbolArchive::flush_all`]
    /// returns it.
    pub fn flush_all(&mut self) -> (r: Vec<(Option<Vec<O>>, Option<Vec<T>>, Option<Vec<B>>)>)
        ensures
            final(self)@.config == old(self)@.config,
            final(self)@.archives.len() == old(self)@.archives.len(),
            r@.len() == old(self)@.archives.len(),
            forall|j: int| 0 <= j < old(self)@.archives.len() ==> {
                let a = #[trigger] old(self)@.archives[j];
                let b = final(self)@.archives[j];
                let out = r@[j];
                &&& b.tracker@ == a.tracker@
                &&& b.observations@.pending == Seq::<O>::empty()
                &&& b.trades@.pending == Seq::<T>::empty()
                &&& b.books@.pending == Seq::<B>::empty()
                &&& b.observations@.batch_size == a.observations@.batch_size
                &&& b.trades@.batch_size == a.trades@.batch_size
                &&& b.books@.batch_size == a.books@.batch_size
                &&& a.observations@.pending.len() > 0 ==> (out.0 matches Some(v) && v@ == a.observations@.pending)
                &&& a.observations@.pending.len() == 0 ==> out.0 is None
                &&& a.trades@.pending.len() > 0 ==> (out.1 matches Some(v) && v@ == a.trades@.pending)
                &&& a.trades@.pending.len() == 0 ==> out.1 is None
                &&& a.books@.pending.len() > 0 ==> (out.2 matches Some(v) && v@ == a.books@.pending)
                &&& a.books@.pending.len() == 0 ==> out.2 is None
            },
    {
        let mut archives = self.take_archives();
        let ghost orig = archives@;
        let mut kept: Vec<SymbolArchive<O, T, B>> = Vec::new();
        let mut out: Vec<(Option<Vec<O>>, Option<Vec<T>>, Option<Vec<B>>)> = Vec::new();
        let mut k: usize = 0;
        assert(orig.skip(0) =~= orig);
        assert(orig.len() == archives.len());
        while archives.len() > 0
            invariant
                k <= orig.len(),
                orig.len() <= usize::MAX,
                archives.len() + k == orig.len(),
                archives@ == orig.skip(k as int),
                kept@.len() == k,
                out@.len() == k,
                forall|j: int| 0 <= j < k ==> {
                    let a = #[trigger] orig[j];
                    let b = kept@[j];
                    let o = out@[j];
                    &&& b.tracker@ == a.tracker@
                    &&& b.observations@.pending == Seq::<O>::empty()
                    &&& b.trades@.pending == Seq::<T>::empty()
                    &&& b.books@.pending == Seq::<B>::empty()
                    &&& b.observations@.batch_size == a.observations@.batch_size
                    &&& b.trades@.batch_size == a.trades@.batch_size
                    &&& b.books@.batch_size == a.books@.batch_size
                    &&& a.observations@.pending.len() > 0 ==> (o.0 matches Some(v) && v@ == a.observations@.pending)
                    &&& a.observations@.pending.len() == 0 ==> o.0 is None
                    &&& a.trades@.pending.len() > 0 ==> (o.1 matches Some(v) && v@ == a.trades@.pending)
                    &&& a.trades@.pending.len() == 0 ==> o.1 is None
                    &&& a.books@.pending.len() > 0 ==> (o.2 matches Some(v) && v@ == a.books@.pending)
                    &&& a.books@.pending.len() == 0 ==> o.2 is None
                },
            decreases archives.len(),
        {
            let mut a = archives.remove(0);
            assert(a == orig[k as int]);
            let batches = a.flush_all();
            kept.push(a);
            out.push(batches);
            k = k + 1;
            proof {
                assert(archives@ =~= orig.skip(k as int));
            }
        }
        proof {
            assert forall|x: int, y: int| 0 <= x < y < kept@.len() implies archive_key(kept@[x]) != archive_key(kept@[y]) by {
                assert(archive_key(kept@[x]) == archive_key(orig[x]));
                assert(archive_key(kept@[y]) == archive_key(orig[y]));
            }
        }
        self.archives = kept;
        out
    }
}

/// An update under `key` followed by a change of that archive alone (its
/// key kept) is still an update under `key`.
proof fn lemma_update_stays_after_update<O, T, B>(before: Seq<SymbolArchive<O, T, B>>, mid: Seq<SymbolArchive<O, T, B>>,
    i: int, n: SymbolArchive<O, T, B>, key: Seq<char>)
    requires
        archives_after_update(before, mid, key),
        archive_keys_distinct(mid),
        i == archive_index(mid, key),
        0 <= i < mid.len(),
        archive_key(n) == archive_key(mid[i]),
    ensures
        archives_after_update(before, mid.update(i, n), key),
        archive_keys_distinct(mid.update(i, n)),
{
    let u = mid.update(i, n);
    let k0 = archive_index(mid, key);
    assert(archive_key(mid[k0]) == key);
    assert forall|a: int, b: int| 0 <= a < b < u.len() implies archive_key(u[a]) != archive_key(u[b]) by {
        assert(archive_key(u[a]) == archive_key(mid[a]));
        assert(archive_key(u[b]) == archive_key(mid[b]));
    }
    assert(archive_key(u[i]) == key);
    let k = archive_index(u, key);
    assert(archive_key(u[k]) == key);
    if !has_archive(before, key) {
        assert(u.drop_last() =~= mid.drop_last());
    }
}


/// The gaps of archives side by side are the gaps of each part in turn.
proof fn lemma_all_gaps_concat<O, T, B>(s1: Seq<SymbolArchive<O, T, B>>, s2: Seq<SymbolArchive<O, T, B>>)
    ensures
        all_gaps(s1 + s2) == all_gaps(s1) + all_gaps(s2),
    decreases s2.len(),
{
    if s2.len() == 0 {
        assert(s1 + s2 =~= s1);
        assert(all_gaps(s1) + all_gaps(s2) =~= all_gaps(s1));
    } else {
        lemma_all_gaps_concat(s1, s2.drop_last());
        assert((s1 + s2).drop_last() =~= s1 + s2.drop_last());
        assert(all_gaps(s1 + s2) =~= all_gaps(s1) + all_gaps(s2));
    }
}

/// The gaps of archives, split around the archive at `i`.
proof fn lemma_all_gaps_split<O, T, B>(s: Seq<SymbolArchive<O, T, B>>, i: int)
    requires
        0 <= i < s.len(),
    ensures
        all_gaps(s) == all_gaps(s.take(i)) + s[i].tracker@.gaps + all_gaps(s.skip(i + 1)),
{
    let one = seq![s[i]];
    assert(s =~= s.take(i) + one + s.skip(i + 1));
    lemma_all_gaps_concat(s.take(i) + one, s.skip(i + 1));
    lemma_all_gaps_concat(s.take(i), one);
    assert(one.drop_last() =~= Seq::<SymbolArchive<O, T, B>>::empty());
    assert(all_gaps(one.drop_last()) == Seq::<DataGap>::empty());
    assert(one.last() == s[i]);
    assert(all_gaps(one) =~= Seq::<DataGap>::empty() + s[i].tracker@.gaps);
    assert(all_gaps(one) =~= s[i].tracker@.gaps);
}

/// The multiset of gaps, when the part in the middle grows by `gap`.
proof fn lemma_gap_multiset_grows(a: Seq<DataGap>, m: Seq<DataGap>, m2: Seq<DataGap>, c: Seq<DataGap>,
    gap: Option<DataGap>)
    requires
        gap matches Some(g) ==> m2 == m.push(g),
        gap is None ==> m2 == m,
    ensures
        (a + m2 + c).to_multiset() == match gap {
            Some(g) => (a + m + c).to_multiset().insert(g),
            None => (a + m + c).to_multiset(),
        },
{
    broadcast use vstd::seq_lib::group_to_multiset_ensures;
    broadcast use vstd::multiset::group_multiset_axioms;

    vstd::seq_lib::lemma_multiset_commutative(a + m2, c);
    vstd::seq_lib::lemma_multiset_commutative(a + m, c);
    vstd::seq_lib::lemma_multiset_commutative(a, m2);
    vstd::seq_lib::lemma_multiset_commutative(a, m);
    if let Some(g) = gap {
        assert(m2.to_multiset() =~= m.to_multiset().insert(g));
        assert((a + m2 + c).to_multiset() =~= (a + m + c).to_multiset().insert(g));
    }
}

/// Archiving a record loses no gap: afterwards the gaps of all archives
/// are those before, together with the gap the call reported, if any.
/// `a` is the archive the call started from, as the `ensures` of
/// [`ArchiveManager::add_observation`], [`ArchiveManager::add_trade`] and
/// [`ArchiveManager::add_orderbook`] give it.
pub proof fn lemma_archiving_keeps_gaps<O, T, B>(before: ArchiveManagerView<O, T, B>,
    after: ArchiveManagerView<O, T, B>, exchange: Seq<char>, symbol: Seq<char>, a: SymbolArchive<O, T, B>,
    kind: StreamKind, timestamp: u64, gap: Option<DataGap>)
    requires
        archives_after_update(before.archives, after.archives, pair_key(exchange, symbol)),
        prior_archive(before, symbol, exchange, a),
        tracker_recorded(a.tracker@, after.archives[archive_index(after.archives, pair_key(exchange, symbol))].tracker@,
            kind, timestamp, gap),
    ensures
        all_gaps(after.archives).to_multiset() == match gap {
            Some(g) => all_gaps(before.archives).to_multiset().insert(g),
            None => all_gaps(before.archives).to_multiset(),
        },
{
    let key = pair_key(exchange, symbol);
    let b = before.archives;
    let c = after.archives;
    let i = archive_index(c, key);
    if has_archive(b, key) {
        assert(0 <= i < b.len()) by {
            let k = archive_index(b, key);
            assert(archive_key(b[k]) == key);
        }
        lemma_all_gaps_split(b, i);
        lemma_all_gaps_split(c, i);
        assert(b.take(i) =~= c.take(i));
        assert(b.skip(i + 1) =~= c.skip(i + 1));
        lemma_gap_multiset_grows(all_gaps(b.take(i)), b[i].tracker@.gaps, c[i].tracker@.gaps,
            all_gaps(b.skip(i + 1)), gap);
    } else {
        assert(c.drop_last() == b);
        let e = Seq::<DataGap>::empty();
        assert(a.tracker@.gaps == e);
        assert(all_gaps(c) == all_gaps(b) + c[i].tracker@.gaps);
        lemma_gap_multiset_grows(all_gaps(b), e, c[i].tracker@.gaps, e, gap);
        assert(all_gaps(b) + e + e =~= all_gaps(b));
        assert(all_gaps(b) + c[i].tracker@.gaps + e =~= all_gaps(c));
    }
}

} // verus!
