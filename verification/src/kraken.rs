//! Kraken spot-market discovery: which asset pairs become markets.
use vstd::prelude::*;
use crate::core_types::MarketId;
use crate::text::str_eq;

verus! {

/// A Kraken asset pair as listed by the AssetPairs endpoint.
#[derive(Debug, Clone)]
pub struct KrakenPair {
    pub symbol: String,
    pub base: String,
    pub quote: String,
    pub wsname: String,
    pub status: String,
}

/// A listed pair from its raw fields: pairs without base or quote are
/// skipped; a missing WebSocket name is empty and a missing status is
/// "online".
pub fn pair_from_raw(symbol: String, base: Option<String>, quote: Option<String>,
    wsname: Option<String>, status: Option<String>) -> (p: Option<KrakenPair>)
    ensures
        (p is Some) == (base is Some && quote is Some),
        p matches Some(pair) ==> {
            &&& pair.symbol == symbol
            &&& pair.base == base->0
            &&& pair.quote == quote->0
            &&& pair.wsname@ == (match wsname { Some(w) => w@, None => Seq::<char>::empty() })
            &&& pair.status@ == (match status { Some(s) => s@, None => "online"@ })
        },
{
    let base = match base { Some(b) => b, None => return None };
    let quote = match quote { Some(q) => q, None => return None };
    let wsname = match wsname { Some(w) => w, None => String::new() };
    let status = match status { Some(s) => s, None => "online".to_owned() };
    Some(KrakenPair { symbol, base, quote, wsname, status })
}

/// Whether a pair is tradable: its status is "online".
pub open spec fn pair_online(p: KrakenPair) -> bool {
    p.status@ == "online"@
}

/// The predicate selecting online pairs.
pub open spec fn online() -> spec_fn(KrakenPair) -> bool {
    |p: KrakenPair| pair_online(p)
}

/// The online pairs of `pairs`, in order.
pub open spec fn online_pairs(pairs: Seq<KrakenPair>) -> Seq<KrakenPair> {
    pairs.filter(online())
}

/// The market of an online pair: on exchange "kraken", named by its
/// WebSocket name when it has one, else by its REST symbol.
pub open spec fn pair_market_matches(p: KrakenPair, m: MarketId) -> bool {
    &&& m.exchange@ == "kraken"@
    &&& m.symbol@ == (if p.wsname@.len() == 0 { p.symbol@ } else { p.wsname@ })
    &&& m.base@ == p.base@
    &&& m.quote@ == p.quote@
}

/// The markets of the online pairs, in listing order.
pub fn discover_spot(pairs: Vec<KrakenPair>) -> (markets: Vec<MarketId>)
    ensures
        markets@.len() == online_pairs(pairs@).len(),
        forall|i: int| 0 <= i < markets@.len() ==>
            pair_market_matches(#[trigger] online_pairs(pairs@)[i], markets@[i]),
{
    let ghost orig = pairs@;
    let ghost pred = online();
    let mut pairs = pairs;
    let mut markets: Vec<MarketId> = Vec::new();
    let mut k: usize = 0;
    assert(orig.skip(0) =~= orig);
    assert(orig.len() == pairs.len());
    while pairs.len() > 0
        invariant
            k <= orig.len(),
            orig.len() <= usize::MAX,
            pairs.len() + k == orig.len(),
            pairs@ == orig.skip(k as int),
            pred == online(),
            markets@.len() == orig.take(k as int).filter(pred).len(),
            forall|i: int| 0 <= i < markets@.len() ==>
                pair_market_matches(#[trigger] orig.take(k as int).filter(pred)[i], markets@[i]),
        decreases pairs.len(),
    {
        let p = pairs.remove(0);
        let ghost prev = orig.take(k as int).filter(pred);
        proof {
            assert(p == orig[k as int]);
            assert(orig.take(k as int + 1) =~= orig.take(k as int).push(p));
            orig.take(k as int).lemma_filter_push(p, pred);
            reveal_strlit("online");
            reveal_strlit("kraken");
        }
        if str_eq(p.status.as_str(), "online") {
            let symbol = if p.wsname.as_str().is_empty() { p.symbol } else { p.wsname };
            let m = MarketId { exchange: "kraken".to_owned(), symbol, base: p.base, quote: p.quote };
            markets.push(m);
            proof {
                assert(orig.take(k as int + 1).filter(pred) == prev.push(p));
                assert forall|i: int| 0 <= i < markets@.len() implies
                    pair_market_matches(#[trigger] orig.take(k as int + 1).filter(pred)[i], markets@[i]) by {
                    if i < prev.len() {
                        assert(orig.take(k as int + 1).filter(pred)[i] == prev[i]);
                    }
                }
            }
        } else {
            proof {
                assert(orig.take(k as int + 1).filter(pred) == prev);
            }
        }
        k = k + 1;
        proof {
            assert(pairs@ =~= orig.skip(k as int));
        }
    }
    proof {
        assert(orig.take(k as int) =~= orig);
    }
    markets
}

/// The code of `c` with an ASCII capital lowered.
pub open spec fn ascii_lower(c: char) -> u32 {
    let x = c as u32;
    if 65 <= x <= 90 { (x + 32) as u32 } else { x }
}

/// `a` and `b` are the same text up to ASCII case.
pub open spec fn eq_ignore_ascii_case(a: Seq<char>, b: Seq<char>) -> bool {
    &&& a.len() == b.len()
    &&& forall|i: int| 0 <= i < a.len() ==> ascii_lower(#[trigger] a[i]) == ascii_lower(b[i])
}

/// `a` ends with `b`.
pub open spec fn ends_with(a: Seq<char>, b: Seq<char>) -> bool {
    b.len() <= a.len() && a.subrange(a.len() - b.len(), a.len() as int) == b
}

/// A market is scanned for quote `wanted` when its quote is `wanted` up to
/// ASCII case, or ends with it.
pub open spec fn quote_matches(m: MarketId, wanted: Seq<char>) -> bool {
    eq_ignore_ascii_case(m.quote@, wanted) || ends_with(m.quote@, wanted)
}

/// The markets scanned for quote `wanted`: those matching it, in order,
/// at most `limit` of them.
pub open spec fn scan_selection(markets: Seq<MarketId>, wanted: Seq<char>, limit: nat) -> Seq<MarketId> {
    let matching = markets.filter(|m: MarketId| quote_matches(m, wanted));
    if limit < matching.len() { matching.take(limit as int) } else { matching }
}

/// Whether `a` and `b` are the same text up to ASCII case.
fn same_ignoring_ascii_case(a: &str, b: &str) -> (r: bool)
    ensures
        r == eq_ignore_ascii_case(a@, b@),
{
    let n = a.unicode_len();
    if n != b.unicode_len() {
        return false;
    }
    let mut i: usize = 0;
    while i < n
        invariant
            n == a@.len(),
            n == b@.len(),
            i <= n,
            forall|j: int| 0 <= j < i ==> ascii_lower(#[trigger] a@[j]) == ascii_lower(b@[j]),
        decreases n - i,
    {
        let x = a.get_char(i) as u32;
        let y = b.get_char(i) as u32;
        let lx = if 65 <= x && x <= 90 { x + 32 } else { x };
        let ly = if 65 <= y && y <= 90 { y + 32 } else { y };
        if lx != ly {
            assert(ascii_lower(a@[i as int]) != ascii_lower(b@[i as int]));
            return false;
        }
        i = i + 1;
    }
    true
}

/// Whether `a` ends with `b`.
fn str_ends_with(a: &str, b: &str) -> (r: bool)
    ensures
        r == ends_with(a@, b@),
{
    let n = a.unicode_len();
    let m = b.unicode_len();
    if m > n {
        return false;
    }
    let off = n - m;
    let mut i: usize = 0;
    while i < m
        invariant
            n == a@.len(),
            m == b@.len(),
            off + m == n,
            i <= m,
            forall|j: int| 0 <= j < i ==> a@[off + j] == b@[j],
        decreases m - i,
    {
        if a.get_char(off + i) != b.get_char(i) {
            assert(a@.subrange(off as int, n as int)[i as int] != b@[i as int]);
            return false;
        }
        i = i + 1;
    }
    assert(a@.subrange(off as int, n as int) =~= b@);
    true
}

/// The markets to scan for quote `quote`: those whose quote is `quote` up
/// to ASCII case or ends with it, in order, at most `limit` of them.
pub fn select_scan_markets(markets: Vec<MarketId>, quote: &str, limit: usize) -> (r: Vec<MarketId>)
    ensures
        r@ == scan_selection(markets@, quote@, limit as nat),
{
    let ghost orig = markets@;
    let ghost pred = |m: MarketId| quote_matches(m, quote@);
    let mut markets = markets;
    let mut out: Vec<MarketId> = Vec::new();
    let mut k: usize = 0;
    assert(orig.skip(0) =~= orig);
    assert(orig.len() == markets.len());
    while markets.len() > 0 && out.len() < limit
        invariant
            k <= orig.len(),
            orig.len() <= usize::MAX,
            markets.len() + k == orig.len(),
            markets@ == orig.skip(k as int),
            pred == (|m: MarketId| quote_matches(m, quote@)),
            out@ == orig.take(k as int).filter(pred),
            out@.len() <= limit,
        decreases markets.len(),
    {
        let m = markets.remove(0);
        proof {
            assert(m == orig[k as int]);
            assert(orig.take(k as int + 1) =~= orig.take(k as int).push(m));
            orig.take(k as int).lemma_filter_push(m, pred);
        }
        if same_ignoring_ascii_case(m.quote.as_str(), quote) || str_ends_with(m.quote.as_str(), quote) {
            out.push(m);
        }
        k = k + 1;
        proof {
            assert(markets@ =~= orig.skip(k as int));
        }
    }
    proof {
        let all = orig.filter(pred);
        lemma_filter_prefix(orig, k as int, pred);
        if out@.len() < limit {
            assert(k == orig.len());
            assert(orig.take(k as int) =~= orig);
        } else {
            assert(out@.len() == limit);
        }
    }
    out
}

/// The filter of a prefix of `s` is a prefix of the filter of `s`; once
/// the whole of `s` is taken the two are equal.
proof fn lemma_filter_prefix<A>(s: Seq<A>, k: int, pred: spec_fn(A) -> bool)
    requires
        0 <= k <= s.len(),
    ensures
        s.take(k).filter(pred).len() <= s.filter(pred).len(),
        s.take(k).filter(pred) == s.filter(pred).take(s.take(k).filter(pred).len() as int),
    decreases s.len() - k,
{
    if k < s.len() {
        lemma_filter_prefix(s, k + 1, pred);
        assert(s.take(k + 1) =~= s.take(k).push(s[k]));
        s.take(k).lemma_filter_push(s[k], pred);
        let big = s.filter(pred);
        let mid = s.take(k + 1).filter(pred);
        let small = s.take(k).filter(pred);
        if pred(s[k]) {
            assert(mid == small.push(s[k]));
            assert(small =~= mid.take(small.len() as int));
            assert(small =~= big.take(small.len() as int));
        } else {
            assert(mid == small);
        }
    } else {
        assert(s.take(k) =~= s);
        assert(s.filter(pred).take(s.filter(pred).len() as int) =~= s.filter(pred));
    }
}

/// The symbol a scanned market is fetched by: its symbol, or its base when
/// the symbol is empty.
pub fn scan_symbol(m: &MarketId) -> (s: &String)
    ensures
        *s == (if m.symbol@.len() == 0 { m.base } else { m.symbol }),
{
    if m.symbol.as_str().is_empty() {
        &m.base
    } else {
        &m.symbol
    }
}

} // verus!
