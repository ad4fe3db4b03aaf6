//! News and on-chain ingestion: sources, the storage location, the
//! ingestion settings and the keyword alerts.
use vstd::prelude::*;

verus! {

/// Where a news item came from.
#[derive(Debug, Clone, Copy, PartialEq, Eq, Structural)]
pub enum NewsSource {
    RedditRss,
    RedditJson,
    GoogleNews,
    OfficialFeed,
    OnChain,
}

/// Stores news and on-chain events under `base_path`.
pub struct NewsStorage {
    pub base_path: String,
}

impl NewsStorage {
    /// Storage rooted at `base_path`.
    pub fn new(base_path: String) -> (s: Self)
        ensures
            s.base_path == base_path,
    {
        NewsStorage { base_path }
    }
}

/// Settings of the news and on-chain ingestion run.
#[derive(Debug, Clone)]
pub struct IngestionConfig {
    pub reddit_subreddits: Vec<String>,
    pub enable_reddit: bool,
    pub google_query: String,
    pub news_api_key: Option<String>,
    pub news_api_query: String,
    pub rpc_url: String,
    pub onchain_address: String,
    pub storage_path: String,
}

impl Default for IngestionConfig {
    fn default() -> (c: Self)
        ensures
            c.reddit_subreddits@.len() == 2,
            c.reddit_subreddits@[0]@ == "CryptoCurrency"@,
            c.reddit_subreddits@[1]@ == "Bitcoin"@,
            !c.enable_reddit,
            c.google_query@ == "cryptocurrency market"@,
            c.news_api_key is None,
            c.news_api_query@ == "cryptocurrency"@,
            c.rpc_url@ == "https://eth.llamarpc.com"@,
            c.onchain_address@ == "0x0000000000000000000000000000000000000000"@,
            c.storage_path@ == "data/news"@,
    {
        IngestionConfig {
            reddit_subreddits: vec!["CryptoCurrency".to_owned(), "Bitcoin".to_owned()],
            enable_reddit: false,
            google_query: "cryptocurrency market".to_owned(),
            news_api_key: None,
            news_api_query: "cryptocurrency".to_owned(),
            rpc_url: "https://eth.llamarpc.com".to_owned(),
            onchain_address: "0x0000000000000000000000000000000000000000".to_owned(),
            storage_path: "data/news".to_owned(),
        }
    }
}

/// The lowercase form of `s` that std's `str::to_lowercase` gives (Unicode
/// lowercase mapping of every character).
pub uninterp spec fn lowercase(s: Seq<char>) -> Seq<char>;

/// std's `str::to_lowercase`. The result is named, not described: it is
/// `lowercase` of the text.
#[verifier::external_body]
fn to_lowercase(s: &str) -> (r: String)
    ensures
        r@ == lowercase(s@),
{
    s.to_lowercase()
}

/// `needle` occurs in `hay` at position `i`.
pub open spec fn occurs_at(hay: Seq<char>, needle: Seq<char>, i: int) -> bool {
    0 <= i && i + needle.len() <= hay.len() && hay.subrange(i, i + needle.len()) == needle
}

/// `needle` occurs somewhere in `hay`.
pub open spec fn contains_seq(hay: Seq<char>, needle: Seq<char>) -> bool {
    exists|i: int| #[trigger] occurs_at(hay, needle, i)
}

/// Whether `needle` occurs in `hay`.
fn str_contains(hay: &str, needle: &str) -> (b: bool)
    ensures
        b == contains_seq(hay@, needle@),
{
    let h = hay.unicode_len();
    let n = needle.unicode_len();
    if n > h {
        proof {
            assert forall|i: int| !occurs_at(hay@, needle@, i) by {}
        }
        return false;
    }
    let mut i: usize = 0;
    while i <= h - n
        invariant
            h == hay@.len(),
            n == needle@.len(),
            n <= h,
            i <= h - n + 1,
            forall|j: int| 0 <= j < i ==> !occurs_at(hay@, needle@, j),
        decreases h - n + 1 - i,
    {
        let mut k: usize = 0;
        let mut same = true;
        while k < n
            invariant
                h == hay@.len(),
                n == needle@.len(),
                i + n <= h,
                k <= n,
                same == (forall|q: int| 0 <= q < k ==> hay@[i + q] == needle@[q]),
            decreases n - k,
        {
            if hay.get_char(i + k) != needle.get_char(k) {
                same = false;
            }
            k = k + 1;
        }
        if same {
            proof {
                assert(hay@.subrange(i as int, i + n) =~= needle@);
                assert(occurs_at(hay@, needle@, i as int));
            }
            return true;
        }
        proof {
            if occurs_at(hay@, needle@, i as int) {
                assert forall|q: int| 0 <= q < n implies hay@[i + q] == needle@[q] by {
                    assert(hay@.subrange(i as int, i + n)[q] == hay@[i + q]);
                }
            }
        }
        i = i + 1;
    }
    proof {
        assert forall|j: int| !occurs_at(hay@, needle@, j) by {
            if occurs_at(hay@, needle@, j) {
                assert(0 <= j < i);
            }
        }
    }
    false
}

/// Whether `text` mentions `keyword`, ignoring case: the keyword's
/// lowercase form occurs in the text's.
pub fn keyword_match(text: &str, keyword: &str) -> (b: bool)
    ensures
        b == contains_seq(lowercase(text@), lowercase(keyword@)),
{
    let t = to_lowercase(text);
    let k = to_lowercase(keyword);
    str_contains(t.as_str(), k.as_str())
}

/// The positions of the on-chain events whose type mentions `keyword`,
/// ignoring case, in order.
pub fn check_onchain(event_types: &Vec<String>, keyword: &str) -> (hits: Vec<usize>)
    ensures
        forall|j: int| 0 <= j < hits@.len() ==> (#[trigger] hits@[j]) < event_types@.len()
            && contains_seq(lowercase(event_types@[hits@[j] as int]@), lowercase(keyword@)),
        forall|a: int, b: int| 0 <= a < b < hits@.len() ==> hits@[a] < hits@[b],
        forall|i: int| 0 <= i < event_types@.len()
            && contains_seq(lowercase(event_types@[i]@), lowercase(keyword@)) ==> hits@.contains(i as usize),
{
    let mut hits: Vec<usize> = Vec::new();
    let mut i: usize = 0;
    while i < event_types.len()
        invariant
            i <= event_types.len(),
            forall|j: int| 0 <= j < hits@.len() ==> (#[trigger] hits@[j]) < i
                && contains_seq(lowercase(event_types@[hits@[j] as int]@), lowercase(keyword@)),
            forall|a: int, b: int| 0 <= a < b < hits@.len() ==> hits@[a] < hits@[b],
            forall|q: int| 0 <= q < i && contains_seq(lowercase(event_types@[q]@), lowercase(keyword@))
                ==> hits@.contains(q as usize),
        decreases event_types.len() - i,
    {
        if keyword_match(event_types[i].as_str(), keyword) {
            let ghost before = hits@;
            hits.push(i);
            proof {
                assert(hits@[hits@.len() - 1] == i);
                assert forall|q: int| 0 <= q < i + 1 && contains_seq(lowercase(event_types@[q]@), lowercase(keyword@))
                    implies hits@.contains(q as usize) by {
                    if q < i {
                        let w = choose|w: int| 0 <= w < before.len() && before[w] == q as usize;
                        assert(hits@[w] == q as usize);
                    } else {
                        assert(hits@[hits@.len() - 1] == q as usize);
                    }
                }
            }
        }
        i = i + 1;
    }
    hits
}

/// The positions of the news items to alert on, in order: those whose
/// sentiment is strong enough (`strong[i]`, the magnitude of the item's
/// sentiment score reaching the alert threshold) and whose title mentions
/// `keyword`, ignoring case.
pub fn check_news(titles: &Vec<String>, strong: &Vec<bool>, keyword: &str) -> (hits: Vec<usize>)
    requires
        strong@.len() == titles@.len(),
    ensures
        forall|j: int| 0 <= j < hits@.len() ==> (#[trigger] hits@[j]) < titles@.len() && strong@[hits@[j] as int]
            && contains_seq(lowercase(titles@[hits@[j] as int]@), lowercase(keyword@)),
        forall|a: int, b: int| 0 <= a < b < hits@.len() ==> hits@[a] < hits@[b],
        forall|i: int| 0 <= i < titles@.len() && strong@[i]
            && contains_seq(lowercase(titles@[i]@), lowercase(keyword@)) ==> hits@.contains(i as usize),
{
    let mut hits: Vec<usize> = Vec::new();
    let mut i: usize = 0;
    while i < titles.len()
        invariant
            i <= titles.len(),
            strong@.len() == titles@.len(),
            forall|j: int| 0 <= j < hits@.len() ==> (#[trigger] hits@[j]) < i && strong@[hits@[j] as int]
                && contains_seq(lowercase(titles@[hits@[j] as int]@), lowercase(keyword@)),
            forall|a: int, b: int| 0 <= a < b < hits@.len() ==> hits@[a] < hits@[b],
            forall|q: int| 0 <= q < i && strong@[q] && contains_seq(lowercase(titles@[q]@), lowercase(keyword@))
                ==> hits@.contains(q as usize),
        decreases titles.len() - i,
    {
        if strong[i] && keyword_match(titles[i].as_str(), keyword) {
            let ghost before = hits@;
            hits.push(i);
            proof {
                assert(hits@[hits@.len() - 1] == i);
                assert forall|q: int| 0 <= q < i + 1 && strong@[q]
                    && contains_seq(lowercase(titles@[q]@), lowercase(keyword@)) implies hits@.contains(q as usize) by {
                    if q < i {
                        let w = choose|w: int| 0 <= w < before.len() && before[w] == q as usize;
                        assert(hits@[w] == q as usize);
                    } else {
                        assert(hits@[hits@.len() - 1] == q as usize);
                    }
                }
            }
        }
        i = i + 1;
    }
    hits
}

/// `s` without every leading "0x".
pub open spec fn strip_hex_prefix(s: Seq<char>) -> Seq<char>
    decreases s.len(),
{
    if s.len() >= 2 && s[0] == '0' && s[1] == 'x' { strip_hex_prefix(s.skip(2)) } else { s }
}

/// The value of hexadecimal digit `c`, or -1 when it is not one.
pub open spec fn hex_digit_value(c: char) -> int {
    if '0' <= c && c <= '9' {
        c as int - '0' as int
    } else if 'a' <= c && c <= 'f' {
        c as int - 'a' as int + 10
    } else if 'A' <= c && c <= 'F' {
        c as int - 'A' as int + 10
    } else {
        -1
    }
}

/// Every character of `d` is a hexadecimal digit.
pub open spec fn all_hex(d: Seq<char>) -> bool {
    forall|i: int| 0 <= i < d.len() ==> hex_digit_value(#[trigger] d[i]) >= 0
}

/// The number the hexadecimal digits `d` write.
pub open spec fn hex_value(d: Seq<char>) -> int
    decreases d.len(),
{
    if d.len() == 0 { 0 } else { hex_value(d.drop_last()) * 16 + hex_digit_value(d.last()) }
}

/// What `u64::from_str_radix(s, 16)` reads: an optional `+`, then one or
/// more hexadecimal digits and nothing else, writing a number that fits.
pub open spec fn parse_hex_u64(s: Seq<char>) -> Option<u64> {
    let d = if s.len() > 0 && s[0] == '+' { s.drop_first() } else { s };
    if d.len() == 0 || !all_hex(d) || hex_value(d) > u64::MAX { None } else { Some(hex_value(d) as u64) }
}

/// The block number a JSON-RPC node writes as `s`: every leading "0x"
/// dropped, the rest read in hexadecimal.
pub open spec fn block_number(s: Seq<char>) -> Option<u64> {
    parse_hex_u64(strip_hex_prefix(s))
}

/// The value of hexadecimal digits only grows as digits are added.
proof fn lemma_hex_value_grows(d: Seq<char>, j: int)
    requires
        all_hex(d),
        0 <= j <= d.len(),
    ensures
        0 <= hex_value(d.take(j)) <= hex_value(d),
    decreases d.len(),
{
    if j == d.len() {
        assert(d.take(j) =~= d);
        lemma_hex_value_nonnegative(d);
    } else {
        let init = d.drop_last();
        assert(all_hex(init)) by {
            assert forall|i: int| 0 <= i < init.len() implies hex_digit_value(#[trigger] init[i]) >= 0 by {
                assert(init[i] == d[i]);
            }
        }
        lemma_hex_value_grows(init, j);
        assert(init.take(j) =~= d.take(j));
        lemma_hex_value_nonnegative(init);
        assert(hex_digit_value(d[d.len() - 1]) >= 0);
    }
}

proof fn lemma_hex_value_nonnegative(d: Seq<char>)
    requires
        all_hex(d),
    ensures
        hex_value(d) >= 0,
    decreases d.len(),
{
    if d.len() > 0 {
        let init = d.drop_last();
        assert(all_hex(init)) by {
            assert forall|i: int| 0 <= i < init.len() implies hex_digit_value(#[trigger] init[i]) >= 0 by {
                assert(init[i] == d[i]);
            }
        }
        lemma_hex_value_nonnegative(init);
        assert(hex_digit_value(d[d.len() - 1]) >= 0);
    }
}

/// The value of hexadecimal digit `c`, if it is one.
fn hex_digit(c: char) -> (v: Option<u64>)
    ensures
        match v {
            Some(x) => hex_digit_value(c) == x && x < 16,
            None => hex_digit_value(c) == -1,
        },
{
    if '0' <= c && c <= '9' {
        Some((c as u32 - '0' as u32) as u64)
    } else if 'a' <= c && c <= 'f' {
        Some((c as u32 - 'a' as u32 + 10) as u64)
    } else if 'A' <= c && c <= 'F' {
        Some((c as u32 - 'A' as u32 + 10) as u64)
    } else {
        None
    }
}

/// Reads a block number as a JSON-RPC node writes it (see
/// [`block_number`]): none when it does not read as a `u64`.
pub fn parse_block_number(s: &str) -> (r: Option<u64>)
    ensures
        r == block_number(s@),
{
    let n = s.unicode_len();
    let mut a: usize = 0;
    assert(s@.skip(0) =~= s@);
    while a < n && n - a >= 2 && s.get_char(a) == '0' && s.get_char(a + 1) == 'x'
        invariant
            n == s@.len(),
            a <= n,
            strip_hex_prefix(s@) == strip_hex_prefix(s@.skip(a as int)),
        decreases n - a,
    {
        proof {
            assert(s@.skip(a as int).skip(2) =~= s@.skip(a as int + 2));
        }
        a = a + 2;
    }
    let ghost rest = s@.skip(a as int);
    assert(strip_hex_prefix(s@) == rest);
    if a < n && s.get_char(a) == '+' {
        a = a + 1;
    }
    let ghost d = s@.skip(a as int);
    assert(d == (if rest.len() > 0 && rest[0] == '+' { rest.drop_first() } else { rest }));
    if a == n {
        return None;
    }
    let mut acc: u64 = 0;
    let mut k: usize = a;
    assert(d.take(0) =~= Seq::<char>::empty());
    while k < n
        invariant
            n == s@.len(),
            a <= k <= n,
            d == s@.skip(a as int),
            block_number(s@) == (if d.len() == 0 || !all_hex(d) || hex_value(d) > u64::MAX { None } else {
                Some(hex_value(d) as u64)
            }),
            forall|i: int| 0 <= i < k - a ==> hex_digit_value(#[trigger] d[i]) >= 0,
            acc as int == hex_value(d.take(k - a)),
        decreases n - k,
    {
        let c = s.get_char(k);
        assert(c == d[k - a]);
        let v = match hex_digit(c) {
            Some(v) => v,
            None => {
                assert(!all_hex(d));
                return None;
            },
        };
        proof {
            assert(d.take(k - a + 1).drop_last() =~= d.take(k - a));
        }
        if acc > (u64::MAX - v) / 16 {
            proof {
                assert(hex_value(d.take(k - a + 1)) > u64::MAX) by (nonlinear_arith)
                    requires
                        hex_value(d.take(k - a + 1)) == acc * 16 + v,
                        acc > (u64::MAX - v) / 16,
                        v < 16;
                if all_hex(d) {
                    lemma_hex_value_grows(d, k - a + 1);
                }
            }
            return None;
        }
        proof {
            assert(acc * 16 + v <= u64::MAX) by (nonlinear_arith)
                requires
                    acc <= (u64::MAX - v) / 16,
                    v < 16;
        }
        acc = acc * 16 + v;
        k = k + 1;
    }
    proof {
        assert(d.take(n - a) =~= d);
    }
    Some(acc)
}

} // verus!
