//! Reading news items out of an RSS document: each `<item>` block, and the
//! title, link and publication date inside it.
use vstd::prelude::*;
use crate::clock::utc_now_millis;
use crate::news::occurs_at;

verus! {

/// Where `needle` first occurs in `hay` at or after position `from`, or -1.
pub open spec fn find_from(hay: Seq<char>, needle: Seq<char>, from: int) -> int
    decreases hay.len() - from,
{
    if from < 0 || from + needle.len() > hay.len() {
        -1
    } else if needle.len() == 0 || occurs_at(hay, needle, from) {
        from
    } else {
        find_from(hay, needle, from + 1)
    }
}

/// A found occurrence lies where it was looked for and is an occurrence.
pub proof fn lemma_find_from(hay: Seq<char>, needle: Seq<char>, from: int)
    requires
        0 <= from,
    ensures
        find_from(hay, needle, from) == -1 || (from <= find_from(hay, needle, from)
            && find_from(hay, needle, from) + needle.len() <= hay.len()
            && hay.subrange(find_from(hay, needle, from), find_from(hay, needle, from) + needle.len()) == needle),
    decreases hay.len() - from,
{
    if from + needle.len() > hay.len() {
    } else if needle.len() == 0 {
        assert(hay.subrange(from, from) =~= needle);
    } else if occurs_at(hay, needle, from) {
    } else {
        lemma_find_from(hay, needle, from + 1);
    }
}

/// The text between the first `open` tag of `block` and the first `close`
/// tag after it, when there are both.
pub open spec fn tag_content(block: Seq<char>, open: Seq<char>, close: Seq<char>) -> Option<Seq<char>> {
    let p = find_from(block, open, 0);
    if p < 0 {
        None
    } else {
        let q = find_from(block, close, p + open.len());
        if q < 0 { None } else { Some(block.subrange(p + open.len(), q)) }
    }
}

/// The content of the first `open`..`close` element of `block`, or the
/// empty text when there is none.
pub open spec fn tag_text(block: Seq<char>, open: Seq<char>, close: Seq<char>) -> Seq<char> {
    match tag_content(block, open, close) {
        Some(c) => c,
        None => Seq::empty(),
    }
}

/// Whether `c` is white space in Unicode (the `White_Space` property, as
/// Rust's `char::is_whitespace` tests it).
pub open spec fn is_white_space(c: char) -> bool {
    ||| c == ' '
    ||| c == '\t'
    ||| c == '\n'
    ||| c == '\u{B}'
    ||| c == '\u{C}'
    ||| c == '\r'
    ||| c == '\u{85}'
    ||| c == '\u{A0}'
    ||| c == '\u{1680}'
    ||| ('\u{2000}' <= c && c <= '\u{200A}')
    ||| c == '\u{2028}'
    ||| c == '\u{2029}'
    ||| c == '\u{202F}'
    ||| c == '\u{205F}'
    ||| c == '\u{3000}'
}

/// `s` without its leading white space.
pub open spec fn trim_start(s: Seq<char>) -> Seq<char>
    decreases s.len(),
{
    if s.len() > 0 && is_white_space(s[0]) { trim_start(s.drop_first()) } else { s }
}

/// `s` without its trailing white space.
pub open spec fn trim_end(s: Seq<char>) -> Seq<char>
    decreases s.len(),
{
    if s.len() > 0 && is_white_space(s.last()) { trim_end(s.drop_last()) } else { s }
}

/// `s` without leading and trailing white space.
pub open spec fn trimmed(s: Seq<char>) -> Seq<char> {
    trim_end(trim_start(s))
}

/// Whether `c` is white space (see [`is_white_space`]).
fn white_space(c: char) -> (b: bool)
    ensures
        b == is_white_space(c),
{
    c == ' ' || c == '\t' || c == '\n' || c == '\u{B}' || c == '\u{C}' || c == '\r' || c == '\u{85}'
        || c == '\u{A0}' || c == '\u{1680}' || ('\u{2000}' <= c && c <= '\u{200A}') || c == '\u{2028}'
        || c == '\u{2029}' || c == '\u{202F}' || c == '\u{205F}' || c == '\u{3000}'
}

/// Where `needle` first occurs in `hay` at or after `from`.
fn find(hay: &str, needle: &str, from: usize) -> (r: Option<usize>)
    requires
        from <= hay@.len(),
    ensures
        match r {
            Some(p) => p as int == find_from(hay@, needle@, from as int) && p >= 0,
            None => find_from(hay@, needle@, from as int) == -1,
        },
{
    let h = hay.unicode_len();
    let n = needle.unicode_len();
    if n > h {
        return None;
    }
    let mut i: usize = from;
    while i <= h - n
        invariant
            h == hay@.len(),
            n == needle@.len(),
            n <= h,
            from <= i,
            i <= h - n + 1 || i == from,
            find_from(hay@, needle@, from as int) == find_from(hay@, needle@, i as int),
        decreases h - i,
    {
        let mut k: usize = 0;
        let mut same = true;
        while k < n
            invariant
                h == hay@.len(),
                n == needle@.len(),
                i + n <= h,
                k <= n,
                same == (forall|q: int| 0 <= q < k ==> hay@[i + q] == needle@[q]),
            decreases n - k,
        {
            if hay.get_char(i + k) != needle.get_char(k) {
                same = false;
            }
            k = k + 1;
        }
        if same {
            proof {
                assert(hay@.subrange(i as int, i + n) =~= needle@);
            }
            return Some(i);
        }
        proof {
            if n > 0 {
                assert(!occurs_at(hay@, needle@, i as int)) by {
                    if occurs_at(hay@, needle@, i as int) {
                        let q = choose|q: int| 0 <= q < n && hay@[i + q] != needle@[q];
                        assert(hay@.subrange(i as int, i + n)[q] == hay@[i + q]);
                    }
                }
            }
        }
        i = i + 1;
    }
    None
}

/// `s` without leading and trailing white space.
fn trim(s: &str) -> (r: &str)
    ensures
        r@ == trimmed(s@),
{
    let n = s.unicode_len();
    let mut a: usize = 0;
    assert(s@.subrange(0, n as int) =~= s@);
    while a < n && white_space(s.get_char(a))
        invariant
            n == s@.len(),
            a <= n,
            trim_start(s@) == trim_start(s@.subrange(a as int, n as int)),
        decreases n - a,
    {
        proof {
            assert(s@.subrange(a as int, n as int).drop_first() =~= s@.subrange(a as int + 1, n as int));
        }
        a = a + 1;
    }
    let ghost front = s@.subrange(a as int, n as int);
    assert(trim_start(s@) == front);
    let mut b: usize = n;
    assert(front.subrange(0, (b - a) as int) =~= front);
    while b > a && white_space(s.get_char(b - 1))
        invariant
            n == s@.len(),
            a <= b <= n,
            front == s@.subrange(a as int, n as int),
            trim_end(front) == trim_end(s@.subrange(a as int, b as int)),
        decreases b - a,
    {
        proof {
            assert(s@.subrange(a as int, b as int).drop_last() =~= s@.subrange(a as int, b as int - 1));
        }
        b = b - 1;
    }
    s.substring_char(a, b)
}

/// `<item>`.
pub open spec fn item_open() -> Seq<char> { seq!['<', 'i', 't', 'e', 'm', '>'] }
/// `</item>`.
pub open spec fn item_close() -> Seq<char> { seq!['<', '/', 'i', 't', 'e', 'm', '>'] }
/// `<title>`.
pub open spec fn title_open() -> Seq<char> { seq!['<', 't', 'i', 't', 'l', 'e', '>'] }
/// `</title>`.
pub open spec fn title_close() -> Seq<char> { seq!['<', '/', 't', 'i', 't', 'l', 'e', '>'] }
/// `<link>`.
pub open spec fn link_open() -> Seq<char> { seq!['<', 'l', 'i', 'n', 'k', '>'] }
/// `</link>`.
pub open spec fn link_close() -> Seq<char> { seq!['<', '/', 'l', 'i', 'n', 'k', '>'] }
/// `<pubDate>`.
pub open spec fn date_open() -> Seq<char> { seq!['<', 'p', 'u', 'b', 'D', 'a', 't', 'e', '>'] }
/// `</pubDate>`.
pub open spec fn date_close() -> Seq<char> { seq!['<', '/', 'p', 'u', 'b', 'D', 'a', 't', 'e', '>'] }

/// The `<item>` blocks of `text` from position `from` on: the text
/// between an `<item>` and the first `</item>` after it, the search going
/// on after that `</item>`; it ends at the first `<item>` with no
/// `</item>` after it.
pub open spec fn item_blocks(text: Seq<char>, from: int) -> Seq<Seq<char>>
    decreases text.len() - from,
{
    if from < 0 {
        Seq::empty()
    } else {
        let p = find_from(text, item_open(), from);
        if p < 0 {
            Seq::empty()
        } else {
            let q = find_from(text, item_close(), p + 6);
            if q < 0 {
                Seq::empty()
            } else {
                proof {
                    lemma_find_from(text, item_open(), from);
                    lemma_find_from(text, item_close(), p + 6);
                }
                seq![text.subrange(p + 6, q)] + item_blocks(text, q + 7)
            }
        }
    }
}

/// The trimmed title of an item block.
pub open spec fn block_title(block: Seq<char>) -> Seq<char> {
    trimmed(tag_text(block, title_open(), title_close()))
}

/// The trimmed link of an item block.
pub open spec fn block_link(block: Seq<char>) -> Seq<char> {
    trimmed(tag_text(block, link_open(), link_close()))
}

/// The trimmed publication date of an item block.
pub open spec fn block_date(block: Seq<char>) -> Seq<char> {
    trimmed(tag_text(block, date_open(), date_close()))
}

/// The item blocks of `text` that make news: those with a title.
pub open spec fn titled_blocks(text: Seq<char>) -> Seq<Seq<char>> {
    item_blocks(text, 0).filter(|b: Seq<char>| block_title(b).len() > 0)
}

/// The instant (milliseconds since the Unix epoch) that chrono's
/// `DateTime::parse_from_rfc2822` reads from a date, or none when it does
/// not parse.
pub uninterp spec fn rfc2822_millis(date: Seq<char>) -> Option<i64>;

/// Parses an RFC 2822 date with chrono's `DateTime::parse_from_rfc2822`,
/// as milliseconds since the Unix epoch. The result is named, not
/// described: it is `rfc2822_millis` of the text.
#[verifier::external_body]
fn parse_rfc2822_millis(date: &str) -> (r: Option<i64>)
    ensures
        r == rfc2822_millis(date@),
{
    chrono::DateTime::parse_from_rfc2822(date).ok().map(|dt| dt.timestamp_millis())
}

/// A news item read from an RSS document.
#[derive(Debug, Clone)]
pub struct RssEntry {
    pub title: String,
    pub link: String,
    pub published_ms: i64,
}

/// The text of the first `open`..`close` element of `block`, trimmed;
/// empty when there is none.
fn element_text<'a>(block: &'a str, open: &str, close: &str) -> (r: &'a str)
    ensures
        r@ == trimmed(tag_text(block@, open@, close@)),
{
    let n = block.unicode_len();
    match find(block, open, 0) {
        None => {
            assert(tag_text(block@, open@, close@) =~= Seq::<char>::empty());
            block.substring_char(0, 0)
        },
        Some(p) => {
            proof {
                lemma_find_from(block@, open@, 0);
            }
            let start = p + open.unicode_len();
            match find(block, close, start) {
                None => {
                    assert(tag_text(block@, open@, close@) =~= Seq::<char>::empty());
                    block.substring_char(0, 0)
                },
                Some(q) => {
                    proof {
                        lemma_find_from(block@, close@, start as int);
                    }
                    trim(block.substring_char(start, q))
                },
            }
        },
    }
}

/// The news items of an RSS document: for each `<item>` block (see
/// [`item_blocks`]) with a non-empty title, its trimmed title and link,
/// and its trimmed `<pubDate>` read as an RFC 2822 date, or the current
/// time when that does not parse.
pub fn rss_entries(text: &str) -> (r: Vec<RssEntry>)
    ensures
        r@.len() == titled_blocks(text@).len(),
        forall|k: int| 0 <= k < r@.len() ==> {
            let b = #[trigger] titled_blocks(text@)[k];
            &&& r@[k].title@ == block_title(b)
            &&& r@[k].link@ == block_link(b)
            &&& (rfc2822_millis(block_date(b)) matches Some(t) ==> r@[k].published_ms == t)
        },
{
    proof {
        reveal_strlit("<item>");
        reveal_strlit("</item>");
        reveal_strlit("<title>");
        reveal_strlit("</title>");
        reveal_strlit("<link>");
        reveal_strlit("</link>");
        reveal_strlit("<pubDate>");
        reveal_strlit("</pubDate>");
        assert("<item>"@ =~= item_open());
        assert("</item>"@ =~= item_close());
        assert("<title>"@ =~= title_open());
        assert("</title>"@ =~= title_close());
        assert("<link>"@ =~= link_open());
        assert("</link>"@ =~= link_close());
        assert("<pubDate>"@ =~= date_open());
        assert("</pubDate>"@ =~= date_close());
    }
    let ghost pred = |b: Seq<char>| block_title(b).len() > 0;
    let n = text.unicode_len();
    let mut out: Vec<RssEntry> = Vec::new();
    let mut pos: usize = 0;
    let ghost mut seen: Seq<Seq<char>> = Seq::empty();
    assert(item_blocks(text@, 0) =~= seen + item_blocks(text@, 0));
    loop
        invariant
            n == text@.len(),
            pos <= n,
            "<item>"@ == item_open(),
            "</item>"@ == item_close(),
            "<title>"@ == title_open(),
            "</title>"@ == title_close(),
            "<link>"@ == link_open(),
            "</link>"@ == link_close(),
            "<pubDate>"@ == date_open(),
            "</pubDate>"@ == date_close(),
            pred == (|b: Seq<char>| block_title(b).len() > 0),
            item_blocks(text@, 0) == seen + item_blocks(text@, pos as int),
            out@.len() == seen.filter(pred).len(),
            forall|k: int| 0 <= k < out@.len() ==> {
                let b = #[trigger] seen.filter(pred)[k];
                &&& out@[k].title@ == block_title(b)
                &&& out@[k].link@ == block_link(b)
                &&& (rfc2822_millis(block_date(b)) matches Some(t) ==> out@[k].published_ms == t)
            },
        ensures
            item_blocks(text@, 0) == seen,
            out@.len() == seen.filter(pred).len(),
            forall|k: int| 0 <= k < out@.len() ==> {
                let b = #[trigger] seen.filter(pred)[k];
                &&& out@[k].title@ == block_title(b)
                &&& out@[k].link@ == block_link(b)
                &&& (rfc2822_millis(block_date(b)) matches Some(t) ==> out@[k].published_ms == t)
            },
        decreases n - pos,
    {
        let p = match find(text, "<item>", pos) {
            None => {
                assert(item_blocks(text@, pos as int) =~= Seq::<Seq<char>>::empty());
                assert(seen + item_blocks(text@, pos as int) =~= seen);
                break;
            },
            Some(p) => p,
        };
        proof {
            lemma_find_from(text@, item_open(), pos as int);
        }
        let q = match find(text, "</item>", p + 6) {
            None => {
                assert(item_blocks(text@, pos as int) =~= Seq::<Seq<char>>::empty());
                assert(seen + item_blocks(text@, pos as int) =~= seen);
                break;
            },
            Some(q) => q,
        };
        proof {
            lemma_find_from(text@, item_close(), p + 6);
        }
        let block = text.substring_char(p + 6, q);
        let title = element_text(block, "<title>", "</title>");
        let ghost prev = seen;
        proof {
            assert(item_blocks(text@, pos as int) == seq![block@] + item_blocks(text@, q + 7));
            seen = seen.push(block@);
            assert(prev + item_blocks(text@, pos as int) =~= seen + item_blocks(text@, q + 7));
            prev.lemma_filter_push(block@, pred);
        }
        if title.unicode_len() > 0 {
            let link = element_text(block, "<link>", "</link>");
            let date = element_text(block, "<pubDate>", "</pubDate>");
            let published_ms = match parse_rfc2822_millis(date) {
                Some(t) => t,
                None => utc_now_millis(),
            };
            out.push(RssEntry { title: title.to_owned(), link: link.to_owned(), published_ms });
            proof {
                assert(pred(block@));
                assert(seen.filter(pred) == prev.filter(pred).push(block@));
                assert forall|k: int| 0 <= k < out@.len() implies {
                    let b = #[trigger] seen.filter(pred)[k];
                    &&& out@[k].title@ == block_title(b)
                    &&& out@[k].link@ == block_link(b)
                    &&& (rfc2822_millis(block_date(b)) matches Some(t) ==> out@[k].published_ms == t)
                } by {
                    if k < prev.filter(pred).len() {
                        assert(seen.filter(pred)[k] == prev.filter(pred)[k]);
                    }
                }
            }
        } else {
            proof {
                assert(!pred(block@));
                assert(seen.filter(pred) == prev.filter(pred));
            }
        }
        pos = q + 7;
    }
    out
}

} // verus!
