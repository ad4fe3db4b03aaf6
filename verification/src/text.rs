//! Small string helpers shared by the modules of this crate.
use vstd::prelude::*;
use vstd::relations::{sorted_by, total_ordering};

verus! {

/// The characters of each string of `v`.
pub open spec fn string_views(v: Seq<String>) -> Seq<Seq<char>> {
    v.map_values(|s: String| s@)
}

/// Whether two string slices hold the same characters.
pub fn str_eq(a: &str, b: &str) -> (r: bool)
    ensures
        r == (a@ == b@),
{
    let x = a.to_owned();
    let y = b.to_owned();
    x == y
}

/// The key under which a feed, a book or an archive of `symbol` on
/// `exchange` is kept: the exchange, a colon and the symbol.
pub open spec fn pair_key(exchange: Seq<char>, symbol: Seq<char>) -> Seq<char> {
    exchange + seq![':'] + symbol
}

/// The character at position `i` of `pair_key(e@, s@)`, where `n` and `m`
/// are the lengths of `e` and `s`.
fn pair_key_char(e: &str, s: &str, n: usize, m: usize, i: u128) -> (c: char)
    requires
        n == e@.len(),
        m == s@.len(),
        i < n + 1 + m,
    ensures
        c == pair_key(e@, s@)[i as int],
{
    if i < n as u128 {
        e.get_char(i as usize)
    } else if i == n as u128 {
        ':'
    } else {
        s.get_char((i - n as u128 - 1) as usize)
    }
}

/// Whether the pair `(e1, s1)` and the pair `(e2, s2)` have the same key.
pub fn same_pair_key(e1: &str, s1: &str, e2: &str, s2: &str) -> (r: bool)
    ensures
        r == (pair_key(e1@, s1@) == pair_key(e2@, s2@)),
{
    let n1 = e1.unicode_len();
    let m1 = s1.unicode_len();
    let n2 = e2.unicode_len();
    let m2 = s2.unicode_len();
    let len1: u128 = n1 as u128 + 1 + m1 as u128;
    let len2: u128 = n2 as u128 + 1 + m2 as u128;
    if len1 != len2 {
        assert(pair_key(e1@, s1@).len() != pair_key(e2@, s2@).len());
        return false;
    }
    let mut i: u128 = 0;
    while i < len1
        invariant
            n1 == e1@.len(),
            m1 == s1@.len(),
            n2 == e2@.len(),
            m2 == s2@.len(),
            len1 == n1 + 1 + m1,
            len1 == n2 + 1 + m2,
            i <= len1,
            forall|j: int| 0 <= j < i ==> pair_key(e1@, s1@)[j] == pair_key(e2@, s2@)[j],
        decreases len1 - i,
    {
        let a = pair_key_char(e1, s1, n1, m1, i);
        let b = pair_key_char(e2, s2, n2, m2, i);
        if a != b {
            assert(pair_key(e1@, s1@)[i as int] != pair_key(e2@, s2@)[i as int]);
            return false;
        }
        i = i + 1;
    }
    assert(pair_key(e1@, s1@) =~= pair_key(e2@, s2@));
    true
}

/// Whether `s` holds a colon.
pub fn has_colon(s: &str) -> (r: bool)
    ensures
        r == s@.contains(':'),
{
    let n = s.unicode_len();
    let mut i: usize = 0;
    while i < n
        invariant
            n == s@.len(),
            i <= n,
            forall|j: int| 0 <= j < i ==> s@[j] != ':',
        decreases n - i,
    {
        if s.get_char(i) == ':' {
            assert(s@[i as int] == ':');
            return true;
        }
        i = i + 1;
    }
    false
}

/// `s` is a number written in lower-case hexadecimal as std's `{:x}`
/// writes a `u64`: one to sixteen digits `0`-`9`, `a`-`f`.
pub open spec fn lower_hex_u64(s: Seq<char>) -> bool {
    &&& 1 <= s.len() <= 16
    &&& forall|i: int| 0 <= i < s.len() ==> ('0' <= #[trigger] s[i] <= '9' || 'a' <= s[i] <= 'f')
}

/// The key of `symbol` on `exchange` as a string: the exchange, a colon
/// and the symbol.
pub(crate) fn pair_key_string(exchange: &str, symbol: &str) -> (k: String)
    ensures
        k@ == pair_key(exchange@, symbol@),
{
    let mut k = exchange.to_owned();
    proof {
        reveal_strlit(":");
    }
    k.append(":");
    k.append(symbol);
    k
}

/// `a` comes before `b`, or equals it, in the lexicographic order of
/// character codes (the order of Rust strings).
pub open spec fn lex_le(a: Seq<char>, b: Seq<char>) -> bool
    decreases a.len(),
{
    if a.len() == 0 {
        true
    } else if b.len() == 0 {
        false
    } else if a[0] < b[0] {
        true
    } else if a[0] > b[0] {
        false
    } else {
        lex_le(a.drop_first(), b.drop_first())
    }
}

/// The lexicographic order as a relation.
pub open spec fn lex_order() -> spec_fn(Seq<char>, Seq<char>) -> bool {
    |a: Seq<char>, b: Seq<char>| lex_le(a, b)
}

/// `names` in lexicographic order.
pub open spec fn sorted_names(names: Seq<Seq<char>>) -> Seq<Seq<char>> {
    names.sort_by(lex_order())
}

proof fn lemma_lex_reflexive(a: Seq<char>)
    ensures
        lex_le(a, a),
    decreases a.len(),
{
    if a.len() > 0 {
        lemma_lex_reflexive(a.drop_first());
    }
}

proof fn lemma_lex_antisymmetric(a: Seq<char>, b: Seq<char>)
    requires
        lex_le(a, b),
        lex_le(b, a),
    ensures
        a == b,
    decreases a.len(),
{
    if a.len() == 0 {
        assert(b.len() == 0);
        assert(a =~= b);
    } else {
        assert(b.len() > 0);
        assert(a[0] == b[0]);
        lemma_lex_antisymmetric(a.drop_first(), b.drop_first());
        assert(a.drop_first() == b.drop_first());
        assert(a.drop_first().len() == b.drop_first().len());
        assert(b.len() == a.len());
        assert forall|i: int| 0 <= i < a.len() implies a[i] == b[i] by {
            if i > 0 {
                assert(a[i] == a.drop_first()[i - 1]);
                assert(b[i] == b.drop_first()[i - 1]);
            }
        }
        assert(a =~= b);
    }
}

proof fn lemma_lex_transitive(a: Seq<char>, b: Seq<char>, c: Seq<char>)
    requires
        lex_le(a, b),
        lex_le(b, c),
    ensures
        lex_le(a, c),
    decreases a.len(),
{
    if a.len() > 0 && b.len() > 0 && c.len() > 0 {
        if a[0] == b[0] && b[0] == c[0] {
            lemma_lex_transitive(a.drop_first(), b.drop_first(), c.drop_first());
        }
    }
}

proof fn lemma_lex_total(a: Seq<char>, b: Seq<char>)
    ensures
        lex_le(a, b) || lex_le(b, a),
    decreases a.len(),
{
    if a.len() > 0 && b.len() > 0 && a[0] == b[0] {
        lemma_lex_total(a.drop_first(), b.drop_first());
    }
}

/// The lexicographic order of strings is a total order.
pub proof fn lemma_lex_total_ordering()
    ensures
        total_ordering(lex_order()),
{
    let r = lex_order();
    assert forall|a: Seq<char>| #[trigger] r(a, a) by {
        lemma_lex_reflexive(a);
    }
    assert forall|a: Seq<char>, b: Seq<char>| #[trigger] r(a, b) && #[trigger] r(b, a) implies a == b by {
        lemma_lex_antisymmetric(a, b);
    }
    assert forall|a: Seq<char>, b: Seq<char>, c: Seq<char>| #[trigger] r(a, b) && #[trigger] r(b, c) implies r(a, c) by {
        lemma_lex_transitive(a, b, c);
    }
    assert forall|a: Seq<char>, b: Seq<char>| #[trigger] r(a, b) || #[trigger] r(b, a) by {
        lemma_lex_total(a, b);
    }
}

/// Whether `a` comes before `b`, or equals it, in lexicographic order.
pub fn str_le(a: &str, b: &str) -> (r: bool)
    ensures
        r == lex_le(a@, b@),
{
    let n = a.unicode_len();
    let m = b.unicode_len();
    let mut i: usize = 0;
    assert(a@.skip(0) =~= a@);
    assert(b@.skip(0) =~= b@);
    while i < n && i < m
        invariant
            n == a@.len(),
            m == b@.len(),
            i <= n,
            i <= m,
            lex_le(a@, b@) == lex_le(a@.skip(i as int), b@.skip(i as int)),
        decreases n - i,
    {
        let x = a.get_char(i);
        let y = b.get_char(i);
        assert(a@.skip(i as int)[0] == a@[i as int]);
        assert(b@.skip(i as int)[0] == b@[i as int]);
        if x < y {
            return true;
        }
        if x > y {
            return false;
        }
        proof {
            assert(a@.skip(i as int).drop_first() =~= a@.skip(i as int + 1));
            assert(b@.skip(i as int).drop_first() =~= b@.skip(i as int + 1));
        }
        i = i + 1;
    }
    i == n
}

/// A copy of the strings of `v`.
pub(crate) fn copy_strings(v: &Vec<String>) -> (r: Vec<String>)
    ensures
        string_views(r@) == string_views(v@),
{
    let mut r: Vec<String> = Vec::new();
    let mut i: usize = 0;
    while i < v.len()
        invariant
            i <= v.len(),
            r@.len() == i,
            forall|j: int| 0 <= j < i ==> (#[trigger] r@[j])@ == v@[j]@,
        decreases v.len() - i,
    {
        let c = v[i].clone();
        r.push(c);
        i = i + 1;
    }
    assert(string_views(r@) =~= string_views(v@));
    r
}

/// `v` sorted in lexicographic order.
pub fn sort_strings(v: Vec<String>) -> (r: Vec<String>)
    ensures
        string_views(r@) == sorted_names(string_views(v@)),
{
    let ghost orig = v@;
    let ghost leq = lex_order();
    proof {
        lemma_lex_total_ordering();
    }
    let mut v = v;
    let mut out: Vec<String> = Vec::new();
    let mut k: usize = 0;
    assert(orig.skip(0) =~= orig);
    assert(orig.len() == v.len());
    assert(string_views(out@) =~= string_views(orig.take(0)));
    while v.len() > 0
        invariant
            k <= orig.len(),
            orig.len() <= usize::MAX,
            v.len() + k == orig.len(),
            v@ == orig.skip(k as int),
            leq == lex_order(),
            total_ordering(leq),
            out@.len() == k,
            sorted_by(string_views(out@), leq),
            string_views(out@).to_multiset() == string_views(orig.take(k as int)).to_multiset(),
        decreases v.len(),
    {
        let s = v.remove(0);
        assert(s == orig[k as int]);
        let mut j: usize = 0;
        while j < out.len() && str_le(out[j].as_str(), s.as_str())
            invariant
                j <= out@.len(),
                forall|i: int| 0 <= i < j ==> lex_le(#[trigger] out@[i]@, s@),
            decreases out.len() - j,
        {
            j = j + 1;
        }
        let ghost before = string_views(out@);
        out.insert(j, s);
        proof {
            let after = string_views(out@);
            assert(after =~= before.insert(j as int, s@));
            assert(string_views(orig.take(k as int + 1)) =~= string_views(orig.take(k as int)).push(s@));
            vstd::seq_lib::to_multiset_insert(before, j as int, s@);
            vstd::seq_lib::to_multiset_build(string_views(orig.take(k as int)), s@);
            assert forall|a: int, b: int| 0 <= a < b < after.len() implies #[trigger] leq(after[a], after[b]) by {
                if b < j {
                    assert(after[a] == before[a] && after[b] == before[b]);
                } else if b == j {
                    assert(after[a] == before[a]);
                    assert(lex_le(out@[a]@, s@));
                } else if a == j {
                    assert(after[b] == before[b - 1]);
                    assert(!lex_le(before[j as int], s@));
                    lemma_lex_total(before[j as int], s@);
                    if b - 1 > j {
                        assert(leq(before[j as int], before[b - 1]));
                        lemma_lex_transitive(s@, before[j as int], before[b - 1]);
                    }
                } else if a < j {
                    assert(after[a] == before[a]);
                    assert(after[b] == before[b - 1]);
                    assert(leq(before[a], before[b - 1]));
                } else {
                    assert(after[a] == before[a - 1]);
                    assert(after[b] == before[b - 1]);
                    assert(leq(before[a - 1], before[b - 1]));
                }
            }
        }
        k = k + 1;
        proof {
            assert(v@ =~= orig.skip(k as int));
        }
    }
    proof {
        assert(orig.take(k as int) =~= orig);
        string_views(orig).lemma_sort_by_ensures(leq);
        vstd::seq_lib::lemma_sorted_unique(string_views(out@), string_views(orig).sort_by(leq), leq);
    }
    out
}

} // verus!
