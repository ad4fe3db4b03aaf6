//! The parts of the backtest engine that decide, not compute prices: what a
//! strategy may signal, and which bars (and which order-book snapshots) a
//! walk-forward fold tests on.
use vstd::prelude::*;

verus! {

/// What a strategy decides for a symbol at a timestamp.
#[derive(Debug, Clone, Copy, PartialEq, Eq, Structural)]
pub enum SignalAction {
    Buy,
    Sell,
    Close,
    Hold,
}

/// One fold of an expanding walk-forward optimisation; the timestamps are
/// milliseconds since the Unix epoch.
#[derive(Debug, Clone, Copy, PartialEq, Eq, Structural)]
pub struct WfoFold {
    pub train_start: i64,
    pub train_end: i64,
    pub test_start: i64,
    pub test_end: i64,
}

/// A bar stamped `ts` lies in the test period of `fold`: after the end of
/// training, up to and including the end of the test.
pub open spec fn in_test_window(ts: i64, fold: WfoFold) -> bool {
    fold.train_end < ts && ts <= fold.test_end
}

/// The indices below `n` of the bars of `ts` that lie in the test period of
/// `fold`, in increasing order.
pub open spec fn window_indices(ts: Seq<i64>, fold: WfoFold, n: int) -> Seq<usize>
    decreases n,
{
    if n <= 0 {
        Seq::empty()
    } else if in_test_window(ts[n - 1], fold) {
        window_indices(ts, fold, n - 1).push((n - 1) as usize)
    } else {
        window_indices(ts, fold, n - 1)
    }
}

/// The first index of `ts` that holds `t` (meaningful where one does).
pub open spec fn first_index_with(ts: Seq<i64>, t: i64) -> int {
    choose|j: int| 0 <= j < ts.len() && ts[j] == t && forall|q: int| 0 <= q < j ==> ts[q] != t
}

/// The snapshot at `j`, or none where `micro` has no entry there.
pub open spec fn snapshot_at<T>(micro: Seq<Option<T>>, j: int) -> Option<T> {
    if 0 <= j < micro.len() {
        micro[j]
    } else {
        None
    }
}

/// The indices of the bars, stamped `bar_ts`, that the test period of `fold` covers.
pub fn fold_test_indices(bar_ts: &[i64], fold: &WfoFold) -> (r: Vec<usize>)
    ensures
        r@ == window_indices(bar_ts@, *fold, bar_ts@.len() as int),
{
    let mut r: Vec<usize> = Vec::new();
    let mut i: usize = 0;
    while i < bar_ts.len()
        invariant
            i <= bar_ts.len(),
            r@ == window_indices(bar_ts@, *fold, i as int),
        decreases bar_ts.len() - i,
    {
        let t = bar_ts[i];
        if fold.train_end < t && t <= fold.test_end {
            r.push(i);
        }
        i = i + 1;
    }
    r
}

/// The first index of `bar_ts` that holds `t`, if one does.
pub fn first_position(bar_ts: &[i64], t: i64) -> (r: Option<usize>)
    ensures
        match r {
            Some(j) => j < bar_ts@.len() && bar_ts@[j as int] == t
                && forall|q: int| 0 <= q < j ==> bar_ts@[q] != t,
            None => forall|q: int| 0 <= q < bar_ts@.len() ==> bar_ts@[q] != t,
        },
{
    let mut j: usize = 0;
    while j < bar_ts.len()
        invariant
            j <= bar_ts.len(),
            forall|q: int| 0 <= q < j ==> bar_ts@[q] != t,
        decreases bar_ts.len() - j,
    {
        if bar_ts[j] == t {
            return Some(j);
        }
        j = j + 1;
    }
    None
}

/// The order-book snapshots that go with the test bars of `fold`: for each
/// test bar, the snapshot at the first bar with the same timestamp, or none
/// where `micro` is shorter than that.
pub fn fold_test_microstructure<T: Copy>(bar_ts: &[i64], micro: &[Option<T>], fold: &WfoFold)
    -> (r: Vec<Option<T>>)
    ensures
        r@.len() == window_indices(bar_ts@, *fold, bar_ts@.len() as int).len(),
        forall|k: int| 0 <= k < r@.len() ==> #[trigger] r@[k] == snapshot_at(micro@,
            first_index_with(bar_ts@, bar_ts@[window_indices(bar_ts@, *fold, bar_ts@.len() as int)[k] as int])),
{
    let idx = fold_test_indices(bar_ts, fold);
    proof {
        assert(bar_ts@.len() == bar_ts.len());
        lemma_window_indices_in_range(bar_ts@, *fold, bar_ts@.len() as int);
    }
    let mut r: Vec<Option<T>> = Vec::new();
    let mut k: usize = 0;
    while k < idx.len()
        invariant
            k <= idx.len(),
            r@.len() == k,
            idx@ == window_indices(bar_ts@, *fold, bar_ts@.len() as int),
            forall|m: int| 0 <= m < idx@.len() ==> (#[trigger] idx@[m]) < bar_ts@.len(),
            forall|m: int| 0 <= m < k ==> #[trigger] r@[m] == snapshot_at(micro@,
                first_index_with(bar_ts@, bar_ts@[idx@[m] as int])),
        decreases idx.len() - k,
    {
        let i = idx[k];
        let t = bar_ts[i];
        let found = first_position(bar_ts, t);
        let j = match found {
            Some(j) => j,
            None => i,
        };
        proof {
            assert(bar_ts@[i as int] == t);
            assert(found is Some);
            assert(first_index_with(bar_ts@, t) == j as int) by {
                let c = first_index_with(bar_ts@, t);
                assert(0 <= j < bar_ts@.len() && bar_ts@[j as int] == t
                    && forall|q: int| 0 <= q < j ==> bar_ts@[q] != t);
                if c < j {
                    assert(bar_ts@[c] == t);
                } else if c > j {
                    assert(bar_ts@[j as int] != t);
                }
            }
        }
        let snap = if j < micro.len() {
            micro[j]
        } else {
            None
        };
        r.push(snap);
        k = k + 1;
    }
    r
}

/// Every index that `window_indices` lists is below `n`, and the indices
/// increase.
pub proof fn lemma_window_indices_in_range(ts: Seq<i64>, fold: WfoFold, n: int)
    requires
        n <= usize::MAX + 1,
    ensures
        forall|m: int| 0 <= m < window_indices(ts, fold, n).len() ==>
            (#[trigger] window_indices(ts, fold, n)[m]) < n,
        forall|a: int, b: int| 0 <= a < b < window_indices(ts, fold, n).len() ==>
            window_indices(ts, fold, n)[a] < window_indices(ts, fold, n)[b],
    decreases n,
{
    if n > 0 {
        lemma_window_indices_in_range(ts, fold, n - 1);
        let prev = window_indices(ts, fold, n - 1);
        if in_test_window(ts[n - 1], fold) {
            let cur = prev.push((n - 1) as usize);
            assert(window_indices(ts, fold, n) == cur);
            assert(cur[prev.len() as int] == n - 1);
            assert forall|m: int| 0 <= m < prev.len() implies cur[m] == prev[m] && prev[m] < n - 1 by {
                assert(prev[m] < n - 1);
            }
        } else {
            assert(window_indices(ts, fold, n) == prev);
        }
    }
}

/// A bar is tested by `fold` exactly when its timestamp lies in the fold's
/// test period: the fold neither leaves out a bar of the period nor takes one
/// outside it.
pub proof fn lemma_window_indices_exact(ts: Seq<i64>, fold: WfoFold, n: int, i: int)
    requires
        0 <= i < n <= ts.len(),
        n <= usize::MAX + 1,
    ensures
        window_indices(ts, fold, n).contains(i as usize) <==> in_test_window(ts[i], fold),
    decreases n,
{
    lemma_window_indices_in_range(ts, fold, n - 1);
    let prev = window_indices(ts, fold, n - 1);
    if i < n - 1 {
        lemma_window_indices_exact(ts, fold, n - 1, i);
        if in_test_window(ts[n - 1], fold) {
            let cur = prev.push((n - 1) as usize);
            assert(window_indices(ts, fold, n) == cur);
            if prev.contains(i as usize) {
                let w = choose|w: int| 0 <= w < prev.len() && prev[w] == i as usize;
                assert(cur[w] == i as usize);
            }
            if cur.contains(i as usize) {
                let w = choose|w: int| 0 <= w < cur.len() && cur[w] == i as usize;
                if w == prev.len() {
                    assert(cur[w] == (n - 1) as usize);
                } else {
                    assert(prev[w] == i as usize);
                }
            }
        }
    } else {
        if in_test_window(ts[n - 1], fold) {
            let cur = prev.push((n - 1) as usize);
            assert(cur[prev.len() as int] == i as usize);
        } else {
            if prev.contains(i as usize) {
                let w = choose|w: int| 0 <= w < prev.len() && prev[w] == i as usize;
                assert(prev[w] < n - 1);
            }
        }
    }
}

} // verus!
