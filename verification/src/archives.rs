//! Archive bookkeeping for ticks, trades and books: timestamp-gap
//! detection per stream, gap statistics and order-book delta
//! reconstruction.
use vstd::prelude::*;
use crate::storage::StorageConfig;
use crate::clock::utc_now_millis;
use crate::batching::{push_outcome, BatchQueue, BatchQueueView};

verus! {

/// Archives configuration.
#[derive(Debug, Clone)]
pub struct ArchivesConfig {
    pub storage_config: StorageConfig,
    pub gap_detection_threshold_ms: u64,
    pub max_gap_size_ms: u64,
    pub replay_batch_size: usize,
}

impl Default for ArchivesConfig {
    fn default() -> (c: Self)
        ensures
            c.storage_config.base_path@ == "data"@,
            c.gap_detection_threshold_ms == 60_000,
            c.max_gap_size_ms == 3_600_000,
            c.replay_batch_size == 10_000,
    {
        ArchivesConfig {
            storage_config: StorageConfig::default(),
            gap_detection_threshold_ms: 60_000,
            max_gap_size_ms: 3_600_000,
            replay_batch_size: 10_000,
        }
    }
}

/// How long a timestamp gap is: under a minute, under an hour, or more.
#[derive(Debug, Clone, Copy, PartialEq, Eq, Structural)]
pub enum GapSeverity {
    Minor,
    Major,
    Critical,
}

/// The severity of a gap of `gap_size_ms` milliseconds.
pub open spec fn spec_gap_severity(gap_size_ms: u64) -> GapSeverity {
    if gap_size_ms < 60_000 {
        GapSeverity::Minor
    } else if gap_size_ms < 3_600_000 {
        GapSeverity::Major
    } else {
        GapSeverity::Critical
    }
}

/// The severity of a gap of `gap_size_ms` milliseconds.
pub fn gap_severity(gap_size_ms: u64) -> (s: GapSeverity)
    ensures
        s == spec_gap_severity(gap_size_ms),
{
    if gap_size_ms < 60_000 {
        GapSeverity::Minor
    } else if gap_size_ms < 3_600_000 {
        GapSeverity::Major
    } else {
        GapSeverity::Critical
    }
}

/// A gap in one data stream of a symbol. `detected_at` is in milliseconds
/// since the Unix epoch.
#[derive(Debug, Clone)]
pub struct DataGap {
    pub symbol: String,
    pub exchange: String,
    pub expected_timestamp: u64,
    pub actual_timestamp: u64,
    pub gap_size_ms: u64,
    pub detected_at: i64,
    pub severity: GapSeverity,
}

/// Summary of the gaps of an archive.
#[derive(Debug, Clone, Copy, PartialEq, Eq, Structural)]
pub struct GapStats {
    pub total_gaps: usize,
    pub minor_gaps: usize,
    pub major_gaps: usize,
    pub critical_gaps: usize,
    pub total_gap_ms: u64,
    pub avg_gap_ms: u64,
}

/// The data streams an archive tracks separately.
#[derive(Debug, Clone, Copy, PartialEq, Eq, Structural)]
pub enum StreamKind {
    Observation,
    Trade,
    OrderBook,
}

/// Number of gaps in `gaps` with severity `sev`.
pub open spec fn count_severity(gaps: Seq<DataGap>, sev: GapSeverity) -> nat
    decreases gaps.len(),
{
    if gaps.len() == 0 {
        0
    } else {
        count_severity(gaps.drop_last(), sev) + if gaps.last().severity == sev { 1nat } else { 0nat }
    }
}

/// Total length of the gaps in `gaps`, in milliseconds.
pub open spec fn sum_gap_ms(gaps: Seq<DataGap>) -> nat
    decreases gaps.len(),
{
    if gaps.len() == 0 { 0 } else { sum_gap_ms(gaps.drop_last()) + gaps.last().gap_size_ms as nat }
}

/// The statistics of `gaps`.
pub open spec fn spec_gap_stats(gaps: Seq<DataGap>) -> GapStats {
    GapStats {
        total_gaps: gaps.len() as usize,
        minor_gaps: count_severity(gaps, GapSeverity::Minor) as usize,
        major_gaps: count_severity(gaps, GapSeverity::Major) as usize,
        critical_gaps: count_severity(gaps, GapSeverity::Critical) as usize,
        total_gap_ms: sum_gap_ms(gaps) as u64,
        avg_gap_ms: if gaps.len() > 0 { (sum_gap_ms(gaps) / gaps.len()) as u64 } else { 0 },
    }
}

proof fn lemma_count_bounded(gaps: Seq<DataGap>, sev: GapSeverity)
    ensures
        count_severity(gaps, sev) <= gaps.len(),
    decreases gaps.len(),
{
    if gaps.len() > 0 {
        lemma_count_bounded(gaps.drop_last(), sev);
    }
}

proof fn lemma_sum_monotone(gaps: Seq<DataGap>, i: int)
    requires
        0 <= i <= gaps.len(),
    ensures
        sum_gap_ms(gaps.take(i)) <= sum_gap_ms(gaps),
    decreases gaps.len(),
{
    if i < gaps.len() {
        assert(gaps.drop_last().take(i) =~= gaps.take(i));
        lemma_sum_monotone(gaps.drop_last(), i);
    } else {
        assert(gaps.take(i) =~= gaps);
    }
}

/// Summarises `gaps`: counts per severity, total and mean length.
pub fn gap_stats(gaps: &Vec<DataGap>) -> (st: GapStats)
    requires
        sum_gap_ms(gaps@) <= u64::MAX,
    ensures
        st == spec_gap_stats(gaps@),
{
    let mut minor: usize = 0;
    let mut major: usize = 0;
    let mut critical: usize = 0;
    let mut total_ms: u64 = 0;
    let mut i: usize = 0;
    while i < gaps.len()
        invariant
            i <= gaps.len(),
            sum_gap_ms(gaps@) <= u64::MAX,
            minor == count_severity(gaps@.take(i as int), GapSeverity::Minor),
            major == count_severity(gaps@.take(i as int), GapSeverity::Major),
            critical == count_severity(gaps@.take(i as int), GapSeverity::Critical),
            total_ms == sum_gap_ms(gaps@.take(i as int)),
        decreases gaps.len() - i,
    {
        proof {
            assert(gaps@.take(i as int + 1).drop_last() =~= gaps@.take(i as int));
            lemma_sum_monotone(gaps@, i as int + 1);
            lemma_count_bounded(gaps@.take(i as int), GapSeverity::Minor);
            lemma_count_bounded(gaps@.take(i as int), GapSeverity::Major);
            lemma_count_bounded(gaps@.take(i as int), GapSeverity::Critical);
        }
        let g = &gaps[i];
        match g.severity {
            GapSeverity::Minor => { minor = minor + 1; },
            GapSeverity::Major => { major = major + 1; },
            GapSeverity::Critical => { critical = critical + 1; },
        }
        total_ms = total_ms + g.gap_size_ms;
        i = i + 1;
    }
    proof {
        assert(gaps@.take(i as int) =~= gaps@);
    }
    let total = gaps.len();
    GapStats {
        total_gaps: total,
        minor_gaps: minor,
        major_gaps: major,
        critical_gaps: critical,
        total_gap_ms: total_ms,
        avg_gap_ms: if total > 0 { total_ms / (total as u64) } else { 0 },
    }
}

/// Every gap has exactly one severity: the per-severity counts add up to
/// the number of gaps.
pub proof fn lemma_severity_counts_partition(gaps: Seq<DataGap>)
    ensures
        count_severity(gaps, GapSeverity::Minor) + count_severity(gaps, GapSeverity::Major)
            + count_severity(gaps, GapSeverity::Critical) == gaps.len(),
    decreases gaps.len(),
{
    if gaps.len() > 0 {
        lemma_severity_counts_partition(gaps.drop_last());
    }
}

/// The gap that a new timestamp `timestamp` opens after `last` in a
/// stream, if it lies more than `threshold_ms` after it.
pub open spec fn stream_gap(last: Option<u64>, timestamp: u64, threshold_ms: u64) -> Option<(u64, u64)> {
    match last {
        Some(l) if timestamp > l + threshold_ms => Some(((l + 1) as u64, (timestamp - l) as u64)),
        _ => None,
    }
}

/// `g` is the gap that recording `timestamp` on stream `kind` of tracker
/// state `s` opens: it names the tracker's symbol and exchange, runs from
/// just after the stream's last timestamp to `timestamp`, and is sized and
/// classified by that distance. Only its detection time is left open.
pub open spec fn describes_gap(s: GapTrackerState, kind: StreamKind, timestamp: u64, g: DataGap) -> bool {
    match stream_gap(last_of(s, kind), timestamp, s.threshold_ms) {
        Some((expected, size)) => {
            &&& g.symbol@ == s.symbol
            &&& g.exchange@ == s.exchange
            &&& g.expected_timestamp == expected
            &&& g.actual_timestamp == timestamp
            &&& g.gap_size_ms == size
            &&& g.severity == spec_gap_severity(size)
        },
        None => false,
    }
}

/// Per-stream last timestamps and detected gaps of one symbol archive.
#[derive(Debug)]
pub struct GapTracker {
    symbol: String,
    exchange: String,
    gap_detection_threshold_ms: u64,
    last_observation: Option<u64>,
    last_trade: Option<u64>,
    last_orderbook: Option<u64>,
    gaps: Vec<DataGap>,
}

/// Abstract state of a [`GapTracker`].
pub struct GapTrackerState {
    pub symbol: Seq<char>,
    pub exchange: Seq<char>,
    pub threshold_ms: u64,
    pub last_observation: Option<u64>,
    pub last_trade: Option<u64>,
    pub last_orderbook: Option<u64>,
    pub gaps: Seq<DataGap>,
}

impl View for GapTracker {
    type V = GapTrackerState;

    closed spec fn view(&self) -> GapTrackerState {
        GapTrackerState {
            symbol: self.symbol@,
            exchange: self.exchange@,
            threshold_ms: self.gap_detection_threshold_ms,
            last_observation: self.last_observation,
            last_trade: self.last_trade,
            last_orderbook: self.last_orderbook,
            gaps: self.gaps@,
        }
    }
}

/// The last timestamp of stream `kind`.
pub open spec fn last_of(s: GapTrackerState, kind: StreamKind) -> Option<u64> {
    match kind {
        StreamKind::Observation => s.last_observation,
        StreamKind::Trade => s.last_trade,
        StreamKind::OrderBook => s.last_orderbook,
    }
}

/// Whether recording `timestamp` on stream `kind` stays within `u64`.
pub open spec fn record_defined(s: GapTrackerState, kind: StreamKind, timestamp: u64) -> bool {
    last_of(s, kind) matches Some(l) ==> l + s.threshold_ms <= u64::MAX
}

impl GapTracker {
    /// No stream has seen anything yet.
    pub fn new(symbol: String, exchange: String, gap_detection_threshold_ms: u64) -> (t: Self)
        ensures
            t@.symbol == symbol@,
            t@.exchange == exchange@,
            t@.threshold_ms == gap_detection_threshold_ms,
            t@.last_observation is None,
            t@.last_trade is None,
            t@.last_orderbook is None,
            t@.gaps == Seq::<DataGap>::empty(),
    {
        GapTracker {
            symbol,
            exchange,
            gap_detection_threshold_ms,
            last_observation: None,
            last_trade: None,
            last_orderbook: None,
            gaps: Vec::new(),
        }
    }

    /// Records a record of stream `kind` stamped `timestamp`, detected at
    /// `detected_at`: a timestamp more than the threshold after the
    /// stream's last one opens a gap, which is classified, kept and
    /// returned. The stream's last timestamp becomes `timestamp` in any case.
    pub fn record_at(&mut self, kind: StreamKind, timestamp: u64, detected_at: i64) -> (r: Option<DataGap>)
        requires
            record_defined(old(self)@, kind, timestamp),
        ensures
            last_of(final(self)@, kind) == Some(timestamp),
            forall|k: StreamKind| k != kind ==> last_of(final(self)@, k) == last_of(old(self)@, k),
            final(self)@.symbol == old(self)@.symbol,
            final(self)@.exchange == old(self)@.exchange,
            final(self)@.threshold_ms == old(self)@.threshold_ms,
            match stream_gap(last_of(old(self)@, kind), timestamp, old(self)@.threshold_ms) {
                Some((expected, size)) => r matches Some(g) && {
                    &&& g.symbol@ == old(self)@.symbol
                    &&& g.exchange@ == old(self)@.exchange
                    &&& g.expected_timestamp == expected
                    &&& g.actual_timestamp == timestamp
                    &&& g.gap_size_ms == size
                    &&& g.detected_at == detected_at
                    &&& g.severity == spec_gap_severity(size)
                    &&& final(self)@.gaps == old(self)@.gaps.push(g)
                },
                None => r is None && final(self)@.gaps == old(self)@.gaps,
            },
    {
        let last = match kind {
            StreamKind::Observation => self.last_observation,
            StreamKind::Trade => self.last_trade,
            StreamKind::OrderBook => self.last_orderbook,
        };
        let mut result: Option<DataGap> = None;
        if let Some(l) = last {
            if timestamp > l + self.gap_detection_threshold_ms {
                let gap_size = timestamp - l;
                let gap = DataGap {
                    symbol: self.symbol.clone(),
                    exchange: self.exchange.clone(),
                    expected_timestamp: l + 1,
                    actual_timestamp: timestamp,
                    gap_size_ms: gap_size,
                    detected_at,
                    severity: gap_severity(gap_size),
                };
                let kept = DataGap {
                    symbol: self.symbol.clone(),
                    exchange: self.exchange.clone(),
                    expected_timestamp: l + 1,
                    actual_timestamp: timestamp,
                    gap_size_ms: gap_size,
                    detected_at,
                    severity: gap.severity,
                };
                self.gaps.push(kept);
                result = Some(gap);
            }
        }
        match kind {
            StreamKind::Observation => { self.last_observation = Some(timestamp); },
            StreamKind::Trade => { self.last_trade = Some(timestamp); },
            StreamKind::OrderBook => { self.last_orderbook = Some(timestamp); },
        }
        result
    }

    /// As [`GapTracker::record_at`], stamping a detected gap with the
    /// current time.
    pub fn record(&mut self, kind: StreamKind, timestamp: u64) -> (r: Option<DataGap>)
        requires
            record_defined(old(self)@, kind, timestamp),
        ensures
            last_of(final(self)@, kind) == Some(timestamp),
            forall|k: StreamKind| k != kind ==> last_of(final(self)@, k) == last_of(old(self)@, k),
            (r is Some) == (stream_gap(last_of(old(self)@, kind), timestamp, old(self)@.threshold_ms) is Some),
            r matches Some(g) ==> describes_gap(old(self)@, kind, timestamp, g),
            r matches Some(g) ==> final(self)@.gaps == old(self)@.gaps.push(g),
            r is None ==> final(self)@.gaps == old(self)@.gaps,
            final(self)@.symbol == old(self)@.symbol,
            final(self)@.exchange == old(self)@.exchange,
            final(self)@.threshold_ms == old(self)@.threshold_ms,
    {
        let now = utc_now_millis();
        self.record_at(kind, timestamp, now)
    }

    /// The symbol tracked.
    pub fn symbol(&self) -> (s: &str)
        ensures
            s@ == self@.symbol,
    {
        self.symbol.as_str()
    }

    /// The exchange tracked.
    pub fn exchange(&self) -> (s: &str)
        ensures
            s@ == self@.exchange,
    {
        self.exchange.as_str()
    }

    /// Whether recording `timestamp` on stream `kind` is defined (see
    /// [`record_defined`]).
    pub fn can_record(&self, kind: StreamKind, timestamp: u64) -> (b: bool)
        ensures
            b == record_defined(self@, kind, timestamp),
    {
        let last = match kind {
            StreamKind::Observation => self.last_observation,
            StreamKind::Trade => self.last_trade,
            StreamKind::OrderBook => self.last_orderbook,
        };
        match last {
            Some(l) => l <= u64::MAX - self.gap_detection_threshold_ms,
            None => true,
        }
    }

    /// The gaps detected so far, oldest first.
    pub fn gaps(&self) -> (g: &Vec<DataGap>)
        ensures
            g@ == self@.gaps,
    {
        &self.gaps
    }

    /// Statistics over the gaps detected so far.
    pub fn stats(&self) -> (st: GapStats)
        requires
            sum_gap_ms(self@.gaps) <= u64::MAX,
        ensures
            st == spec_gap_stats(self@.gaps),
    {
        gap_stats(&self.gaps)
    }
}

/// A gap is detected only across more than the threshold, and its size is
/// the distance to the previous record of the same stream.
pub proof fn lemma_stream_gap_exceeds_threshold(last: Option<u64>, timestamp: u64, threshold_ms: u64)
    ensures
        stream_gap(last, timestamp, threshold_ms) matches Some((expected, size)) ==> {
            &&& size > threshold_ms
            &&& expected + size == timestamp + 1
        },
{
}

/// Highest sequence number kept in a reconstructed delta stream (0 if none).
pub open spec fn last_kept<T>(kept: Seq<(u64, T)>) -> u64 {
    if kept.len() == 0 { 0 } else { kept.last().0 }
}

/// The deltas (sequence number, payload) that reconstruction keeps: each
/// one whose sequence number is above every one kept before it.
pub open spec fn spec_reconstruct<T>(deltas: Seq<(u64, T)>) -> Seq<(u64, T)>
    decreases deltas.len(),
{
    if deltas.len() == 0 {
        deltas
    } else {
        let prev = spec_reconstruct(deltas.drop_last());
        if deltas.last().0 > last_kept(prev) { prev.push(deltas.last()) } else { prev }
    }
}

/// The consecutive pairs `(previous, next)` of `seqs` that are not one
/// apart.
pub open spec fn spec_sequence_gaps(seqs: Seq<u64>) -> Seq<(u64, u64)>
    decreases seqs.len(),
{
    if seqs.len() < 2 {
        Seq::empty()
    } else {
        let prev = spec_sequence_gaps(seqs.drop_last());
        let p = seqs[seqs.len() - 2];
        if seqs.last() != p + 1 { prev.push((p, seqs.last())) } else { prev }
    }
}

/// Whether `s` holds strictly increasing, positive sequence numbers.
pub open spec fn strictly_increasing<T>(s: Seq<(u64, T)>) -> bool {
    &&& forall|i: int| 0 <= i < s.len() ==> 0 < #[trigger] s[i].0
    &&& forall|i: int, j: int| #![trigger s[i], s[j]] 0 <= i < j < s.len() ==> s[i].0 < s[j].0
}

/// Reconstructs an order-book delta stream: drops every delta whose
/// sequence number does not exceed the last one kept.
pub struct BookReconstructor;

impl BookReconstructor {
    /// The deltas kept, in the order given.
    pub fn reconstruct<T>(deltas: Vec<(u64, T)>) -> (out: Vec<(u64, T)>)
        ensures
            out@ == spec_reconstruct(deltas@),
    {
        let ghost orig = deltas@;
        let mut deltas = deltas;
        let mut out: Vec<(u64, T)> = Vec::new();
        let mut last_seq: u64 = 0;
        let mut k: usize = 0;
        assert(orig.skip(0) =~= orig);
        assert(orig.len() == deltas.len());
        while deltas.len() > 0
            invariant
                k <= orig.len(),
                orig.len() <= usize::MAX,
                deltas.len() + k == orig.len(),
                deltas@ == orig.skip(k as int),
                out@ == spec_reconstruct(orig.take(k as int)),
                last_seq == last_kept(out@),
            decreases deltas.len(),
        {
            let d = deltas.remove(0);
            proof {
                assert(d == orig[k as int]);
                assert(orig.take(k as int + 1).drop_last() =~= orig.take(k as int));
                assert(orig.take(k as int + 1).last() == d);
            }
            if d.0 > last_seq {
                last_seq = d.0;
                out.push(d);
            }
            k = k + 1;
            proof {
                assert(deltas@ =~= orig.skip(k as int));
            }
        }
        proof {
            assert(orig.take(k as int) =~= orig);
        }
        out
    }

    /// Every pair `(previous, next)` of consecutive sequence numbers that
    /// are not one apart.
    pub fn validate_sequence(seqs: &[u64]) -> (gaps: Vec<(u64, u64)>)
        requires
            forall|i: int| 0 <= i < seqs@.len() - 1 ==> seqs@[i] < u64::MAX,
        ensures
            gaps@ == spec_sequence_gaps(seqs@),
    {
        let mut gaps: Vec<(u64, u64)> = Vec::new();
        let mut prev: Option<u64> = None;
        let mut i: usize = 0;
        while i < seqs.len()
            invariant
                i <= seqs@.len(),
                forall|j: int| 0 <= j < seqs@.len() - 1 ==> seqs@[j] < u64::MAX,
                gaps@ == spec_sequence_gaps(seqs@.take(i as int)),
                prev == (if i == 0 { None } else { Some(seqs@[i - 1]) }),
            decreases seqs.len() - i,
        {
            let d = seqs[i];
            proof {
                assert(seqs@.take(i as int + 1).drop_last() =~= seqs@.take(i as int));
            }
            if let Some(p) = prev {
                if d != p + 1 {
                    gaps.push((p, d));
                }
            }
            prev = Some(d);
            i = i + 1;
        }
        proof {
            assert(seqs@.take(i as int) =~= seqs@);
        }
        gaps
    }
}

/// The kept deltas are strictly increasing and positive.
pub proof fn lemma_reconstruct_increasing<T>(deltas: Seq<(u64, T)>)
    ensures
        strictly_increasing(spec_reconstruct(deltas)),
    decreases deltas.len(),
{
    if deltas.len() > 0 {
        let prev = spec_reconstruct(deltas.drop_last());
        lemma_reconstruct_increasing(deltas.drop_last());
        let x = deltas.last();
        if x.0 > last_kept(prev) {
            let out = prev.push(x);
            assert forall|i: int| 0 <= i < out.len() implies 0 < #[trigger] out[i].0 by {
                if i < prev.len() {
                    assert(out[i] == prev[i]);
                }
            }
            assert forall|i: int, j: int| #![trigger out[i], out[j]] 0 <= i < j < out.len() implies out[i].0 < out[j].0 by {
                assert(out[i] == prev[i]);
                if j < prev.len() {
                    assert(out[j] == prev[j]);
                } else if i < prev.len() - 1 {
                    assert(prev[i].0 < prev[prev.len() - 1].0);
                }
            }
        }
    }
}

/// A stream that is already strictly increasing and positive is kept whole.
pub proof fn lemma_reconstruct_keeps_ordered<T>(deltas: Seq<(u64, T)>)
    requires
        strictly_increasing(deltas),
    ensures
        spec_reconstruct(deltas) == deltas,
    decreases deltas.len(),
{
    if deltas.len() > 0 {
        let init = deltas.drop_last();
        assert forall|i: int| 0 <= i < init.len() implies 0 < #[trigger] init[i].0 by {
            assert(init[i] == deltas[i]);
        }
        assert forall|i: int, j: int| #![trigger init[i], init[j]] 0 <= i < j < init.len() implies init[i].0 < init[j].0 by {
            assert(init[i] == deltas[i] && init[j] == deltas[j]);
        }
        lemma_reconstruct_keeps_ordered(init);
        assert(0 < deltas[deltas.len() - 1].0);
        if init.len() > 0 {
            assert(deltas[init.len() - 1].0 < deltas[deltas.len() - 1].0);
        }
        assert(init.push(deltas.last()) =~= deltas);
    }
}

/// Reconstruction is idempotent: a reconstructed stream reconstructs to
/// itself.
pub proof fn lemma_reconstruct_idempotent<T>(deltas: Seq<(u64, T)>)
    ensures
        spec_reconstruct(spec_reconstruct(deltas)) == spec_reconstruct(deltas),
{
    lemma_reconstruct_increasing(deltas);
    lemma_reconstruct_keeps_ordered(spec_reconstruct(deltas));
}

/// Whether position `i` of `seqs` directly follows position `i - 1`.
pub open spec fn steps_by_one(seqs: Seq<u64>, i: int) -> bool {
    seqs[i] == seqs[i - 1] + 1
}

/// A stream reports no sequence gaps exactly when each sequence number is
/// its predecessor plus one.
pub proof fn lemma_no_gaps_iff_consecutive(seqs: Seq<u64>)
    ensures
        spec_sequence_gaps(seqs).len() == 0 <==> forall|i: int| 1 <= i < seqs.len() ==> #[trigger] steps_by_one(seqs, i),
    decreases seqs.len(),
{
    if seqs.len() >= 2 {
        let init = seqs.drop_last();
        lemma_no_gaps_iff_consecutive(init);
        if spec_sequence_gaps(seqs).len() == 0 {
            assert forall|i: int| 1 <= i < seqs.len() implies #[trigger] steps_by_one(seqs, i) by {
                if i < seqs.len() - 1 {
                    assert(steps_by_one(init, i));
                }
            }
        }
        if forall|i: int| 1 <= i < seqs.len() ==> #[trigger] steps_by_one(seqs, i) {
            assert forall|i: int| 1 <= i < init.len() implies #[trigger] steps_by_one(init, i) by {
                assert(steps_by_one(seqs, i));
            }
            assert(steps_by_one(seqs, seqs.len() - 1));
        }
    }
}

/// `idx` lists, in increasing order, exactly the positions `i >= 1` of
/// `seqs` where the number does not follow its predecessor by one, and `r`
/// holds the pair `(previous, next)` of each such position, in that order.
pub open spec fn breaks_listed(seqs: Seq<u64>, r: Seq<(u64, u64)>, idx: Seq<int>) -> bool {
    &&& idx.len() == r.len()
    &&& forall|k: int| 0 <= k < idx.len() ==> {
        &&& 1 <= #[trigger] idx[k] < seqs.len()
        &&& seqs[idx[k]] != seqs[idx[k] - 1] + 1
        &&& r[k] == (seqs[idx[k] - 1], seqs[idx[k]])
    }
    &&& forall|a: int, b: int| 0 <= a < b < idx.len() ==> idx[a] < idx[b]
    &&& forall|i: int| 1 <= i < seqs.len() && seqs[i] != seqs[i - 1] + 1 ==> idx.contains(i)
}

/// The positions of the breaks of `seqs`, with the proof that the gaps
/// reported are exactly those breaks.
proof fn lemma_break_positions(seqs: Seq<u64>) -> (idx: Seq<int>)
    ensures
        breaks_listed(seqs, spec_sequence_gaps(seqs), idx),
    decreases seqs.len(),
{
    if seqs.len() < 2 {
        Seq::empty()
    } else {
        let init = seqs.drop_last();
        let prev = lemma_break_positions(init);
        let n = seqs.len() - 1;
        let p = seqs[n - 1];
        assert forall|k: int| 0 <= k < prev.len() implies 1 <= #[trigger] prev[k] < init.len() by {}
        if seqs.last() != p + 1 {
            let idx = prev.push(n);
            let r = spec_sequence_gaps(seqs);
            assert forall|k: int| 0 <= k < idx.len() implies {
                &&& 1 <= #[trigger] idx[k] < seqs.len()
                &&& seqs[idx[k]] != seqs[idx[k] - 1] + 1
                &&& r[k] == (seqs[idx[k] - 1], seqs[idx[k]])
            } by {
                if k < prev.len() {
                    assert(idx[k] == prev[k]);
                    assert(init[prev[k]] == seqs[prev[k]]);
                    assert(init[prev[k] - 1] == seqs[prev[k] - 1]);
                }
            }
            assert forall|i: int| 1 <= i < seqs.len() && seqs[i] != seqs[i - 1] + 1 implies idx.contains(i) by {
                if i < n {
                    assert(init[i] == seqs[i] && init[i - 1] == seqs[i - 1]);
                    assert(init[i] != init[i - 1] + 1);
                    assert(prev.contains(i));
                    let k = choose|k: int| 0 <= k < prev.len() && prev[k] == i;
                    assert(idx[k] == i);
                } else {
                    assert(idx[prev.len() as int] == i);
                }
            }
            idx
        } else {
            let r = spec_sequence_gaps(seqs);
            assert forall|k: int| 0 <= k < prev.len() implies {
                &&& 1 <= #[trigger] prev[k] < seqs.len()
                &&& seqs[prev[k]] != seqs[prev[k] - 1] + 1
                &&& r[k] == (seqs[prev[k] - 1], seqs[prev[k]])
            } by {
                assert(init[prev[k]] == seqs[prev[k]]);
                assert(init[prev[k] - 1] == seqs[prev[k] - 1]);
            }
            assert forall|i: int| 1 <= i < seqs.len() && seqs[i] != seqs[i - 1] + 1 implies prev.contains(i) by {
                assert(i < n);
                assert(init[i] == seqs[i] && init[i - 1] == seqs[i - 1]);
                assert(init[i] != init[i - 1] + 1);
            }
            prev
        }
    }
}

/// Every break of a sequence is reported, in order, and nothing else is:
/// the pairs `(previous, next)` that `validate_sequence` returns are those
/// of the positions where a number does not follow its predecessor by one,
/// one pair per such position, in the order of the positions.
pub proof fn lemma_every_break_reported(seqs: Seq<u64>)
    ensures
        exists|idx: Seq<int>| breaks_listed(seqs, spec_sequence_gaps(seqs), idx),
{
    let idx = lemma_break_positions(seqs);
}

/// `t` is tracker `s` after recording `timestamp` on stream `kind`, the
/// detected gap being `gap`: the stream's last timestamp is `timestamp`,
/// the other streams are unchanged, and a gap (kept) is detected exactly
/// across more than the threshold.
pub open spec fn tracker_recorded(s: GapTrackerState, t: GapTrackerState, kind: StreamKind, timestamp: u64,
    gap: Option<DataGap>) -> bool {
    &&& last_of(t, kind) == Some(timestamp)
    &&& forall|k: StreamKind| k != kind ==> last_of(t, k) == last_of(s, k)
    &&& (gap is Some) == (stream_gap(last_of(s, kind), timestamp, s.threshold_ms) is Some)
    &&& gap matches Some(g) ==> describes_gap(s, kind, timestamp, g)
    &&& gap matches Some(g) ==> t.gaps == s.gaps.push(g)
    &&& gap is None ==> t.gaps == s.gaps
    &&& t.symbol == s.symbol
    &&& t.exchange == s.exchange
    &&& t.threshold_ms == s.threshold_ms
}

/// `q2` is write queue `q` after queuing `x`, `out` being the full batch
/// handed out for writing, if the queue filled up.
pub open spec fn queued<X>(q: BatchQueueView<X>, q2: BatchQueueView<X>, x: X, out: Option<Vec<X>>) -> bool {
    &&& q2.batch_size == q.batch_size
    &&& q2.pending == push_outcome(q.pending, x, q.batch_size).1
    &&& match push_outcome(q.pending, x, q.batch_size).0 {
        Some(b) => out matches Some(v) && v@ == b,
        None => out is None,
    }
}

/// `a` is an empty archive of `symbol` on `exchange` under `config`.
pub open spec fn fresh_archive<O, T, B>(a: SymbolArchive<O, T, B>, config: ArchivesConfig, symbol: Seq<char>,
    exchange: Seq<char>) -> bool {
    &&& a.tracker@.symbol == symbol
    &&& a.tracker@.exchange == exchange
    &&& a.tracker@.threshold_ms == config.gap_detection_threshold_ms
    &&& a.tracker@.last_observation is None
    &&& a.tracker@.last_trade is None
    &&& a.tracker@.last_orderbook is None
    &&& a.tracker@.gaps == Seq::<DataGap>::empty()
    &&& a.observations@.pending == Seq::<O>::empty()
    &&& a.observations@.batch_size == config.replay_batch_size
    &&& a.trades@.pending == Seq::<T>::empty()
    &&& a.trades@.batch_size == config.replay_batch_size
    &&& a.books@.pending == Seq::<B>::empty()
    &&& a.books@.batch_size == config.replay_batch_size
}

/// `b` is archive `a` after archiving observation `obs` stamped
/// `timestamp` with result `r` (detected gap, batch to write).
pub open spec fn observation_archived<O, T, B>(a: SymbolArchive<O, T, B>, b: SymbolArchive<O, T, B>, obs: O,
    timestamp: u64, r: (Option<DataGap>, Option<Vec<O>>)) -> bool {
    &&& tracker_recorded(a.tracker@, b.tracker@, StreamKind::Observation, timestamp, r.0)
    &&& queued(a.observations@, b.observations@, obs, r.1)
    &&& b.trades@ == a.trades@
    &&& b.books@ == a.books@
}

/// `b` is archive `a` after archiving trade `trade` stamped `timestamp`
/// with result `r`.
pub open spec fn trade_archived<O, T, B>(a: SymbolArchive<O, T, B>, b: SymbolArchive<O, T, B>, trade: T,
    timestamp: u64, r: (Option<DataGap>, Option<Vec<T>>)) -> bool {
    &&& tracker_recorded(a.tracker@, b.tracker@, StreamKind::Trade, timestamp, r.0)
    &&& queued(a.trades@, b.trades@, trade, r.1)
    &&& b.observations@ == a.observations@
    &&& b.books@ == a.books@
}

/// `b` is archive `a` after archiving order book `book` stamped
/// `timestamp` with result `r`.
pub open spec fn book_archived<O, T, B>(a: SymbolArchive<O, T, B>, b: SymbolArchive<O, T, B>, book: B,
    timestamp: u64, r: (Option<DataGap>, Option<Vec<B>>)) -> bool {
    &&& tracker_recorded(a.tracker@, b.tracker@, StreamKind::OrderBook, timestamp, r.0)
    &&& queued(a.books@, b.books@, book, r.1)
    &&& b.observations@ == a.observations@
    &&& b.trades@ == a.trades@
}

/// The archive of one symbol: gap detection per stream and the records
/// waiting to be written, in batches of `replay_batch_size`.
#[derive(Debug)]
pub struct SymbolArchive<O, T, B> {
    pub tracker: GapTracker,
    pub observations: BatchQueue<O>,
    pub trades: BatchQueue<T>,
    pub books: BatchQueue<B>,
}

impl<O, T, B> SymbolArchive<O, T, B> {
    /// An empty archive of `symbol` on `exchange`.
    pub fn new(config: &ArchivesConfig, symbol: String, exchange: String) -> (a: Self)
        ensures
            fresh_archive(a, *config, symbol@, exchange@),
    {
        SymbolArchive {
            tracker: GapTracker::new(symbol, exchange, config.gap_detection_threshold_ms),
            observations: BatchQueue::new(config.replay_batch_size),
            trades: BatchQueue::new(config.replay_batch_size),
            books: BatchQueue::new(config.replay_batch_size),
        }
    }

    /// Archives an observation stamped `timestamp`: gap detection on the
    /// observation stream, then the write queue (a full batch is returned
    /// for writing).
    pub fn add_observation(&mut self, obs: O, timestamp: u64) -> (r: (Option<DataGap>, Option<Vec<O>>))
        requires
            record_defined(old(self).tracker@, StreamKind::Observation, timestamp),
        ensures
            observation_archived(*old(self), *final(self), obs, timestamp, r),
    {
        let gap = self.tracker.record(StreamKind::Observation, timestamp);
        let batch = self.observations.push(obs);
        (gap, batch)
    }

    /// Archives a trade stamped `timestamp` (see `add_observation`).
    pub fn add_trade(&mut self, trade: T, timestamp: u64) -> (r: (Option<DataGap>, Option<Vec<T>>))
        requires
            record_defined(old(self).tracker@, StreamKind::Trade, timestamp),
        ensures
            trade_archived(*old(self), *final(self), trade, timestamp, r),
    {
        let gap = self.tracker.record(StreamKind::Trade, timestamp);
        let batch = self.trades.push(trade);
        (gap, batch)
    }

    /// Archives an order book stamped `timestamp` (see `add_observation`).
    pub fn add_orderbook(&mut self, book: B, timestamp: u64) -> (r: (Option<DataGap>, Option<Vec<B>>))
        requires
            record_defined(old(self).tracker@, StreamKind::OrderBook, timestamp),
        ensures
            book_archived(*old(self), *final(self), book, timestamp, r),
    {
        let gap = self.tracker.record(StreamKind::OrderBook, timestamp);
        let batch = self.books.push(book);
        (gap, batch)
    }

    /// Takes out everything queued on the three streams, for writing.
    pub fn flush_all(&mut self) -> (r: (Option<Vec<O>>, Option<Vec<T>>, Option<Vec<B>>))
        ensures
            final(self).observations@.pending == Seq::<O>::empty(),
            final(self).trades@.pending == Seq::<T>::empty(),
            final(self).books@.pending == Seq::<B>::empty(),
            old(self).observations@.pending.len() > 0 ==> (r.0 matches Some(v) && v@ == old(self).observations@.pending),
            old(self).observations@.pending.len() == 0 ==> r.0 is None,
            old(self).trades@.pending.len() > 0 ==> (r.1 matches Some(v) && v@ == old(self).trades@.pending),
            old(self).trades@.pending.len() == 0 ==> r.1 is None,
            old(self).books@.pending.len() > 0 ==> (r.2 matches Some(v) && v@ == old(self).books@.pending),
            old(self).books@.pending.len() == 0 ==> r.2 is None,
            final(self).tracker@ == old(self).tracker@,
            final(self).observations@.batch_size == old(self).observations@.batch_size,
            final(self).trades@.batch_size == old(self).trades@.batch_size,
            final(self).books@.batch_size == old(self).books@.batch_size,
    {
        (self.observations.take_all(), self.trades.take_all(), self.books.take_all())
    }

    /// The gaps detected so far, oldest first.
    pub fn get_gaps(&self) -> (g: &Vec<DataGap>)
        ensures
            g@ == self.tracker@.gaps,
    {
        self.tracker.gaps()
    }

    /// Statistics over the gaps detected so far.
    pub fn gap_stats(&self) -> (st: GapStats)
        requires
            sum_gap_ms(self.tracker@.gaps) <= u64::MAX,
        ensures
            st == spec_gap_stats(self.tracker@.gaps),
    {
        self.tracker.stats()
    }

    /// The observations archived between `start_ts` and `end_ts`, read
    /// back from storage. Nothing is read back from storage yet: the list
    /// is always empty.
    pub fn replay_observations(&self, start_ts: u64, end_ts: u64) -> (r: Vec<O>)
        ensures
            r@ == Seq::<O>::empty(),
    {
        Vec::new()
    }
}

} // verus!
