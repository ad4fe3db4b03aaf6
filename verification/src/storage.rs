//! Storage-layer bookkeeping: configuration, sequence-gap detection and
//! duplicate suppression for persisted market data.
use vstd::prelude::*;
use std::collections::HashSet;

verus! {

/// Parquet compression codec of the storage layer.
#[derive(Debug, Clone, Copy, PartialEq, Eq, Structural)]
pub enum Compression {
    Uncompressed,
    Snappy,
    Gzip,
    Zstd,
}

/// Storage configuration. `base_path` is the root directory of the
/// dataset tree.
#[derive(Debug, Clone)]
pub struct StorageConfig {
    pub base_path: String,
    pub compression: Compression,
    pub row_group_size: usize,
    pub max_batch_size: usize,
}

impl Default for StorageConfig {
    fn default() -> (c: Self)
        ensures
            c.base_path@ == "data"@,
            c.compression == Compression::Snappy,
            c.row_group_size == 65_536,
            c.max_batch_size == 10_000,
    {
        StorageConfig {
            base_path: "data".to_owned(),
            compression: Compression::Snappy,
            row_group_size: 65_536,
            max_batch_size: 10_000,
        }
    }
}

/// Kind of dataset a manifest describes.
#[derive(Debug, Clone, Copy, PartialEq, Eq, Structural)]
pub enum DatasetType {
    Observations,
    Trades,
    OrderBooks,
    OrderBookDeltas,
}

/// Kind of change to an order-book level.
#[derive(Debug, Clone, Copy, PartialEq, Eq, Structural)]
pub enum ChangeType {
    Add,
    Update,
    Remove,
}

/// How serious a sequence gap is.
#[derive(Debug, Clone, Copy, PartialEq, Eq, Structural)]
pub enum GapSeverity {
    Minor,
    Major,
    Critical,
}

/// A detected run of missing sequence numbers.
#[derive(Debug, Clone, Copy, PartialEq, Eq, Structural)]
pub struct SequenceGap {
    pub expected_sequence: u64,
    pub actual_sequence: u64,
    pub gap_size: u64,
    pub timestamp: u64,
    pub severity: GapSeverity,
}

/// Gap detector for sequence validation. Keeps the most recent gaps, at
/// most `max_gap_history` of them, oldest first. It keeps no invariant, so
/// every field is open to callers and its view shows each one as it is.
pub struct GapDetector {
    pub min_gap_threshold: u64,
    pub critical_gap_threshold: u64,
    pub max_gap_history: usize,
    pub gaps: Vec<SequenceGap>,
}

/// Abstract state of a [`GapDetector`].
pub struct GapDetectorState {
    pub min_gap_threshold: u64,
    pub critical_gap_threshold: u64,
    pub max_gap_history: usize,
    pub gaps: Seq<SequenceGap>,
}

impl View for GapDetector {
    type V = GapDetectorState;

    open spec fn view(&self) -> GapDetectorState {
        GapDetectorState {
            min_gap_threshold: self.min_gap_threshold,
            critical_gap_threshold: self.critical_gap_threshold,
            max_gap_history: self.max_gap_history,
            gaps: self.gaps@,
        }
    }
}

/// The gap record for `sequence` following `last_sequence`, if the number
/// of missing sequence numbers reaches `min_gap`.
pub open spec fn detect_gap(min_gap: u64, critical_gap: u64, sequence: u64, last_sequence: u64, timestamp: u64) -> Option<SequenceGap> {
    if sequence <= last_sequence {
        None
    } else {
        let gap = (sequence - last_sequence - 1) as u64;
        if gap >= min_gap {
            Some(SequenceGap {
                expected_sequence: (last_sequence + 1) as u64,
                actual_sequence: sequence,
                gap_size: gap,
                timestamp,
                severity: if gap >= critical_gap {
                    GapSeverity::Critical
                } else if gap >= min_gap * 10 {
                    GapSeverity::Major
                } else {
                    GapSeverity::Minor
                },
            })
        } else {
            None
        }
    }
}

/// Whether classifying the gap between `last_sequence` and `sequence`
/// stays within `u64`: the major-gap bound `10 * min_gap` is computed
/// only for gaps below the critical threshold.
pub open spec fn detect_gap_defined(min_gap: u64, critical_gap: u64, sequence: u64, last_sequence: u64) -> bool {
    sequence > last_sequence && (sequence - last_sequence - 1) >= min_gap
        && (sequence - last_sequence - 1) < critical_gap ==> min_gap * 10 <= u64::MAX
}

/// The gap history after recording `g`: appended, and the oldest entry
/// dropped once the history is longer than `max`.
pub open spec fn record_gap(history: Seq<SequenceGap>, g: SequenceGap, max: nat) -> Seq<SequenceGap> {
    let h = history.push(g);
    if h.len() > max { h.drop_first() } else { h }
}

impl GapDetector {
    /// A detector with an empty history of capacity 10000.
    pub fn new(min_gap_threshold: u64, critical_gap_threshold: u64) -> (d: Self)
        ensures
            d@.min_gap_threshold == min_gap_threshold,
            d@.critical_gap_threshold == critical_gap_threshold,
            d@.max_gap_history == 10000,
            d@.gaps == Seq::<SequenceGap>::empty(),
    {
        GapDetector { min_gap_threshold, critical_gap_threshold, max_gap_history: 10000, gaps: Vec::new() }
    }

    /// Checks `sequence` against `last_sequence`; a gap of at least
    /// `min_gap_threshold` missing numbers is classified, recorded and
    /// returned.
    pub fn check_sequence(&mut self, sequence: u64, last_sequence: u64, timestamp: u64) -> (r: Option<SequenceGap>)
        requires
            detect_gap_defined(old(self)@.min_gap_threshold, old(self)@.critical_gap_threshold, sequence, last_sequence),
        ensures
            r == detect_gap(old(self)@.min_gap_threshold, old(self)@.critical_gap_threshold, sequence, last_sequence, timestamp),
            final(self)@.min_gap_threshold == old(self)@.min_gap_threshold,
            final(self)@.critical_gap_threshold == old(self)@.critical_gap_threshold,
            final(self)@.max_gap_history == old(self)@.max_gap_history,
            final(self)@.gaps == (match r {
                Some(g) => record_gap(old(self)@.gaps, g, old(self)@.max_gap_history as nat),
                None => old(self)@.gaps,
            }),
            final(self)@ == detector_step(old(self)@, DetectorCall::Check { sequence, last_sequence, timestamp }),
    {
        if sequence <= last_sequence {
            return None;
        }
        let gap = sequence - last_sequence - 1;
        if gap >= self.min_gap_threshold {
            let severity = if gap >= self.critical_gap_threshold {
                GapSeverity::Critical
            } else if gap >= self.min_gap_threshold * 10 {
                GapSeverity::Major
            } else {
                GapSeverity::Minor
            };
            let gap_record = SequenceGap {
                expected_sequence: last_sequence + 1,
                actual_sequence: sequence,
                gap_size: gap,
                timestamp,
                severity,
            };
            self.gaps.push(gap_record);
            if self.gaps.len() > self.max_gap_history {
                let _ = self.gaps.remove(0);
            }
            Some(gap_record)
        } else {
            None
        }
    }

    /// The recorded gaps, oldest first.
    pub fn get_gaps(&self) -> (g: &[SequenceGap])
        ensures
            g@ == self@.gaps,
    {
        self.gaps.as_slice()
    }

    /// Forgets all recorded gaps.
    pub fn clear(&mut self)
        ensures
            final(self)@.gaps == Seq::<SequenceGap>::empty(),
            final(self)@.min_gap_threshold == old(self)@.min_gap_threshold,
            final(self)@.critical_gap_threshold == old(self)@.critical_gap_threshold,
            final(self)@.max_gap_history == old(self)@.max_gap_history,
            final(self)@ == detector_step(old(self)@, DetectorCall::Clear),
    {
        self.gaps.clear();
    }
}

/// The gap history never grows beyond its capacity.
pub proof fn lemma_gap_history_bounded(history: Seq<SequenceGap>, g: SequenceGap, max: nat)
    requires
        history.len() <= max,
    ensures
        record_gap(history, g, max).len() <= max,
        record_gap(history, g, max).last() == g || max == 0,
{
}

/// A gap is reported exactly when the sequence jumps ahead by more than
/// `min_gap` numbers, and the report describes that jump.
pub proof fn lemma_gap_reported_iff_jump(min_gap: u64, critical_gap: u64, sequence: u64, last_sequence: u64, timestamp: u64)
    ensures
        detect_gap(min_gap, critical_gap, sequence, last_sequence, timestamp) is Some
            <==> (sequence > last_sequence && sequence - last_sequence - 1 >= min_gap),
        detect_gap(min_gap, critical_gap, sequence, last_sequence, timestamp) matches Some(g) ==> {
            &&& g.expected_sequence == last_sequence + 1
            &&& g.actual_sequence == sequence
            &&& g.gap_size == sequence - g.expected_sequence
            &&& (g.severity == GapSeverity::Critical <==> g.gap_size >= critical_gap)
        },
{
}

/// A call on a [`GapDetector`]: a sequence check or a clear.
#[derive(Debug, Clone, Copy, PartialEq, Eq, Structural)]
pub enum DetectorCall {
    Check { sequence: u64, last_sequence: u64, timestamp: u64 },
    Clear,
}

/// The detector state after `call` on state `s`, as
/// [`GapDetector::check_sequence`] and [`GapDetector::clear`] state it.
pub open spec fn detector_step(s: GapDetectorState, call: DetectorCall) -> GapDetectorState {
    match call {
        DetectorCall::Check { sequence, last_sequence, timestamp } => GapDetectorState {
            gaps: match detect_gap(s.min_gap_threshold, s.critical_gap_threshold, sequence, last_sequence, timestamp) {
                Some(g) => record_gap(s.gaps, g, s.max_gap_history as nat),
                None => s.gaps,
            },
            ..s
        },
        DetectorCall::Clear => GapDetectorState { gaps: Seq::empty(), ..s },
    }
}

/// The detector state after each of `calls` in turn, from `s`.
pub open spec fn detector_after(s: GapDetectorState, calls: Seq<DetectorCall>) -> GapDetectorState
    decreases calls.len(),
{
    if calls.len() == 0 { s } else { detector_step(detector_after(s, calls.drop_last()), calls.last()) }
}

/// The gaps that the checks among `calls` reported since the last clear,
/// in call order, under the thresholds of `s`.
pub open spec fn reported_since_clear(s: GapDetectorState, calls: Seq<DetectorCall>) -> Seq<SequenceGap>
    decreases calls.len(),
{
    if calls.len() == 0 {
        Seq::empty()
    } else {
        let before = reported_since_clear(s, calls.drop_last());
        match calls.last() {
            DetectorCall::Check { sequence, last_sequence, timestamp } =>
                match detect_gap(s.min_gap_threshold, s.critical_gap_threshold, sequence, last_sequence, timestamp) {
                    Some(g) => before.push(g),
                    None => before,
                },
            DetectorCall::Clear => Seq::empty(),
        }
    }
}

/// The last `n` entries of `s` (all of them when there are fewer).
pub open spec fn last_n<A>(s: Seq<A>, n: nat) -> Seq<A> {
    if s.len() <= n { s } else { s.skip(s.len() - n) }
}

/// The history of a new detector after any run of checks and clears: the
/// gaps reported since the last clear, in the order reported, of which only
/// the newest `max_gap_history` are kept; the thresholds and the capacity
/// do not change.
pub proof fn lemma_history_is_recent_reports(s: GapDetectorState, calls: Seq<DetectorCall>)
    requires
        s.gaps == Seq::<SequenceGap>::empty(),
    ensures
        detector_after(s, calls).gaps == last_n(reported_since_clear(s, calls), s.max_gap_history as nat),
        detector_after(s, calls).min_gap_threshold == s.min_gap_threshold,
        detector_after(s, calls).critical_gap_threshold == s.critical_gap_threshold,
        detector_after(s, calls).max_gap_history == s.max_gap_history,
    decreases calls.len(),
{
    if calls.len() > 0 {
        let prev = calls.drop_last();
        lemma_history_is_recent_reports(s, prev);
        let r = reported_since_clear(s, prev);
        let m = s.max_gap_history as nat;
        let h = detector_after(s, prev).gaps;
        match calls.last() {
            DetectorCall::Check { sequence, last_sequence, timestamp } => {
                match detect_gap(s.min_gap_threshold, s.critical_gap_threshold, sequence, last_sequence, timestamp) {
                    Some(g) => {
                        let r2 = r.push(g);
                        if r.len() + 1 <= m {
                            assert(h == r);
                        } else if r.len() >= m {
                            assert(h.push(g).drop_first() =~= r2.skip(r2.len() - m));
                        }
                    },
                    None => {},
                }
            },
            DetectorCall::Clear => {
                assert(last_n(Seq::<SequenceGap>::empty(), m) =~= Seq::<SequenceGap>::empty());
            },
        }
    }
}

/// How a reported gap is classified, by the number of missing sequence
/// numbers: `Critical` from the critical threshold up; below it, `Major`
/// from ten times the minimum gap threshold up, and `Minor` under that. The
/// gap reports the first missing number, the number received, and how many
/// are missing in between, at the given timestamp.
pub proof fn lemma_gap_severity_bands(min_gap: u64, critical_gap: u64, sequence: u64, last_sequence: u64,
    timestamp: u64)
    ensures
        detect_gap(min_gap, critical_gap, sequence, last_sequence, timestamp) matches Some(g) ==> {
            let missing = sequence - last_sequence - 1;
            &&& g.expected_sequence == last_sequence + 1
            &&& g.actual_sequence == sequence
            &&& g.gap_size == missing
            &&& g.timestamp == timestamp
            &&& missing >= min_gap
            &&& (g.severity == GapSeverity::Critical <==> missing >= critical_gap)
            &&& (g.severity == GapSeverity::Major <==> (missing < critical_gap && missing >= 10 * min_gap))
            &&& (g.severity == GapSeverity::Minor <==> (missing < critical_gap && missing < 10 * min_gap))
        },
        (detect_gap(min_gap, critical_gap, sequence, last_sequence, timestamp) is None)
            <==> (sequence <= last_sequence || sequence - last_sequence - 1 < min_gap),
{
}

/// What a [`Deduplicator`] reads of an observation: the fields that
/// identify it.
#[derive(Debug, Clone)]
pub struct ObservationKey {
    pub timestamp: u64,
    pub exchange: String,
    pub symbol: String,
    pub sequence: u64,
}

/// The value of std's `DefaultHasher` (SipHash-1-3 with zero keys) after
/// hashing `timestamp`, `exchange`, `symbol` and `sequence` in that order.
/// The value is fixed for a given target and toolchain: std's `Hash`
/// writes integers and lengths in the machine's byte order and width, and
/// std may change the `DefaultHasher` algorithm between releases. Within
/// one build, equal arguments always give equal values.
pub uninterp spec fn observation_key_hash(timestamp: u64, exchange: Seq<char>, symbol: Seq<char>, sequence: u64) -> u64;

/// Hashes the identifying fields of an observation with std's
/// `DefaultHasher` through `BuildHasher::hash_one`. The result is named,
/// not described: it is `observation_key_hash` of the fields.
#[verifier::external_body]
fn hash_observation_key(key: &ObservationKey) -> (h: u64)
    ensures
        h == observation_key_hash(key.timestamp, key.exchange@, key.symbol@, key.sequence),
{
    std::hash::BuildHasher::hash_one(
        &std::hash::BuildHasherDefault::<std::collections::hash_map::DefaultHasher>::default(),
        (key.timestamp, &key.exchange, &key.symbol, key.sequence),
    )
}

/// The first element that std's `HashSet::iter` visits (the order is
/// arbitrary), or `None` for an empty set. Stated: the element is a member,
/// and there is one exactly when the set is not empty; which member it is
/// is left open, as std leaves it.
#[verifier::external_body]
fn first_visited(set: &HashSet<u64>) -> (e: Option<u64>)
    ensures
        e matches Some(x) ==> set@.contains(x),
        e is None <==> set@.is_empty(),
{
    set.iter().next().copied()
}

/// Abstract state of a [`Deduplicator`]: the hashes seen, and the most it
/// keeps.
pub struct DeduplicatorState {
    pub seen: Set<u64>,
    pub max_entries: usize,
}

/// How checking hash `h` takes a deduplicator from `s` to `t`, answering
/// `dup`: a seen hash is reported and changes nothing; a new one is
/// remembered, and if that exceeds the capacity some remembered hash is
/// forgotten.
pub open spec fn dedup_step(s: DeduplicatorState, h: u64, t: DeduplicatorState, dup: bool) -> bool {
    let grown = s.seen.insert(h);
    &&& dup == s.seen.contains(h)
    &&& t.max_entries == s.max_entries
    &&& dup ==> t.seen == s.seen
    &&& !dup && grown.len() <= s.max_entries ==> t.seen == grown
    &&& !dup && grown.len() > s.max_entries ==> exists|e: u64| grown.contains(e) && t.seen == grown.remove(e)
}

/// Remembers the hashes of recently seen observations, at most
/// `max_entries` of them.
pub struct Deduplicator {
    seen_hashes: HashSet<u64>,
    max_entries: usize,
}

impl View for Deduplicator {
    type V = DeduplicatorState;

    closed spec fn view(&self) -> DeduplicatorState {
        DeduplicatorState { seen: self.seen_hashes@, max_entries: self.max_entries }
    }
}

impl Deduplicator {
    /// Nothing seen yet.
    pub fn new(max_entries: usize) -> (d: Self)
        ensures
            d@.seen == Set::<u64>::empty(),
            d@.max_entries == max_entries,
    {
        Deduplicator { seen_hashes: HashSet::with_capacity(max_entries), max_entries }
    }

    /// Whether an observation with this key was seen before. A new key is
    /// remembered; when that makes the set larger than `max_entries`, one
    /// remembered hash (an arbitrary one) is forgotten.
    pub fn is_duplicate(&mut self, key: &ObservationKey) -> (dup: bool)
        ensures
            dedup_step(old(self)@, observation_key_hash(key.timestamp, key.exchange@, key.symbol@, key.sequence), final(self)@, dup),
    {
        let hash = hash_observation_key(key);
        if self.seen_hashes.contains(&hash) {
            return true;
        }
        self.seen_hashes.insert(hash);
        if self.seen_hashes.len() > self.max_entries {
            match first_visited(&self.seen_hashes) {
                Some(e) => {
                    self.seen_hashes.remove(&e);
                },
                None => {},
            }
        }
        false
    }

    /// Forgets every remembered hash.
    pub fn clear(&mut self)
        ensures
            final(self)@.seen == Set::<u64>::empty(),
            final(self)@.max_entries == old(self)@.max_entries,
    {
        self.seen_hashes.clear();
    }
}

/// A deduplicator within its capacity stays within it.
pub proof fn lemma_dedup_within_capacity(s: DeduplicatorState, h: u64, t: DeduplicatorState, dup: bool)
    requires
        s.seen.finite(),
        s.seen.len() <= s.max_entries,
        dedup_step(s, h, t, dup),
    ensures
        t.seen.len() <= t.max_entries,
{
    if !dup && s.seen.insert(h).len() > s.max_entries {
        let e = choose|e: u64| s.seen.insert(h).contains(e) && t.seen == s.seen.insert(h).remove(e);
        assert(t.seen.len() == s.seen.insert(h).len() - 1);
    }
}

/// Below capacity nothing is forgotten: a key checked once is reported as
/// a duplicate the next time.
pub proof fn lemma_dedup_detects_repeat(s: DeduplicatorState, h: u64, t: DeduplicatorState, dup: bool,
    u: DeduplicatorState, dup2: bool)
    requires
        s.seen.finite(),
        s.seen.len() < s.max_entries,
        dedup_step(s, h, t, dup),
        dedup_step(t, h, u, dup2),
    ensures
        dup2,
{
}

/// Market-data reader over the dataset tree of `config`.
pub struct MarketDataReader {
    pub config: StorageConfig,
}

impl MarketDataReader {
    /// A reader over `config`'s dataset tree.
    pub fn new(config: StorageConfig) -> (r: Self)
        ensures
            r.config == config,
    {
        MarketDataReader { config }
    }
}

/// Writes and reads dataset manifests under `config.base_path`.
pub struct ManifestWriter {
    pub config: StorageConfig,
}

impl ManifestWriter {
    /// A manifest writer for `config`'s dataset tree.
    pub fn new(config: StorageConfig) -> (w: Self)
        ensures
            w.config == config,
    {
        ManifestWriter { config }
    }
}

/// Replays stored datasets deterministically.
pub struct ReplayEngine {
    pub config: StorageConfig,
}

impl ReplayEngine {
    /// A replay engine over `config`'s dataset tree.
    pub fn new(config: StorageConfig) -> (e: Self)
        ensures
            e.config == config,
    {
        ReplayEngine { config }
    }
}

} // verus!
