//! Shared domain types: regimes, directions, sides, sources, signal and
//! event families, quality flags, and the observation quality rules.
use vstd::prelude::*;
use crate::text::{copy_strings, lex_order, lemma_lex_total_ordering, lower_hex_u64, sort_strings, sorted_names, string_views};

verus! {

/// Market regime.
#[derive(Debug, Clone, Copy, PartialEq, Eq, Structural)]
pub enum Regime {
    BullTrend,
    BullHighVol,
    BullLowVol,
    BearTrend,
    BearHighVol,
    BearLowVol,
    SidewaysHighVol,
    SidewaysLowVol,
    TransitionBull,
    TransitionBear,
    Unknown,
}

/// Trade direction.
#[derive(Debug, Clone, Copy, PartialEq, Eq, Structural)]
pub enum Direction {
    Long,
    Short,
    Flat,
}

/// Order side.
#[derive(Debug, Clone, Copy, PartialEq, Eq, Structural)]
pub enum OrderSide {
    Buy,
    Sell,
}

/// Where an observation came from.
#[derive(Debug, Clone, Copy, PartialEq, Eq, Structural)]
pub enum SourceKind {
    Rest,
    WebSocket,
    Replay,
}

/// Screener family that produced a signal.
#[derive(Debug, Clone, Copy, PartialEq, Eq, Structural)]
pub enum SignalFamily {
    Trend,
    Breakout,
    MeanReversion,
    VolatilityExpansion,
    VolumeSurge,
    MomentumDivergence,
    SupportResistanceBounce,
    Momentum,
    Microstructure,
    Event,
}

/// Kind of market event.
#[derive(Debug, Clone, Copy, PartialEq, Eq, Structural)]
pub enum EventKind {
    Breakout,
    Breakdown,
    VolumeAnomaly,
    VolatilitySpike,
    RegimeChange,
}

/// Strategy family generated per regime.
#[derive(Debug, Clone, Copy, PartialEq, Eq, Structural)]
pub enum StrategyFamily {
    TrendBreakout,
    DefensiveRelativeStrength,
    MeanReversion,
}

/// Data-quality verdicts on an observation.
#[derive(Debug, Clone, Copy, PartialEq, Eq, Structural)]
pub enum QualityFlag {
    Valid,
    InvalidTimestamp,
    InvalidSymbol,
    NegativePrice,
    NegativeVolume,
    NegativeSpread,
    Stale,
}

/// Identity of a market on an exchange.
#[derive(Debug, Clone)]
pub struct MarketId {
    pub exchange: String,
    pub symbol: String,
    pub base: String,
    pub quote: String,
}

/// The text form of a direction.
pub open spec fn direction_name(d: Direction) -> Seq<char> {
    match d {
        Direction::Long => "long"@,
        Direction::Short => "short"@,
        Direction::Flat => "flat"@,
    }
}

impl Direction {
    /// The text form: "long", "short" or "flat".
    pub fn to_string(&self) -> (s: String)
        ensures
            s@ == direction_name(*self),
    {
        match self {
            Direction::Long => "long".to_owned(),
            Direction::Short => "short".to_owned(),
            Direction::Flat => "flat".to_owned(),
        }
    }
}

/// The text form of an order side.
pub open spec fn side_name(s: OrderSide) -> Seq<char> {
    match s {
        OrderSide::Buy => "buy"@,
        OrderSide::Sell => "sell"@,
    }
}

impl OrderSide {
    /// The text form: "buy" or "sell".
    pub fn to_string(&self) -> (s: String)
        ensures
            s@ == side_name(*self),
    {
        match self {
            OrderSide::Buy => "buy".to_owned(),
            OrderSide::Sell => "sell".to_owned(),
        }
    }
}

/// The text form of a signal family (its snake-case name).
pub open spec fn signal_family_name(f: SignalFamily) -> Seq<char> {
    match f {
        SignalFamily::Trend => "trend"@,
        SignalFamily::Breakout => "breakout"@,
        SignalFamily::MeanReversion => "mean_reversion"@,
        SignalFamily::VolatilityExpansion => "volatility_expansion"@,
        SignalFamily::VolumeSurge => "volume_surge"@,
        SignalFamily::MomentumDivergence => "momentum_divergence"@,
        SignalFamily::SupportResistanceBounce => "support_resistance_bounce"@,
        SignalFamily::Momentum => "momentum"@,
        SignalFamily::Microstructure => "microstructure"@,
        SignalFamily::Event => "event"@,
    }
}

impl SignalFamily {
    /// The snake-case name, e.g. "mean_reversion".
    pub fn to_string(&self) -> (s: String)
        ensures
            s@ == signal_family_name(*self),
    {
        match self {
            SignalFamily::Trend => "trend".to_owned(),
            SignalFamily::Breakout => "breakout".to_owned(),
            SignalFamily::MeanReversion => "mean_reversion".to_owned(),
            SignalFamily::VolatilityExpansion => "volatility_expansion".to_owned(),
            SignalFamily::VolumeSurge => "volume_surge".to_owned(),
            SignalFamily::MomentumDivergence => "momentum_divergence".to_owned(),
            SignalFamily::SupportResistanceBounce => "support_resistance_bounce".to_owned(),
            SignalFamily::Momentum => "momentum".to_owned(),
            SignalFamily::Microstructure => "microstructure".to_owned(),
            SignalFamily::Event => "event".to_owned(),
        }
    }
}

/// The text form of an event kind (its screaming-snake-case name).
pub open spec fn event_kind_name(k: EventKind) -> Seq<char> {
    match k {
        EventKind::Breakout => "BREAKOUT"@,
        EventKind::Breakdown => "BREAKDOWN"@,
        EventKind::VolumeAnomaly => "VOLUME_ANOMALY"@,
        EventKind::VolatilitySpike => "VOLATILITY_SPIKE"@,
        EventKind::RegimeChange => "REGIME_CHANGE"@,
    }
}

impl EventKind {
    /// The screaming-snake-case name, e.g. "VOLUME_ANOMALY".
    pub fn to_string(&self) -> (s: String)
        ensures
            s@ == event_kind_name(*self),
    {
        match self {
            EventKind::Breakout => "BREAKOUT".to_owned(),
            EventKind::Breakdown => "BREAKDOWN".to_owned(),
            EventKind::VolumeAnomaly => "VOLUME_ANOMALY".to_owned(),
            EventKind::VolatilitySpike => "VOLATILITY_SPIKE".to_owned(),
            EventKind::RegimeChange => "REGIME_CHANGE".to_owned(),
        }
    }
}

/// The text form of a strategy family (its snake-case name).
pub open spec fn strategy_family_name(f: StrategyFamily) -> Seq<char> {
    match f {
        StrategyFamily::TrendBreakout => "trend_breakout"@,
        StrategyFamily::DefensiveRelativeStrength => "defensive_relative_strength"@,
        StrategyFamily::MeanReversion => "mean_reversion"@,
    }
}

impl StrategyFamily {
    /// The snake-case name, e.g. "trend_breakout".
    pub fn to_string(&self) -> (s: String)
        ensures
            s@ == strategy_family_name(*self),
    {
        match self {
            StrategyFamily::TrendBreakout => "trend_breakout".to_owned(),
            StrategyFamily::DefensiveRelativeStrength => "defensive_relative_strength".to_owned(),
            StrategyFamily::MeanReversion => "mean_reversion".to_owned(),
        }
    }
}

/// The text form of a quality flag.
pub open spec fn quality_flag_name(f: QualityFlag) -> Seq<char> {
    match f {
        QualityFlag::Valid => "valid"@,
        QualityFlag::InvalidTimestamp => "invalid_timestamp"@,
        QualityFlag::InvalidSymbol => "invalid_symbol"@,
        QualityFlag::NegativePrice => "negative_price"@,
        QualityFlag::NegativeVolume => "negative_volume"@,
        QualityFlag::NegativeSpread => "negative_spread"@,
        QualityFlag::Stale => "stale"@,
    }
}

impl QualityFlag {
    /// The snake-case name, e.g. "negative_spread".
    pub fn to_string(&self) -> (s: String)
        ensures
            s@ == quality_flag_name(*self),
    {
        match self {
            QualityFlag::Valid => "valid".to_owned(),
            QualityFlag::InvalidTimestamp => "invalid_timestamp".to_owned(),
            QualityFlag::InvalidSymbol => "invalid_symbol".to_owned(),
            QualityFlag::NegativePrice => "negative_price".to_owned(),
            QualityFlag::NegativeVolume => "negative_volume".to_owned(),
            QualityFlag::NegativeSpread => "negative_spread".to_owned(),
            QualityFlag::Stale => "stale".to_owned(),
        }
    }
}

/// Outcome of a quality check.
#[derive(Debug, Clone)]
pub struct QualityCheckResult {
    pub flags: Vec<QualityFlag>,
    pub is_valid: bool,
    pub reason: Option<String>,
}

impl Default for QualityCheckResult {
    fn default() -> (r: Self)
        ensures
            r.flags@ == Seq::<QualityFlag>::empty(),
            !r.is_valid,
            r.reason is None,
    {
        QualityCheckResult { flags: Vec::new(), is_valid: false, reason: None }
    }
}

impl QualityCheckResult {
    /// A passing check: the single flag `Valid`, no reason.
    pub fn valid() -> (r: Self)
        ensures
            r.flags@ == seq![QualityFlag::Valid],
            r.is_valid,
            r.reason is None,
    {
        QualityCheckResult { flags: vec![QualityFlag::Valid], is_valid: true, reason: None }
    }

    /// A failing check with `flags` and `reason`.
    pub fn invalid(flags: Vec<QualityFlag>, reason: String) -> (r: Self)
        ensures
            r.flags@ == flags@,
            !r.is_valid,
            r.reason == Some(reason),
    {
        QualityCheckResult { flags, is_valid: false, reason: Some(reason) }
    }
}

/// The flag names of `flags` joined by ", ".
pub open spec fn join_flag_names(flags: Seq<QualityFlag>) -> Seq<char>
    decreases flags.len(),
{
    if flags.len() == 0 {
        Seq::empty()
    } else if flags.len() == 1 {
        quality_flag_name(flags[0])
    } else {
        join_flag_names(flags.drop_last()) + ", "@ + quality_flag_name(flags.last())
    }
}

/// The flag names of `flags` joined by ", ".
pub fn flag_reason(flags: &Vec<QualityFlag>) -> (s: String)
    ensures
        s@ == join_flag_names(flags@),
{
    let mut s = String::new();
    let mut i: usize = 0;
    while i < flags.len()
        invariant
            i <= flags.len(),
            s@ == join_flag_names(flags@.take(i as int)),
        decreases flags.len() - i,
    {
        proof {
            assert(flags@.take(i as int + 1).drop_last() =~= flags@.take(i as int));
        }
        let name = flags[i].to_string();
        if i > 0 {
            s.append(", ");
        }
        s.append(name.as_str());
        proof {
            if i == 0 {
                assert(join_flag_names(flags@.take(1)) == quality_flag_name(flags@[0]));
                assert(s@ =~= join_flag_names(flags@.take(1)));
            } else {
                assert(s@ =~= join_flag_names(flags@.take(i as int + 1)));
            }
        }
        i = i + 1;
    }
    proof {
        assert(flags@.take(i as int) =~= flags@);
    }
    s
}

/// The flags an observation earns, in the order the checks run: a
/// timestamp not after the last one, an empty symbol, a non-positive
/// OHLC price, a negative volume, an ask below the bid.
pub open spec fn observation_flags(timestamp: u64, last_timestamp: Option<u64>, symbol_empty: bool,
    price_nonpositive: bool, volume_negative: bool, spread_negative: bool) -> Seq<QualityFlag> {
    (if last_timestamp matches Some(l) && timestamp <= l { seq![QualityFlag::InvalidTimestamp] } else { seq![] })
        + (if symbol_empty { seq![QualityFlag::InvalidSymbol] } else { seq![] })
        + (if price_nonpositive { seq![QualityFlag::NegativePrice] } else { seq![] })
        + (if volume_negative { seq![QualityFlag::NegativeVolume] } else { seq![] })
        + (if spread_negative { seq![QualityFlag::NegativeSpread] } else { seq![] })
}

/// The quality verdict on an observation stamped `timestamp` for `symbol`,
/// given the outcome of its price checks: any of open, high, low or close
/// at or below zero (`price_nonpositive`), volume below zero
/// (`volume_negative`), ask below bid (`spread_negative`). Valid when no
/// rule fires; otherwise invalid with the flags and their names as reason.
pub fn observation_quality(timestamp: u64, last_timestamp: Option<u64>, symbol: &str,
    price_nonpositive: bool, volume_negative: bool, spread_negative: bool) -> (r: QualityCheckResult)
    ensures
        ({
            let flags = observation_flags(timestamp, last_timestamp, symbol@.len() == 0,
                price_nonpositive, volume_negative, spread_negative);
            if flags.len() == 0 {
                r.is_valid && r.flags@ == seq![QualityFlag::Valid] && r.reason is None
            } else {
                !r.is_valid && r.flags@ == flags && (r.reason matches Some(reason) && reason@ == join_flag_names(flags))
            }
        }),
{
    let mut flags: Vec<QualityFlag> = Vec::new();
    if let Some(last) = last_timestamp {
        if timestamp <= last {
            flags.push(QualityFlag::InvalidTimestamp);
        }
    }
    if symbol.is_empty() {
        flags.push(QualityFlag::InvalidSymbol);
    }
    if price_nonpositive {
        flags.push(QualityFlag::NegativePrice);
    }
    if volume_negative {
        flags.push(QualityFlag::NegativeVolume);
    }
    if spread_negative {
        flags.push(QualityFlag::NegativeSpread);
    }
    assert(flags@ =~= observation_flags(timestamp, last_timestamp, symbol@.len() == 0,
        price_nonpositive, volume_negative, spread_negative));
    if flags.len() == 0 {
        QualityCheckResult::valid()
    } else {
        let reason = flag_reason(&flags);
        QualityCheckResult::invalid(flags, reason)
    }
}

/// The flags a bar earns: a timestamp (seconds, read as unsigned) not
/// after the last one, a non-positive OHLC price, a negative volume, a
/// high below the low.
pub open spec fn bar_flags(ts_secs: i64, last_timestamp: Option<u64>, price_nonpositive: bool,
    volume_negative: bool, range_inverted: bool) -> Seq<QualityFlag> {
    (if last_timestamp matches Some(l) && (ts_secs as u64) <= l { seq![QualityFlag::InvalidTimestamp] } else { seq![] })
        + (if price_nonpositive { seq![QualityFlag::NegativePrice] } else { seq![] })
        + (if volume_negative { seq![QualityFlag::NegativeVolume] } else { seq![] })
        + (if range_inverted { seq![QualityFlag::NegativeSpread] } else { seq![] })
}

/// The quality verdict on a bar stamped `ts_secs` (seconds since the
/// epoch), given its price checks. Valid when no rule fires; otherwise
/// invalid with the flags and an empty reason.
pub fn bar_quality(ts_secs: i64, last_timestamp: Option<u64>, price_nonpositive: bool,
    volume_negative: bool, range_inverted: bool) -> (r: QualityCheckResult)
    ensures
        ({
            let flags = bar_flags(ts_secs, last_timestamp, price_nonpositive, volume_negative, range_inverted);
            if flags.len() == 0 {
                r.is_valid && r.flags@ == seq![QualityFlag::Valid] && r.reason is None
            } else {
                !r.is_valid && r.flags@ == flags && (r.reason matches Some(reason) && reason@.len() == 0)
            }
        }),
{
    let mut flags: Vec<QualityFlag> = Vec::new();
    if let Some(last) = last_timestamp {
        if (ts_secs as u64) <= last {
            flags.push(QualityFlag::InvalidTimestamp);
        }
    }
    if price_nonpositive {
        flags.push(QualityFlag::NegativePrice);
    }
    if volume_negative {
        flags.push(QualityFlag::NegativeVolume);
    }
    if range_inverted {
        flags.push(QualityFlag::NegativeSpread);
    }
    assert(flags@ =~= bar_flags(ts_secs, last_timestamp, price_nonpositive, volume_negative, range_inverted));
    if flags.len() == 0 {
        QualityCheckResult::valid()
    } else {
        QualityCheckResult::invalid(flags, String::new())
    }
}

/// An observation is valid exactly when no rule fires; in particular a
/// timestamp that does not advance always invalidates it.
pub proof fn lemma_stale_timestamp_invalidates(timestamp: u64, last: u64, symbol_empty: bool,
    price_nonpositive: bool, volume_negative: bool, spread_negative: bool)
    requires
        timestamp <= last,
    ensures
        observation_flags(timestamp, Some(last), symbol_empty, price_nonpositive, volume_negative, spread_negative).len() > 0,
        observation_flags(timestamp, Some(last), symbol_empty, price_nonpositive, volume_negative, spread_negative)[0]
            == QualityFlag::InvalidTimestamp,
{
}

/// The regime change between two consecutive classifications, if any.
pub fn regime_transition(prev: Regime, curr: Regime) -> (r: Option<(Regime, Regime)>)
    ensures
        r == (if prev != curr { Some((prev, curr)) } else { None::<(Regime, Regime)> }),
{
    if prev != curr { Some((prev, curr)) } else { None }
}

/// The component score of a signal ensemble that a signal family feeds.
#[derive(Debug, Clone, Copy, PartialEq, Eq, Structural)]
pub enum ComponentSlot {
    Trend,
    Momentum,
    Breakout,
    MeanReversion,
    Microstructure,
    Event,
    RelativeStrength,
}

/// The component fed by signals of `family`: momentum and momentum
/// divergence feed momentum, volatility expansion and microstructure feed
/// microstructure, volume surges and events feed the event score, support
/// or resistance bounces feed relative strength, and the other families
/// feed the component of their own name.
pub open spec fn spec_component_slot(family: SignalFamily) -> ComponentSlot {
    match family {
        SignalFamily::Trend => ComponentSlot::Trend,
        SignalFamily::Momentum | SignalFamily::MomentumDivergence => ComponentSlot::Momentum,
        SignalFamily::Breakout => ComponentSlot::Breakout,
        SignalFamily::MeanReversion => ComponentSlot::MeanReversion,
        SignalFamily::VolatilityExpansion | SignalFamily::Microstructure => ComponentSlot::Microstructure,
        SignalFamily::VolumeSurge | SignalFamily::Event => ComponentSlot::Event,
        SignalFamily::SupportResistanceBounce => ComponentSlot::RelativeStrength,
    }
}

/// The component fed by signals of `family` (see [`spec_component_slot`]).
pub fn component_slot(family: SignalFamily) -> (c: ComponentSlot)
    ensures
        c == spec_component_slot(family),
{
    match family {
        SignalFamily::Trend => ComponentSlot::Trend,
        SignalFamily::Momentum | SignalFamily::MomentumDivergence => ComponentSlot::Momentum,
        SignalFamily::Breakout => ComponentSlot::Breakout,
        SignalFamily::MeanReversion => ComponentSlot::MeanReversion,
        SignalFamily::VolatilityExpansion | SignalFamily::Microstructure => ComponentSlot::Microstructure,
        SignalFamily::VolumeSurge | SignalFamily::Event => ComponentSlot::Event,
        SignalFamily::SupportResistanceBounce => ComponentSlot::RelativeStrength,
    }
}

/// The directories of the storage layout, relative to the data root.
pub fn storage_layout() -> (dirs: Vec<&'static str>)
    ensures
        dirs@.len() == 6,
        dirs@[0]@ == "raw/trades"@,
        dirs@[1]@ == "raw/books"@,
        dirs@[2]@ == "raw/ohlcv"@,
        dirs@[3]@ == "normalized"@,
        dirs@[4]@ == "manifests"@,
        dirs@[5]@ == "rejected"@,
{
    vec!["raw/trades", "raw/books", "raw/ohlcv", "normalized", "manifests", "rejected"]
}

/// A dataset manifest for lineage: the dataset, the time range it covers
/// (`start`, `end`) and when it was made (`created_at`), each in
/// milliseconds since the Unix epoch, the symbols it holds, its checksum
/// and where it came from.
#[derive(Debug, Clone)]
pub struct DatasetManifest {
    pub dataset_id: String,
    pub start: i64,
    pub end: i64,
    pub symbols: Vec<String>,
    pub checksum: String,
    pub created_at: i64,
    pub git_commit: String,
    pub config_hash: String,
}

/// The value of std's `DefaultHasher` (SipHash-1-3 with zero keys), in
/// lower-case hexadecimal, after hashing a dataset id and then each symbol
/// in turn.
/// The value is fixed for a given target and toolchain: std's `Hash`
/// writes integers and lengths in the machine's byte order and width, and
/// std may change the `DefaultHasher` algorithm between releases. Within
/// one build, equal arguments always give equal values.
pub uninterp spec fn lineage_hash(dataset_id: Seq<char>, symbols: Seq<Seq<char>>) -> Seq<char>;

/// Feeds a dataset id and then the symbols, as given, to std's
/// `DefaultHasher` (`Hash::hash` on the id, `Hash::hash_slice` on the
/// symbols, which hashes each in turn with no length in front), and writes
/// `Hasher::finish` with `{:x}`. The value is named, not described: it is
/// `lineage_hash` of the two; std documents `{:x}` of a `u64` as lower-case
/// hexadecimal without leading zeros, which is what is stated of its shape.
#[verifier::external_body]
fn hash_lineage(dataset_id: &String, symbols: &Vec<String>) -> (h: String)
    ensures
        h@ == lineage_hash(dataset_id@, string_views(symbols@)),
        lower_hex_u64(h@),
{
    let mut hasher = std::collections::hash_map::DefaultHasher::new();
    std::hash::Hash::hash(dataset_id, &mut hasher);
    std::hash::Hash::hash_slice(symbols.as_slice(), &mut hasher);
    format!("{:x}", std::hash::Hasher::finish(&hasher))
}

/// The checksum of lineage manifest `m`: the hash of its id and of its
/// symbols in sorted order.
pub open spec fn lineage_checksum_of(m: DatasetManifest) -> Seq<char> {
    lineage_hash(m.dataset_id@, sorted_names(string_views(m.symbols@)))
}

impl DatasetManifest {
    /// The checksum of the manifest: its id and its symbols in sorted
    /// order, hashed (see [`lineage_checksum_of`]).
    pub fn compute_checksum(&self) -> (c: String)
        ensures
            c@ == lineage_checksum_of(*self),
            lower_hex_u64(c@),
    {
        let symbols = sort_strings(copy_strings(&self.symbols));
        hash_lineage(&self.dataset_id, &symbols)
    }
}

/// The checksum of a lineage manifest depends on its id and on which
/// symbols it lists, not on their order: manifests with the same id that
/// list the same symbols, in any order, have the same checksum.
pub proof fn lemma_lineage_checksum_ignores_symbol_order(a: DatasetManifest, b: DatasetManifest)
    requires
        a.dataset_id@ == b.dataset_id@,
        string_views(a.symbols@).to_multiset() == string_views(b.symbols@).to_multiset(),
    ensures
        lineage_checksum_of(a) == lineage_checksum_of(b),
{
    let va = string_views(a.symbols@);
    let vb = string_views(b.symbols@);
    lemma_lex_total_ordering();
    va.lemma_sort_by_ensures(lex_order());
    vb.lemma_sort_by_ensures(lex_order());
    vstd::seq_lib::lemma_sorted_unique(va.sort_by(lex_order()), vb.sort_by(lex_order()), lex_order());
}

} // verus!
