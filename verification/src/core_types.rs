//! The first-generation core domain model: regimes, directions, sides,
//! sources, quality flags and the quality rules for observations and bars.
use vstd::prelude::*;
pub use crate::domain::DatasetManifest;

verus! {

/// Market regime.
#[derive(Debug, Clone, Copy, PartialEq, Eq, Structural)]
pub enum Regime {
    BullTrend,
    BullHighVol,
    BullLowVol,
    BearTrend,
    BearHighVol,
    BearLowVol,
    SidewaysHighVol,
    SidewaysLowVol,
    TransitionBull,
    TransitionBear,
    Unknown,
}

/// Trade direction.
#[derive(Debug, Clone, Copy, PartialEq, Eq, Structural)]
pub enum Direction {
    Long,
    Short,
    Flat,
}

/// Order side.
#[derive(Debug, Clone, Copy, PartialEq, Eq, Structural)]
pub enum OrderSide {
    Buy,
    Sell,
}

/// Where an observation came from.
#[derive(Debug, Clone, Copy, PartialEq, Eq, Structural)]
pub enum SourceKind {
    Rest,
    WebSocket,
    Replay,
}

/// Data-quality verdicts on an observation.
#[derive(Debug, Clone, Copy, PartialEq, Eq, Structural)]
pub enum QualityFlag {
    Valid,
    LateArrival,
    OutOfSequence,
    NegativePrice,
    NegativeVolume,
    InvalidSpread,
    Stale,
}

/// Identity of a market on an exchange.
#[derive(Debug, Clone)]
pub struct MarketId {
    pub exchange: String,
    pub symbol: String,
    pub base: String,
    pub quote: String,
}

/// The text form of a direction.
pub open spec fn direction_name(d: Direction) -> Seq<char> {
    match d {
        Direction::Long => "long"@,
        Direction::Short => "short"@,
        Direction::Flat => "flat"@,
    }
}

impl Direction {
    /// The text form: "long", "short" or "flat".
    pub fn to_string(&self) -> (s: String)
        ensures
            s@ == direction_name(*self),
    {
        match self {
            Direction::Long => "long".to_owned(),
            Direction::Short => "short".to_owned(),
            Direction::Flat => "flat".to_owned(),
        }
    }
}

/// The text form of an order side.
pub open spec fn side_name(s: OrderSide) -> Seq<char> {
    match s {
        OrderSide::Buy => "buy"@,
        OrderSide::Sell => "sell"@,
    }
}

impl OrderSide {
    /// The text form: "buy" or "sell".
    pub fn to_string(&self) -> (s: String)
        ensures
            s@ == side_name(*self),
    {
        match self {
            OrderSide::Buy => "buy".to_owned(),
            OrderSide::Sell => "sell".to_owned(),
        }
    }
}

/// Outcome of a quality check.
#[derive(Debug, Clone)]
pub struct QualityCheckResult {
    pub flags: Vec<QualityFlag>,
    pub is_valid: bool,
}

impl Default for QualityCheckResult {
    fn default() -> (r: Self)
        ensures
            r.flags@ == Seq::<QualityFlag>::empty(),
            !r.is_valid,
    {
        QualityCheckResult { flags: Vec::new(), is_valid: false }
    }
}

impl QualityCheckResult {
    /// A passing check: the single flag `Valid`.
    pub fn valid() -> (r: Self)
        ensures
            r.flags@ == seq![QualityFlag::Valid],
            r.is_valid,
    {
        QualityCheckResult { flags: vec![QualityFlag::Valid], is_valid: true }
    }

    /// A failing check with `flags`.
    pub fn invalid(flags: Vec<QualityFlag>) -> (r: Self)
        ensures
            r.flags@ == flags@,
            !r.is_valid,
    {
        QualityCheckResult { flags, is_valid: false }
    }
}

/// `n` copies of `NegativePrice`.
pub open spec fn negative_prices(n: nat) -> Seq<QualityFlag> {
    Seq::new(n, |i: int| QualityFlag::NegativePrice)
}

/// The flags an observation earns, in the order the checks run: a
/// timestamp not after the last one, a non-positive OHLC price, a negative
/// volume, an ask below the bid, a non-positive bid or ask, and one flag
/// per bid level and per ask level with a non-positive price or negative
/// quantity.
pub open spec fn observation_flags(timestamp: u64, last_timestamp: Option<u64>, price_nonpositive: bool,
    volume_negative: bool, spread_inverted: bool, quote_nonpositive: bool,
    bad_bid_levels: nat, bad_ask_levels: nat) -> Seq<QualityFlag> {
    (if last_timestamp matches Some(l) && timestamp <= l { seq![QualityFlag::OutOfSequence] } else { seq![] })
        + (if price_nonpositive { seq![QualityFlag::NegativePrice] } else { seq![] })
        + (if volume_negative { seq![QualityFlag::NegativeVolume] } else { seq![] })
        + (if spread_inverted { seq![QualityFlag::InvalidSpread] } else { seq![] })
        + (if quote_nonpositive { seq![QualityFlag::NegativePrice] } else { seq![] })
        + negative_prices(bad_bid_levels)
        + negative_prices(bad_ask_levels)
}

fn push_negative_prices(flags: &mut Vec<QualityFlag>, n: usize)
    ensures
        final(flags)@ == old(flags)@ + negative_prices(n as nat),
{
    let mut i: usize = 0;
    while i < n
        invariant
            i <= n,
            flags@ == old(flags)@ + negative_prices(i as nat),
        decreases n - i,
    {
        flags.push(QualityFlag::NegativePrice);
        i = i + 1;
        assert(flags@ =~= old(flags)@ + negative_prices(i as nat));
    }
}

/// The quality verdict on an observation, given the outcome of its price
/// checks and the number of bad depth levels on each side. Valid when no
/// rule fires; otherwise invalid with the flags in check order.
pub fn observation_quality(timestamp: u64, last_timestamp: Option<u64>, price_nonpositive: bool,
    volume_negative: bool, spread_inverted: bool, quote_nonpositive: bool,
    bad_bid_levels: usize, bad_ask_levels: usize) -> (r: QualityCheckResult)
    ensures
        ({
            let flags = observation_flags(timestamp, last_timestamp, price_nonpositive, volume_negative,
                spread_inverted, quote_nonpositive, bad_bid_levels as nat, bad_ask_levels as nat);
            if flags.len() == 0 {
                r.is_valid && r.flags@ == seq![QualityFlag::Valid]
            } else {
                !r.is_valid && r.flags@ == flags
            }
        }),
{
    let mut flags: Vec<QualityFlag> = Vec::new();
    if let Some(last) = last_timestamp {
        if timestamp <= last {
            flags.push(QualityFlag::OutOfSequence);
        }
    }
    if price_nonpositive {
        flags.push(QualityFlag::NegativePrice);
    }
    if volume_negative {
        flags.push(QualityFlag::NegativeVolume);
    }
    if spread_inverted {
        flags.push(QualityFlag::InvalidSpread);
    }
    if quote_nonpositive {
        flags.push(QualityFlag::NegativePrice);
    }
    push_negative_prices(&mut flags, bad_bid_levels);
    push_negative_prices(&mut flags, bad_ask_levels);
    assert(flags@ =~= observation_flags(timestamp, last_timestamp, price_nonpositive, volume_negative,
        spread_inverted, quote_nonpositive, bad_bid_levels as nat, bad_ask_levels as nat));
    if flags.len() == 0 {
        QualityCheckResult::valid()
    } else {
        QualityCheckResult::invalid(flags)
    }
}

/// The flags a bar earns: a timestamp (seconds, read as unsigned) not
/// after the last one, a non-positive OHLC price, a negative volume, a
/// high below the low.
pub open spec fn bar_flags(ts_secs: i64, last_timestamp: Option<u64>, price_nonpositive: bool,
    volume_negative: bool, range_inverted: bool) -> Seq<QualityFlag> {
    (if last_timestamp matches Some(l) && (ts_secs as u64) <= l { seq![QualityFlag::OutOfSequence] } else { seq![] })
        + (if price_nonpositive { seq![QualityFlag::NegativePrice] } else { seq![] })
        + (if volume_negative { seq![QualityFlag::NegativeVolume] } else { seq![] })
        + (if range_inverted { seq![QualityFlag::InvalidSpread] } else { seq![] })
}

/// The quality verdict on a bar stamped `ts_secs`, given its price checks.
pub fn bar_quality(ts_secs: i64, last_timestamp: Option<u64>, price_nonpositive: bool,
    volume_negative: bool, range_inverted: bool) -> (r: QualityCheckResult)
    ensures
        ({
            let flags = bar_flags(ts_secs, last_timestamp, price_nonpositive, volume_negative, range_inverted);
            if flags.len() == 0 {
                r.is_valid && r.flags@ == seq![QualityFlag::Valid]
            } else {
                !r.is_valid && r.flags@ == flags
            }
        }),
{
    let mut flags: Vec<QualityFlag> = Vec::new();
    if let Some(last) = last_timestamp {
        if (ts_secs as u64) <= last {
            flags.push(QualityFlag::OutOfSequence);
        }
    }
    if price_nonpositive {
        flags.push(QualityFlag::NegativePrice);
    }
    if volume_negative {
        flags.push(QualityFlag::NegativeVolume);
    }
    if range_inverted {
        flags.push(QualityFlag::InvalidSpread);
    }
    assert(flags@ =~= bar_flags(ts_secs, last_timestamp, price_nonpositive, volume_negative, range_inverted));
    if flags.len() == 0 {
        QualityCheckResult::valid()
    } else {
        QualityCheckResult::invalid(flags)
    }
}

} // verus!
