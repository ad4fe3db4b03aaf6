//! The market-regime decision: how trend, return and volatility signals
//! select a regime, a confidence and a volatility state, and which
//! strategy family each regime calls for.
use vstd::prelude::*;
use crate::domain::{Regime, StrategyFamily};

verus! {

/// Confidence of a regime classification.
#[derive(Debug, Clone, Copy, PartialEq, Eq, Structural)]
pub enum Confidence {
    High,
    Medium,
    Low,
}

/// Strength of the EMA trend.
#[derive(Debug, Clone, Copy, PartialEq, Eq, Structural)]
pub enum TrendStrength {
    Strong,
    Moderate,
    Weak,
}

/// Volatility relative to the thresholds.
#[derive(Debug, Clone, Copy, PartialEq, Eq, Structural)]
pub enum VolatilityState {
    High,
    Normal,
    Low,
}

/// What the classifier reads of a feature row, each already compared with
/// its threshold: the EMA stack (`trend` > 0 when EMA20 > EMA50 > EMA200,
/// < 0 when stacked downwards, 0 otherwise), the 24-period return above
/// `+trend` or below `-trend`, positive or negative, and the realised
/// volatility above the high or below the low threshold.
#[derive(Debug, Clone, Copy, PartialEq, Eq, Structural)]
pub struct RegimeSignals {
    pub trend: i8,
    pub return_above_trend: bool,
    pub return_below_neg_trend: bool,
    pub return_positive: bool,
    pub return_negative: bool,
    pub vol_high: bool,
    pub vol_low: bool,
}

/// The regime of the signals.
pub open spec fn spec_regime(s: RegimeSignals) -> Regime {
    if s.trend > 0 && s.return_above_trend {
        if s.vol_high { Regime::BullHighVol } else { Regime::BullTrend }
    } else if s.trend > 0 {
        if s.vol_low { Regime::BullLowVol } else { Regime::TransitionBull }
    } else if s.trend < 0 && s.return_below_neg_trend {
        if s.vol_high { Regime::BearHighVol } else { Regime::BearTrend }
    } else if s.trend < 0 {
        if s.vol_low { Regime::BearLowVol } else { Regime::TransitionBear }
    } else if s.vol_high {
        Regime::SidewaysHighVol
    } else {
        Regime::SidewaysLowVol
    }
}

/// Classifies the signals into a regime: bull regimes for an upward EMA
/// stack, bear regimes for a downward one, sideways otherwise, refined by
/// the return and volatility thresholds.
pub fn classify_regime(s: RegimeSignals) -> (r: Regime)
    ensures
        r == spec_regime(s),
{
    if s.trend > 0 && s.return_above_trend {
        if s.vol_high { Regime::BullHighVol } else { Regime::BullTrend }
    } else if s.trend > 0 {
        if s.vol_low { Regime::BullLowVol } else { Regime::TransitionBull }
    } else if s.trend < 0 && s.return_below_neg_trend {
        if s.vol_high { Regime::BearHighVol } else { Regime::BearTrend }
    } else if s.trend < 0 {
        if s.vol_low { Regime::BearLowVol } else { Regime::TransitionBear }
    } else if s.vol_high {
        Regime::SidewaysHighVol
    } else {
        Regime::SidewaysLowVol
    }
}

/// Confidence: high when the return agrees with the trend and volatility
/// is within its band, medium when one of the two holds, low otherwise.
pub fn classify_confidence(s: RegimeSignals) -> (c: Confidence)
    ensures
        ({
            let trend_aligned = (s.trend > 0 && s.return_positive) || (s.trend < 0 && s.return_negative) || s.trend == 0;
            let vol_aligned = !s.vol_high && !s.vol_low;
            c == (if trend_aligned && vol_aligned {
                Confidence::High
            } else if trend_aligned || vol_aligned {
                Confidence::Medium
            } else {
                Confidence::Low
            })
        }),
{
    let trend_aligned = (s.trend > 0 && s.return_positive) || (s.trend < 0 && s.return_negative) || s.trend == 0;
    let vol_aligned = !s.vol_high && !s.vol_low;
    if trend_aligned && vol_aligned {
        Confidence::High
    } else if trend_aligned || vol_aligned {
        Confidence::Medium
    } else {
        Confidence::Low
    }
}

/// Volatility state: high above the high threshold, low below the low
/// one, normal otherwise.
pub fn volatility_state(vol_high: bool, vol_low: bool) -> (v: VolatilityState)
    ensures
        v == (if vol_high { VolatilityState::High } else if vol_low { VolatilityState::Low } else { VolatilityState::Normal }),
{
    if vol_high {
        VolatilityState::High
    } else if vol_low {
        VolatilityState::Low
    } else {
        VolatilityState::Normal
    }
}

/// The strategy family of a regime, and the name of its strategies.
pub open spec fn spec_strategy_for_regime(r: Regime) -> (StrategyFamily, Seq<char>) {
    match r {
        Regime::BullTrend | Regime::BullLowVol | Regime::TransitionBull => (StrategyFamily::TrendBreakout, "trend_breakout"@),
        Regime::BearTrend | Regime::BearHighVol | Regime::TransitionBear =>
            (StrategyFamily::DefensiveRelativeStrength, "defensive_relative_strength"@),
        _ => (StrategyFamily::MeanReversion, "mean_reversion"@),
    }
}

/// Trend breakouts in bull regimes, defensive relative strength in bear
/// regimes, mean reversion otherwise.
pub fn strategy_for_regime(r: Regime) -> (f: (StrategyFamily, &'static str))
    ensures
        f.0 == spec_strategy_for_regime(r).0,
        f.1@ == spec_strategy_for_regime(r).1,
{
    match r {
        Regime::BullTrend | Regime::BullLowVol | Regime::TransitionBull => (StrategyFamily::TrendBreakout, "trend_breakout"),
        Regime::BearTrend | Regime::BearHighVol | Regime::TransitionBear =>
            (StrategyFamily::DefensiveRelativeStrength, "defensive_relative_strength"),
        _ => (StrategyFamily::MeanReversion, "mean_reversion"),
    }
}

/// An upward EMA stack never yields a bear or sideways regime, and a
/// downward one never a bull or sideways regime.
pub proof fn lemma_regime_follows_trend(s: RegimeSignals)
    ensures
        s.trend > 0 ==> (spec_regime(s) == Regime::BullHighVol || spec_regime(s) == Regime::BullTrend
            || spec_regime(s) == Regime::BullLowVol || spec_regime(s) == Regime::TransitionBull),
        s.trend < 0 ==> (spec_regime(s) == Regime::BearHighVol || spec_regime(s) == Regime::BearTrend
            || spec_regime(s) == Regime::BearLowVol || spec_regime(s) == Regime::TransitionBear),
        s.trend == 0 ==> (spec_regime(s) == Regime::SidewaysHighVol || spec_regime(s) == Regime::SidewaysLowVol),
{
}

/// How each signal moves the regime. An upward stack is a bull regime:
/// `BullHighVol` or `BullTrend` (by the high-volatility flag alone) when the
/// return clears `+trend`, else `BullLowVol` or `TransitionBull` (by the
/// low-volatility flag alone). A downward stack is a bear regime:
/// `BearHighVol` or `BearTrend` (by the high-volatility flag alone, whatever
/// the low-volatility flag) when the return is below `-trend`, else
/// `BearLowVol` or `TransitionBear` (by the low-volatility flag alone). A
/// flat stack is `SidewaysHighVol` or `SidewaysLowVol` by the
/// high-volatility flag. The sign flags of the return never matter.
pub proof fn lemma_regime_by_signals(s: RegimeSignals)
    ensures
        s.trend > 0 && s.return_above_trend && s.vol_high ==> spec_regime(s) == Regime::BullHighVol,
        s.trend > 0 && s.return_above_trend && !s.vol_high ==> spec_regime(s) == Regime::BullTrend,
        s.trend > 0 && !s.return_above_trend && s.vol_low ==> spec_regime(s) == Regime::BullLowVol,
        s.trend > 0 && !s.return_above_trend && !s.vol_low ==> spec_regime(s) == Regime::TransitionBull,
        s.trend < 0 && s.return_below_neg_trend && s.vol_high ==> spec_regime(s) == Regime::BearHighVol,
        s.trend < 0 && s.return_below_neg_trend && !s.vol_high ==> spec_regime(s) == Regime::BearTrend,
        s.trend < 0 && !s.return_below_neg_trend && s.vol_low ==> spec_regime(s) == Regime::BearLowVol,
        s.trend < 0 && !s.return_below_neg_trend && !s.vol_low ==> spec_regime(s) == Regime::TransitionBear,
        s.trend == 0 && s.vol_high ==> spec_regime(s) == Regime::SidewaysHighVol,
        s.trend == 0 && !s.vol_high ==> spec_regime(s) == Regime::SidewaysLowVol,
        spec_regime(s) == spec_regime(RegimeSignals { return_positive: !s.return_positive,
            return_negative: !s.return_negative, ..s }),
{
}

/// Each low-volatility regime needs the low-volatility flag and a return
/// that does not clear the trend threshold; each high-volatility trend
/// regime needs the high-volatility flag and a return that clears it.
pub proof fn lemma_volatility_regimes_need_their_flags(s: RegimeSignals)
    ensures
        spec_regime(s) == Regime::BearLowVol <==> (s.trend < 0 && !s.return_below_neg_trend && s.vol_low),
        spec_regime(s) == Regime::BullLowVol <==> (s.trend > 0 && !s.return_above_trend && s.vol_low),
        spec_regime(s) == Regime::BearHighVol <==> (s.trend < 0 && s.return_below_neg_trend && s.vol_high),
        spec_regime(s) == Regime::BullHighVol <==> (s.trend > 0 && s.return_above_trend && s.vol_high),
{
}

/// Bull regimes (`BullTrend`, `BullLowVol`, `TransitionBull`) call for
/// trend breakouts, named "trend_breakout"; bear regimes other than
/// `BearLowVol` (`BearTrend`, `BearHighVol`, `TransitionBear`) for
/// defensive relative strength, named "defensive_relative_strength"; every
/// other regime (`BullHighVol`, `BearLowVol`, the sideways ones and
/// `Unknown`) for mean reversion, named "mean_reversion". Two regimes
/// share a family exactly when they share a strategy name.
pub proof fn lemma_strategy_by_regime(r: Regime, q: Regime)
    ensures
        (r == Regime::BullTrend || r == Regime::BullLowVol || r == Regime::TransitionBull)
            <==> spec_strategy_for_regime(r).0 == StrategyFamily::TrendBreakout,
        (r == Regime::BearTrend || r == Regime::BearHighVol || r == Regime::TransitionBear)
            <==> spec_strategy_for_regime(r).0 == StrategyFamily::DefensiveRelativeStrength,
        (r == Regime::BullHighVol || r == Regime::BearLowVol || r == Regime::SidewaysHighVol
            || r == Regime::SidewaysLowVol || r == Regime::Unknown) <==> spec_strategy_for_regime(r).0 == StrategyFamily::MeanReversion,
        spec_strategy_for_regime(r).0 == StrategyFamily::TrendBreakout ==> spec_strategy_for_regime(r).1 == "trend_breakout"@,
        spec_strategy_for_regime(r).0 == StrategyFamily::DefensiveRelativeStrength
            ==> spec_strategy_for_regime(r).1 == "defensive_relative_strength"@,
        spec_strategy_for_regime(r).0 == StrategyFamily::MeanReversion ==> spec_strategy_for_regime(r).1 == "mean_reversion"@,
        (spec_strategy_for_regime(r).0 == spec_strategy_for_regime(q).0)
            <==> (spec_strategy_for_regime(r).1 == spec_strategy_for_regime(q).1),
{
    reveal_strlit("trend_breakout");
    reveal_strlit("defensive_relative_strength");
    reveal_strlit("mean_reversion");
    assert("trend_breakout"@[0] != "defensive_relative_strength"@[0]);
    assert("trend_breakout"@[0] != "mean_reversion"@[0]);
    assert("defensive_relative_strength"@[0] != "mean_reversion"@[0]);
}

} // verus!
