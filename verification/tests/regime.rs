use quantaradar::domain::{Regime, StrategyFamily};
use quantaradar::regime::{
    classify_confidence, classify_regime, strategy_for_regime, volatility_state, Confidence, RegimeSignals,
    VolatilityState,
};

fn signals(trend: i8, above: bool, below: bool, vol_high: bool, vol_low: bool) -> RegimeSignals {
    RegimeSignals {
        trend,
        return_above_trend: above,
        return_below_neg_trend: below,
        return_positive: above,
        return_negative: below,
        vol_high,
        vol_low,
    }
}

#[test]
fn regimes_follow_trend_return_and_volatility() {
    assert_eq!(classify_regime(signals(1, true, false, false, false)), Regime::BullTrend);
    assert_eq!(classify_regime(signals(1, true, false, true, false)), Regime::BullHighVol);
    assert_eq!(classify_regime(signals(1, false, false, false, true)), Regime::BullLowVol);
    assert_eq!(classify_regime(signals(1, false, false, false, false)), Regime::TransitionBull);
    assert_eq!(classify_regime(signals(-1, false, true, false, false)), Regime::BearTrend);
    assert_eq!(classify_regime(signals(-1, false, true, true, false)), Regime::BearHighVol);
    assert_eq!(classify_regime(signals(-1, false, false, false, true)), Regime::BearLowVol);
    assert_eq!(classify_regime(signals(-1, false, false, false, false)), Regime::TransitionBear);
    assert_eq!(classify_regime(signals(0, true, false, true, false)), Regime::SidewaysHighVol);
    assert_eq!(classify_regime(signals(0, false, false, false, false)), Regime::SidewaysLowVol);
}

#[test]
fn confidence_levels() {
    assert_eq!(classify_confidence(signals(1, true, false, false, false)), Confidence::High);
    assert_eq!(classify_confidence(signals(1, true, false, true, false)), Confidence::Medium);
    assert_eq!(classify_confidence(signals(1, false, false, false, false)), Confidence::Medium);
    assert_eq!(classify_confidence(signals(-1, false, false, true, false)), Confidence::Low);
    assert_eq!(classify_confidence(signals(0, false, false, false, true)), Confidence::Medium);
}

#[test]
fn volatility_states() {
    assert_eq!(volatility_state(true, false), VolatilityState::High);
    assert_eq!(volatility_state(true, true), VolatilityState::High);
    assert_eq!(volatility_state(false, true), VolatilityState::Low);
    assert_eq!(volatility_state(false, false), VolatilityState::Normal);
}

#[test]
fn strategies_per_regime() {
    assert_eq!(strategy_for_regime(Regime::BullTrend), (StrategyFamily::TrendBreakout, "trend_breakout"));
    assert_eq!(
        strategy_for_regime(Regime::BearHighVol),
        (StrategyFamily::DefensiveRelativeStrength, "defensive_relative_strength")
    );
    assert_eq!(strategy_for_regime(Regime::SidewaysLowVol), (StrategyFamily::MeanReversion, "mean_reversion"));
    assert_eq!(strategy_for_regime(Regime::Unknown), (StrategyFamily::MeanReversion, "mean_reversion"));
}
