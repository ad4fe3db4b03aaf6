use quantaradar::classic_screeners;
use quantaradar::domain::SignalFamily;
use quantaradar::screeners::{
    BreakoutScreener, EventScreener, MeanReversionScreener, MicrostructureScreener, MomentumDivergenceScreener,
    MomentumScreener, SupportResistanceBounceScreener, TrendScreener, VolatilityExpansionScreener,
    VolumeSurgeScreener,
};

#[test]
fn screener_names_and_families() {
    assert_eq!(TrendScreener.name(), "trend");
    assert_eq!(TrendScreener.family(), SignalFamily::Trend);
    assert_eq!(BreakoutScreener.name(), "breakout");
    assert_eq!(BreakoutScreener.family(), SignalFamily::Breakout);
    assert_eq!(MeanReversionScreener.name(), "mean_reversion");
    assert_eq!(MeanReversionScreener.family(), SignalFamily::MeanReversion);
    assert_eq!(VolatilityExpansionScreener.name(), "volatility_expansion");
    assert_eq!(VolatilityExpansionScreener.family(), SignalFamily::VolatilityExpansion);
    assert_eq!(VolumeSurgeScreener.name(), "volume_surge");
    assert_eq!(VolumeSurgeScreener.family(), SignalFamily::VolumeSurge);
    assert_eq!(MomentumDivergenceScreener.name(), "momentum_divergence");
    assert_eq!(MomentumDivergenceScreener.family(), SignalFamily::MomentumDivergence);
    assert_eq!(SupportResistanceBounceScreener.name(), "support_resistance_bounce");
    assert_eq!(SupportResistanceBounceScreener.family(), SignalFamily::SupportResistanceBounce);
    assert_eq!(MomentumScreener.name(), "momentum");
    assert_eq!(MomentumScreener.family(), SignalFamily::Momentum);
    assert_eq!(MicrostructureScreener.name(), "microstructure");
    assert_eq!(MicrostructureScreener.family(), SignalFamily::Microstructure);
    assert_eq!(EventScreener.name(), "event");
    assert_eq!(EventScreener.family(), SignalFamily::Event);
}

#[test]
fn screener_name_is_family_name() {
    assert_eq!(TrendScreener.name(), TrendScreener.family().to_string());
    assert_eq!(EventScreener.name(), EventScreener.family().to_string());
}

#[test]
fn classic_screener_names() {
    assert_eq!(classic_screeners::TrendScreener.name(), "trend");
    assert_eq!(classic_screeners::BreakoutScreener.name(), "breakout");
    assert_eq!(classic_screeners::MeanReversionScreener.name(), "mean_reversion");
    assert_eq!(classic_screeners::VolatilityExpansionScreener.name(), "volatility_expansion");
    assert_eq!(classic_screeners::VolumeSurgeScreener.name(), "volume_surge");
    assert_eq!(classic_screeners::MomentumDivergenceScreener.name(), "momentum_divergence");
    assert_eq!(classic_screeners::SupportResistanceBounceScreener.name(), "support_resistance_bounce");
}
