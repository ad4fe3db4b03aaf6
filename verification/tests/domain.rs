use std::hash::{Hash, Hasher};
use quantaradar::domain::{
    bar_quality, component_slot, flag_reason, ComponentSlot, observation_quality, regime_transition, Direction, EventKind, OrderSide,
    QualityCheckResult, QualityFlag, Regime, SignalFamily, StrategyFamily,
};

#[test]
fn core_enum_display() {
    // Direction display
    assert_eq!(Direction::Long.to_string(), "long");
    assert_eq!(Direction::Short.to_string(), "short");
    assert_eq!(Direction::Flat.to_string(), "flat");
    // OrderSide display
    assert_eq!(OrderSide::Buy.to_string(), "buy");
    assert_eq!(OrderSide::Sell.to_string(), "sell");
    // SignalFamily display
    let sf = SignalFamily::Trend;
    let _sf_str = sf.to_string();
    // EventKind display
    let ek = EventKind::Breakout;
    let _ek_str = ek.to_string();
    // QualityFlag display
    let qf = QualityFlag::Valid;
    let qf_str = qf.to_string();
    assert_eq!(qf_str, "valid");
}

#[test]
fn enum_names() {
    assert_eq!(SignalFamily::Trend.to_string(), "trend");
    assert_eq!(SignalFamily::SupportResistanceBounce.to_string(), "support_resistance_bounce");
    assert_eq!(EventKind::Breakout.to_string(), "BREAKOUT");
    assert_eq!(EventKind::RegimeChange.to_string(), "REGIME_CHANGE");
    assert_eq!(StrategyFamily::DefensiveRelativeStrength.to_string(), "defensive_relative_strength");
    assert_eq!(QualityFlag::NegativeSpread.to_string(), "negative_spread");
}

#[test]
fn quality_reason_joins_flag_names() {
    assert_eq!(flag_reason(&vec![]), "");
    assert_eq!(flag_reason(&vec![QualityFlag::Stale]), "stale");
    assert_eq!(
        flag_reason(&vec![QualityFlag::InvalidTimestamp, QualityFlag::NegativePrice]),
        "invalid_timestamp, negative_price"
    );
}

#[test]
fn observation_quality_happy_and_flags() {
    let ok = observation_quality(10, Some(5), "BTC/USD", false, false, false);
    assert!(ok.is_valid);
    assert_eq!(ok.flags, vec![QualityFlag::Valid]);
    assert_eq!(ok.reason, None);
    let bad = observation_quality(5, Some(5), "", true, false, true);
    assert!(!bad.is_valid);
    assert_eq!(
        bad.flags,
        vec![QualityFlag::InvalidTimestamp, QualityFlag::InvalidSymbol, QualityFlag::NegativePrice, QualityFlag::NegativeSpread]
    );
    assert_eq!(bad.reason.as_deref(), Some("invalid_timestamp, invalid_symbol, negative_price, negative_spread"));
}

#[test]
fn bar_quality_flags() {
    assert!(bar_quality(100, Some(50), false, false, false).is_valid);
    let r = bar_quality(10, Some(50), false, true, false);
    assert_eq!(r.flags, vec![QualityFlag::InvalidTimestamp, QualityFlag::NegativeVolume]);
    assert_eq!(r.reason.as_deref(), Some(""));
}

#[test]
fn quality_constructors() {
    let v = QualityCheckResult::valid();
    assert!(v.is_valid);
    let i = QualityCheckResult::invalid(vec![QualityFlag::Stale], "old".to_string());
    assert!(!i.is_valid);
    assert_eq!(i.reason.as_deref(), Some("old"));
    let d = QualityCheckResult::default();
    assert!(!d.is_valid);
}

#[test]
fn regime_transitions() {
    assert_eq!(regime_transition(Regime::BullTrend, Regime::BullTrend), None);
    assert_eq!(
        regime_transition(Regime::BullTrend, Regime::BearTrend),
        Some((Regime::BullTrend, Regime::BearTrend))
    );
}

#[test]
fn families_feed_their_components() {
    assert_eq!(component_slot(SignalFamily::Trend), ComponentSlot::Trend);
    assert_eq!(component_slot(SignalFamily::MomentumDivergence), ComponentSlot::Momentum);
    assert_eq!(component_slot(SignalFamily::Momentum), ComponentSlot::Momentum);
    assert_eq!(component_slot(SignalFamily::VolatilityExpansion), ComponentSlot::Microstructure);
    assert_eq!(component_slot(SignalFamily::VolumeSurge), ComponentSlot::Event);
    assert_eq!(component_slot(SignalFamily::SupportResistanceBounce), ComponentSlot::RelativeStrength);
    assert_eq!(component_slot(SignalFamily::MeanReversion), ComponentSlot::MeanReversion);
    assert_eq!(component_slot(SignalFamily::Breakout), ComponentSlot::Breakout);
}

fn lineage_manifest(id: &str, symbols: &[&str]) -> quantaradar::domain::DatasetManifest {
    quantaradar::domain::DatasetManifest {
        dataset_id: id.to_string(),
        start: 1_700_000_000_000,
        end: 1_700_000_060_000,
        symbols: symbols.iter().map(|s| s.to_string()).collect(),
        checksum: String::new(),
        created_at: 1_700_000_100_000,
        git_commit: "abc123".to_string(),
        config_hash: "cfg".to_string(),
    }
}

#[test]
fn lineage_checksum_ignores_symbol_order() {
    let a = lineage_manifest("ds-1", &["ETH/USD", "BTC/USD", "SOL/USD"]);
    let b = lineage_manifest("ds-1", &["SOL/USD", "ETH/USD", "BTC/USD"]);
    assert_eq!(a.compute_checksum(), b.compute_checksum());
    assert!(!a.compute_checksum().is_empty());
}

#[test]
fn lineage_checksum_follows_id_and_symbols() {
    let a = lineage_manifest("ds-1", &["BTC/USD"]);
    let b = lineage_manifest("ds-2", &["BTC/USD"]);
    let c = lineage_manifest("ds-1", &["BTC/USD", "ETH/USD"]);
    assert_ne!(a.compute_checksum(), b.compute_checksum());
    assert_ne!(a.compute_checksum(), c.compute_checksum());
    let mut d = lineage_manifest("ds-1", &["BTC/USD"]);
    d.start = 0;
    d.git_commit = "other".to_string();
    assert_eq!(a.compute_checksum(), d.compute_checksum());
}

#[test]
fn lineage_checksum_hashes_id_then_sorted_symbols() {
    let m = lineage_manifest("ds-7", &["SOL/USD", "BTC/USD"]);
    let mut hasher = std::collections::hash_map::DefaultHasher::new();
    m.dataset_id.hash(&mut hasher);
    for s in ["BTC/USD", "SOL/USD"] {
        s.to_string().hash(&mut hasher);
    }
    assert_eq!(m.compute_checksum(), format!("{:x}", hasher.finish()));
}
