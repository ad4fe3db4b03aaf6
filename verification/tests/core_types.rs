use quantaradar::core_types::{bar_quality, observation_quality, Direction, OrderSide, QualityCheckResult, QualityFlag};

#[test]
fn lib_direction_serde() {
    assert_eq!(Direction::Long.to_string(), "long");
    assert_eq!(Direction::Short.to_string(), "short");
    assert_eq!(Direction::Flat.to_string(), "flat");
    assert_eq!(OrderSide::Buy.to_string(), "buy");
    assert_eq!(OrderSide::Sell.to_string(), "sell");
}

#[test]
fn legacy_quality_results() {
    let v = QualityCheckResult::valid();
    assert!(v.is_valid);
    assert_eq!(v.flags, vec![QualityFlag::Valid]);
    let i = QualityCheckResult::invalid(vec![QualityFlag::Stale]);
    assert!(!i.is_valid);
    assert_eq!(i.flags, vec![QualityFlag::Stale]);
    let d = QualityCheckResult::default();
    assert!(!d.is_valid);
    assert!(d.flags.is_empty());
}

#[test]
fn legacy_observation_quality_flags_in_order() {
    let ok = observation_quality(10, Some(9), false, false, false, false, 0, 0);
    assert!(ok.is_valid);
    assert_eq!(ok.flags, vec![QualityFlag::Valid]);
    let bad = observation_quality(9, Some(9), true, true, true, true, 2, 1);
    assert!(!bad.is_valid);
    assert_eq!(
        bad.flags,
        vec![
            QualityFlag::OutOfSequence,
            QualityFlag::NegativePrice,
            QualityFlag::NegativeVolume,
            QualityFlag::InvalidSpread,
            QualityFlag::NegativePrice,
            QualityFlag::NegativePrice,
            QualityFlag::NegativePrice,
            QualityFlag::NegativePrice,
        ]
    );
    let first = observation_quality(1, None, false, false, false, false, 0, 0);
    assert!(first.is_valid);
}

#[test]
fn legacy_bar_quality() {
    assert!(bar_quality(100, Some(99), false, false, false).is_valid);
    let r = bar_quality(99, Some(99), false, false, true);
    assert_eq!(r.flags, vec![QualityFlag::OutOfSequence, QualityFlag::InvalidSpread]);
    assert!(!r.is_valid);
}
