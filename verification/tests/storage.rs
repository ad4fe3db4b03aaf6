use quantaradar::storage::{
    ChangeType, Compression, DatasetType, Deduplicator, GapDetector, GapSeverity, ManifestWriter,
    MarketDataReader, ObservationKey, ReplayEngine, StorageConfig,
};

fn key(ts: u64, seq: u64) -> ObservationKey {
    ObservationKey { timestamp: ts, exchange: "kraken".to_string(), symbol: "BTC/USD".to_string(), sequence: seq }
}

#[test]
fn test_storage_config_default() {
    let config = StorageConfig::default();
    assert_eq!(config.compression, Compression::Snappy);
    assert_eq!(config.row_group_size, 65_536);
}

#[test]
fn storage_config_default_paths_and_batches() {
    let config = StorageConfig::default();
    assert_eq!(config.base_path, "data");
    assert_eq!(config.max_batch_size, 10_000);
}

#[test]
fn storage_handles_keep_config() {
    let mut config = StorageConfig::default();
    config.base_path = "/tmp/qr".to_string();
    assert_eq!(MarketDataReader::new(config.clone()).config.base_path, "/tmp/qr");
    assert_eq!(ManifestWriter::new(config.clone()).config.base_path, "/tmp/qr");
    assert_eq!(ReplayEngine::new(config).config.base_path, "/tmp/qr");
    assert_ne!(DatasetType::Trades, DatasetType::OrderBookDeltas);
    assert_ne!(ChangeType::Add, ChangeType::Remove);
}

#[test]
fn gap_detector_classifies_gaps() {
    let mut d = GapDetector::new(1, 100);
    assert_eq!(d.check_sequence(5, 4, 1), None);
    assert_eq!(d.check_sequence(4, 4, 1), None);
    assert_eq!(d.check_sequence(3, 4, 1), None);
    let g = d.check_sequence(7, 4, 42).unwrap();
    assert_eq!(g.expected_sequence, 5);
    assert_eq!(g.actual_sequence, 7);
    assert_eq!(g.gap_size, 2);
    assert_eq!(g.timestamp, 42);
    assert_eq!(g.severity, GapSeverity::Minor);
    assert_eq!(d.check_sequence(20, 4, 43).unwrap().severity, GapSeverity::Major);
    assert_eq!(d.check_sequence(200, 4, 44).unwrap().severity, GapSeverity::Critical);
    assert_eq!(d.get_gaps().len(), 3);
    d.clear();
    assert!(d.get_gaps().is_empty());
}

#[test]
fn gap_detector_threshold() {
    let mut d = GapDetector::new(5, 50);
    assert_eq!(d.check_sequence(5, 1, 0), None);
    assert_eq!(d.check_sequence(7, 1, 0).unwrap().gap_size, 5);
}

#[test]
fn deduplicator_detects_repeats() {
    let mut d = Deduplicator::new(10);
    assert!(!d.is_duplicate(&key(1, 1)));
    assert!(d.is_duplicate(&key(1, 1)));
    assert!(!d.is_duplicate(&key(1, 2)));
    assert!(!d.is_duplicate(&key(2, 1)));
    let mut other = key(1, 1);
    other.symbol = "ETH/USD".to_string();
    assert!(!d.is_duplicate(&other));
    d.clear();
    assert!(!d.is_duplicate(&key(1, 1)));
}

#[test]
fn deduplicator_stays_within_capacity() {
    let mut d = Deduplicator::new(2);
    for s in 0..10u64 {
        assert!(!d.is_duplicate(&key(0, s)));
    }
    // At most two keys are remembered: of the last three, at least one was forgotten.
    let remembered = (7..10u64).filter(|s| d.is_duplicate(&key(0, *s))).count();
    assert!(remembered <= 2);
}

#[test]
fn detector_keeps_recent_reports_since_clear() {
    let mut d = GapDetector::new(1, 100);
    d.max_gap_history = 2;
    assert!(d.check_sequence(5, 1, 10).is_some());
    d.clear();
    assert!(d.check_sequence(10, 5, 20).is_some());
    assert!(d.check_sequence(11, 10, 30).is_none());
    assert!(d.check_sequence(20, 11, 40).is_some());
    assert!(d.check_sequence(30, 20, 50).is_some());
    let kept: Vec<u64> = d.get_gaps().iter().map(|g| g.timestamp).collect();
    assert_eq!(kept, vec![40, 50]);
}
