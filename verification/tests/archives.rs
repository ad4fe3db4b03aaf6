use quantaradar::archives::{
    gap_severity, gap_stats, ArchivesConfig, BookReconstructor, DataGap, GapSeverity, GapStats, GapTracker,
    StreamKind, SymbolArchive,
};

fn gap(size: u64, severity: GapSeverity) -> DataGap {
    DataGap {
        symbol: "BTC/USD".to_string(),
        exchange: "kraken".to_string(),
        expected_timestamp: 1,
        actual_timestamp: 1 + size,
        gap_size_ms: size,
        detected_at: 0,
        severity,
    }
}

#[test]
fn test_archives_config_default() {
    let config = ArchivesConfig::default();
    assert_eq!(config.gap_detection_threshold_ms, 60_000);
    assert_eq!(config.max_gap_size_ms, 3_600_000);
}

#[test]
fn archives_config_default_rest() {
    let config = ArchivesConfig::default();
    assert_eq!(config.replay_batch_size, 10_000);
    assert_eq!(config.storage_config.base_path, "data");
}

#[test]
fn severity_bands() {
    assert_eq!(gap_severity(0), GapSeverity::Minor);
    assert_eq!(gap_severity(59_999), GapSeverity::Minor);
    assert_eq!(gap_severity(60_000), GapSeverity::Major);
    assert_eq!(gap_severity(3_599_999), GapSeverity::Major);
    assert_eq!(gap_severity(3_600_000), GapSeverity::Critical);
}

#[test]
fn stats_of_gaps() {
    assert_eq!(
        gap_stats(&vec![]),
        GapStats { total_gaps: 0, minor_gaps: 0, major_gaps: 0, critical_gaps: 0, total_gap_ms: 0, avg_gap_ms: 0 }
    );
    let gaps = vec![
        gap(100, GapSeverity::Minor),
        gap(120_000, GapSeverity::Major),
        gap(4_000_000, GapSeverity::Critical),
        gap(201, GapSeverity::Minor),
    ];
    assert_eq!(
        gap_stats(&gaps),
        GapStats {
            total_gaps: 4,
            minor_gaps: 2,
            major_gaps: 1,
            critical_gaps: 1,
            total_gap_ms: 4_120_301,
            avg_gap_ms: 1_030_075,
        }
    );
}

#[test]
fn tracker_detects_gaps_per_stream() {
    let mut t = GapTracker::new("BTC/USD".to_string(), "kraken".to_string(), 60_000);
    assert!(t.record_at(StreamKind::Observation, 1_000, 7).is_none());
    assert!(t.record_at(StreamKind::Observation, 61_000, 7).is_none());
    let g = t.record_at(StreamKind::Observation, 200_000, 9).unwrap();
    assert_eq!(g.expected_timestamp, 61_001);
    assert_eq!(g.actual_timestamp, 200_000);
    assert_eq!(g.gap_size_ms, 139_000);
    assert_eq!(g.detected_at, 9);
    assert_eq!(g.severity, GapSeverity::Major);
    assert_eq!(g.symbol, "BTC/USD");
    assert_eq!(g.exchange, "kraken");
    // Another stream has its own clock.
    assert!(t.record_at(StreamKind::Trade, 500_000, 9).is_none());
    assert!(t.record(StreamKind::Trade, 500_010).is_none());
    assert!(t.record(StreamKind::OrderBook, 1).is_none());
    let late = t.record(StreamKind::OrderBook, 10_000_000).unwrap();
    assert_eq!(late.severity, GapSeverity::Critical);
    assert!(late.detected_at > 1_600_000_000_000);
    assert_eq!(t.gaps().len(), 2);
    let st = t.stats();
    assert_eq!(st.total_gaps, 2);
    assert_eq!(st.major_gaps, 1);
    assert_eq!(st.critical_gaps, 1);
}

#[test]
fn reconstruct_drops_stale_deltas() {
    let deltas = vec![(1u64, 'a'), (3, 'b'), (2, 'c'), (3, 'd'), (5, 'e'), (0, 'f')];
    let out = BookReconstructor::reconstruct(deltas);
    assert_eq!(out, vec![(1, 'a'), (3, 'b'), (5, 'e')]);
    let again = BookReconstructor::reconstruct(out.clone());
    assert_eq!(again, out);
    assert!(BookReconstructor::reconstruct(Vec::<(u64, u8)>::new()).is_empty());
}

#[test]
fn validate_sequence_reports_breaks() {
    assert_eq!(BookReconstructor::validate_sequence(&[1, 2, 3]), vec![]);
    assert_eq!(BookReconstructor::validate_sequence(&[1, 2, 5, 6, 4]), vec![(2, 5), (6, 4)]);
    assert_eq!(BookReconstructor::validate_sequence(&[]), vec![]);
    assert_eq!(BookReconstructor::validate_sequence(&[9]), vec![]);
}

#[test]
fn symbol_archive_detects_gaps_and_batches() {
    let mut config = ArchivesConfig::default();
    config.replay_batch_size = 2;
    let mut a: SymbolArchive<u32, u8, char> = SymbolArchive::new(&config, "BTC/USD".to_string(), "kraken".to_string());
    let (g, b) = a.add_observation(1, 1_000);
    assert!(g.is_none() && b.is_none());
    let (g, b) = a.add_observation(2, 1_000_000);
    assert_eq!(g.unwrap().severity, GapSeverity::Major);
    assert_eq!(b, Some(vec![1, 2]));
    assert!(a.add_trade(7, 5).0.is_none());
    assert!(a.add_orderbook('x', 5).0.is_none());
    assert_eq!(a.tracker.gaps().len(), 1);
    assert_eq!(a.flush_all(), (None, Some(vec![7]), Some(vec!['x'])));
    assert_eq!(a.flush_all(), (None, None, None));
}

#[test]
fn test_gap_detection() {
    let config = ArchivesConfig { gap_detection_threshold_ms: 1000, ..ArchivesConfig::default() };
    let mut archive: SymbolArchive<u64, u64, u64> =
        SymbolArchive::new(&config, "BTC/USD".to_string(), "kraken".to_string());
    assert!(archive.tracker.can_record(StreamKind::Observation, 1_700_000_000_000));
    archive.add_observation(1, 1_700_000_000_000);
    archive.add_observation(2, 1_700_000_002_000);
    let gaps = archive.tracker.gaps();
    assert_eq!(gaps.len(), 1);
    assert_eq!(gaps[0].gap_size_ms, 2000);
    assert_eq!(gaps[0].severity, GapSeverity::Minor);
}

#[test]
fn archive_gap_describes_the_jump() {
    let config = ArchivesConfig { gap_detection_threshold_ms: 1000, ..ArchivesConfig::default() };
    let mut archive: SymbolArchive<u64, u64, u64> =
        SymbolArchive::new(&config, "BTC/USD".to_string(), "kraken".to_string());
    archive.add_observation(1, 1_700_000_000_000);
    let (gap, _) = archive.add_observation(2, 1_700_000_002_000);
    let gap = gap.unwrap();
    assert_eq!(gap.expected_timestamp, 1_700_000_000_001);
    assert_eq!(gap.actual_timestamp, 1_700_000_002_000);
    assert_eq!(gap.gap_size_ms, 2000);
    assert_eq!(gap.severity, GapSeverity::Minor);
    assert_eq!(gap.symbol, "BTC/USD");
    assert_eq!(gap.exchange, "kraken");
    assert_eq!(archive.tracker.gaps()[0].gap_size_ms, gap.gap_size_ms);
}

#[test]
fn archive_replay_reads_nothing_back_yet() {
    let mut archive: SymbolArchive<u64, u64, u64> =
        SymbolArchive::new(&ArchivesConfig::default(), "BTC/USD".to_string(), "kraken".to_string());
    archive.add_observation(7, 1_000);
    assert!(archive.replay_observations(0, u64::MAX).is_empty());
}

#[test]
fn archive_gaps_and_stats_read_the_tracker() {
    let config = ArchivesConfig { gap_detection_threshold_ms: 1000, ..ArchivesConfig::default() };
    let mut archive: SymbolArchive<u64, u64, u64> =
        SymbolArchive::new(&config, "BTC/USD".to_string(), "kraken".to_string());
    archive.add_trade(1, 0);
    archive.add_trade(2, 5_000);
    archive.add_trade(3, 100_000);
    let gaps = archive.get_gaps();
    assert_eq!(gaps.len(), 2);
    assert_eq!(gaps[1].gap_size_ms, 95_000);
    let stats = archive.gap_stats();
    assert_eq!(stats.total_gaps, 2);
    assert_eq!(stats.minor_gaps, 1);
    assert_eq!(stats.major_gaps, 1);
    assert_eq!(stats.total_gap_ms, 100_000);
}
