use quantaradar::archive_manager::ArchiveManager;
use quantaradar::archives::{ArchivesConfig, GapSeverity, StreamKind};

#[test]
fn test_archive_manager() {
    let mut manager: ArchiveManager<u64, u64, u64> = ArchiveManager::new(ArchivesConfig::default());
    assert!(manager.can_archive("kraken", "BTC/USD", StreamKind::Observation, 1_700_000_000_000));
    manager.add_observation("kraken", "BTC/USD", 50_500, 1_700_000_000_000);
    let gaps = manager.get_all_gaps();
    assert_eq!(gaps.len(), 0);
}

#[test]
fn manager_keeps_one_archive_per_symbol() {
    let config = ArchivesConfig { gap_detection_threshold_ms: 1000, replay_batch_size: 2, ..ArchivesConfig::default() };
    let mut manager: ArchiveManager<u64, u64, u64> = ArchiveManager::new(config);
    manager.add_observation("kraken", "BTC/USD", 1, 10_000);
    manager.add_observation("kraken", "ETH/USD", 2, 10_000);
    let (gap, batch) = manager.add_observation("kraken", "BTC/USD", 3, 15_000);
    let gap = gap.unwrap();
    assert_eq!(gap.gap_size_ms, 5_000);
    assert_eq!(gap.expected_timestamp, 10_001);
    assert_eq!(gap.symbol, "BTC/USD");
    assert_eq!(gap.severity, GapSeverity::Minor);
    assert_eq!(batch, Some(vec![1, 3]));
    assert_eq!(manager.archives().len(), 2);
    let eth = manager.get_archive("kraken", "ETH/USD").unwrap();
    assert_eq!(eth.tracker.gaps().len(), 0);
    assert!(manager.get_archive("binance", "ETH/USD").is_none());
}

#[test]
fn manager_gaps_are_listed_archive_by_archive() {
    let config = ArchivesConfig { gap_detection_threshold_ms: 100, ..ArchivesConfig::default() };
    let mut manager: ArchiveManager<u64, u64, u64> = ArchiveManager::new(config);
    manager.add_trade("kraken", "BTC/USD", 1, 0);
    manager.add_trade("kraken", "BTC/USD", 2, 1_000);
    manager.add_orderbook("kraken", "ETH/USD", 7, 0);
    manager.add_orderbook("kraken", "ETH/USD", 8, 10_000_000);
    manager.add_trade("kraken", "BTC/USD", 3, 100_000);
    let gaps = manager.get_all_gaps();
    let sizes: Vec<u64> = gaps.iter().map(|g| g.gap_size_ms).collect();
    assert_eq!(sizes, vec![1_000, 99_000, 10_000_000]);
    assert_eq!(gaps[2].severity, GapSeverity::Critical);
    assert_eq!(gaps[1].severity, GapSeverity::Major);
}

#[test]
fn manager_flush_hands_out_pending_records() {
    let mut manager: ArchiveManager<u64, u64, u64> = ArchiveManager::new(ArchivesConfig::default());
    manager.add_observation("kraken", "BTC/USD", 1, 1);
    manager.add_trade("kraken", "BTC/USD", 2, 1);
    manager.add_orderbook("kraken", "ETH/USD", 3, 1);
    let flushed = manager.flush_all();
    assert_eq!(flushed, vec![(Some(vec![1]), Some(vec![2]), None), (None, None, Some(vec![3]))]);
    let again = manager.flush_all();
    assert_eq!(again, vec![(None, None, None), (None, None, None)]);
}

#[test]
fn manager_reported_gap_joins_the_listed_gaps() {
    let config = ArchivesConfig { gap_detection_threshold_ms: 100, ..ArchivesConfig::default() };
    let mut manager: ArchiveManager<u64, u64, u64> = ArchiveManager::new(config);
    manager.add_trade("kraken", "BTC/USD", 1, 0);
    manager.add_trade("kraken", "BTC/USD", 2, 1_000);
    let before: Vec<u64> = manager.get_all_gaps().iter().map(|g| g.gap_size_ms).collect();
    let (gap, _) = manager.add_observation("kraken", "BTC/USD", 5, 500);
    assert!(gap.is_none());
    let (gap, _) = manager.add_observation("kraken", "BTC/USD", 6, 2_500);
    let reported = gap.unwrap();
    let mut after: Vec<u64> = manager.get_all_gaps().iter().map(|g| g.gap_size_ms).collect();
    let mut expected = before.clone();
    expected.push(reported.gap_size_ms);
    after.sort();
    expected.sort();
    assert_eq!(after, expected);
}

#[test]
fn manager_replay_makes_the_archive_and_reads_nothing() {
    let mut manager: ArchiveManager<u64, u64, u64> = ArchiveManager::new(ArchivesConfig::default());
    assert!(manager.replay("kraken", "BTC/USD", 0, 10).is_empty());
    assert_eq!(manager.archives().len(), 1);
    assert!(manager.get_archive("kraken", "BTC/USD").is_some());
    manager.add_observation("kraken", "BTC/USD", 1, 5);
    assert!(manager.replay("kraken", "BTC/USD", 0, 10).is_empty());
    assert_eq!(manager.archives().len(), 1);
}
