use quantaradar::batching::{push_recent, BatchQueue};
use quantaradar::ingestion::{combine_quality, IngestionConfig};
use quantaradar::domain::{observation_quality, QualityFlag};

#[test]
fn queue_flushes_full_batches_in_order() {
    let mut q = BatchQueue::new(3);
    assert_eq!(q.push(1), None);
    assert_eq!(q.push(2), None);
    assert_eq!(q.len(), 2);
    assert_eq!(q.push(3), Some(vec![1, 2, 3]));
    assert_eq!(q.len(), 0);
    assert_eq!(q.push(4), None);
    assert_eq!(q.pending(), &[4]);
    assert_eq!(q.take_if_full(), None);
    assert_eq!(q.take_all(), Some(vec![4]));
    assert_eq!(q.take_all(), None);
}

#[test]
fn periodic_flush_takes_only_full_batches() {
    let mut q = BatchQueue::new(2);
    q.push('a');
    assert_eq!(q.take_if_full(), None);
    assert_eq!(q.pending(), &['a']);
    let mut zero = BatchQueue::new(0);
    assert_eq!(zero.take_if_full(), Some(Vec::<u8>::new()));
    assert_eq!(zero.push(9u8), Some(vec![9]));
}

#[test]
fn recent_window_is_bounded() {
    let mut recent = Vec::new();
    for i in 0..5 {
        push_recent(&mut recent, i, 3);
    }
    assert_eq!(recent, vec![2, 3, 4]);
    let mut none = vec![1];
    push_recent(&mut none, 2, 0);
    assert!(none.len() <= 1);
}

#[test]
fn ingestion_config_default() {
    let c = IngestionConfig::default();
    assert_eq!(c.batch_size, 1000);
    assert_eq!(c.flush_interval_ms, 5_000);
    assert_eq!(c.max_queue_size, 100_000);
    assert_eq!(c.storage_config.base_path, "data");
}

#[test]
fn validator_combines_flags() {
    let ok = combine_quality(&vec![QualityFlag::Valid], false, false, false);
    assert!(ok.is_valid);
    assert_eq!(ok.flags, vec![QualityFlag::Valid]);
    let spread = combine_quality(&vec![QualityFlag::Valid], false, false, true);
    assert!(!spread.is_valid);
    assert_eq!(spread.flags, vec![QualityFlag::NegativeSpread]);
    assert_eq!(spread.reason.as_deref(), Some(""));
    let all = combine_quality(&vec![QualityFlag::NegativePrice], true, true, true);
    assert_eq!(
        all.flags,
        vec![QualityFlag::NegativePrice, QualityFlag::InvalidTimestamp, QualityFlag::InvalidTimestamp, QualityFlag::NegativeSpread]
    );
    let none = combine_quality(&vec![], false, false, false);
    assert!(none.is_valid);
}

#[test]
fn test_quality_validator() {
    // A clean observation: positive prices, ask above bid, no history.
    let (open, high, low, close, volume, bid, ask) = (50_000.0, 51_000.0, 49_000.0, 50_500.0, 100.0, 50_490.0, 50_510.0);
    let price_nonpositive = open <= 0.0 || high <= 0.0 || low <= 0.0 || close <= 0.0;
    let core = observation_quality(1_700_000_000_000, None, "BTC/USD", price_nonpositive, volume < 0.0, ask < bid);
    let spread_bps = (ask - bid) / ((ask + bid) / 2.0) * 10_000.0;
    let result = combine_quality(&core.flags, false, false, spread_bps > 500.0);
    assert!(result.is_valid);
}
