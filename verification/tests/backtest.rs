use chrono::{TimeZone, Utc};
use quantaradar::backtest::{first_position, fold_test_indices, fold_test_microstructure, SignalAction, WfoFold};

fn ms(y: i32, m: u32, d: u32) -> i64 {
    Utc.with_ymd_and_hms(y, m, d, 0, 0, 0).unwrap().timestamp_millis()
}

#[test]
fn test_wfo_fold_creation() {
    let start = ms(2019, 1, 1);
    let end = ms(2022, 12, 31);
    let test_start = ms(2023, 1, 1);
    let test_end = ms(2023, 12, 31);

    let fold = WfoFold { train_start: start, train_end: end, test_start, test_end };

    assert!(fold.train_start <= fold.train_end);
    assert!(fold.test_start <= fold.test_end);
    assert!(fold.train_end < fold.test_start); // expanding WFO: train before test
}

#[test]
fn test_run_expanding_wfo() {
    // Just test that the function can be called with proper data
}

#[test]
fn fold_selects_bars_after_training_up_to_test_end() {
    let fold = WfoFold { train_start: 0, train_end: 100, test_start: 101, test_end: 200 };
    let ts = [50, 100, 101, 150, 200, 201, 150];
    assert_eq!(fold_test_indices(&ts, &fold), vec![2, 3, 4, 6]);
    assert!(fold_test_indices(&[], &fold).is_empty());
    assert!(fold_test_indices(&[1, 2, 300], &fold).is_empty());
}

#[test]
fn fold_snapshots_follow_first_bar_with_same_time() {
    let fold = WfoFold { train_start: 0, train_end: 100, test_start: 101, test_end: 200 };
    let ts = [50, 150, 120, 150];
    let micro = [Some('a'), Some('b'), None, Some('d')];
    // Bars 1, 2, 3 are tested; bar 3 shares its time with bar 1 and takes its snapshot.
    assert_eq!(fold_test_microstructure(&ts, &micro, &fold), vec![Some('b'), None, Some('b')]);
    // A shorter snapshot list gives none past its end.
    assert_eq!(fold_test_microstructure(&ts, &micro[..2], &fold), vec![Some('b'), None, Some('b')]);
    assert_eq!(fold_test_microstructure(&ts, &micro[..1], &fold), vec![None, None, None]);
}

#[test]
fn first_position_finds_earliest() {
    assert_eq!(first_position(&[3, 1, 3], 3), Some(0));
    assert_eq!(first_position(&[3, 1, 3], 1), Some(1));
    assert_eq!(first_position(&[3, 1, 3], 2), None);
}

#[test]
fn signal_actions_are_distinct() {
    assert_ne!(SignalAction::Buy, SignalAction::Sell);
    assert_ne!(SignalAction::Close, SignalAction::Hold);
}
