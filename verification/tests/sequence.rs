use quantaradar::sequence::{SequenceValidator, ValidationError};

#[test]
fn gap_detection() {
    let mut v = SequenceValidator::new(1000);
    assert!(v.validate(1, 1000).is_ok());
    assert!(v.validate(2, 1001).is_ok());
    let err = v.validate(4, 1003).unwrap_err();
    assert!(matches!(err, ValidationError::Gap { expected: 3, got: 4 }));
}

#[test]
fn late_event_rejection() {
    let mut v = SequenceValidator::new(100);
    assert!(v.validate(1, 1000).is_ok());
    assert!(v.validate(2, 1001).is_ok());
    let err = v.validate(3, 800).unwrap_err();
    assert!(matches!(err, ValidationError::LateEvent { .. }));
}

#[test]
fn duplicate_rejection() {
    let mut v = SequenceValidator::new(1000);
    assert!(v.validate(1, 1000).is_ok());
    let err = v.validate(1, 1001).unwrap_err();
    assert!(matches!(err, ValidationError::Duplicate { seq: 1 }));
}

#[test]
fn validator_metrics_count_gaps_and_drops() {
    let mut v = SequenceValidator::new(100);
    assert_eq!(v.metrics(), (0, 0, 0));
    assert!(v.validate(7, 1000).is_ok());
    assert_eq!(v.validate(9, 1000), Err(ValidationError::Gap { expected: 8, got: 9 }));
    assert_eq!(v.validate(8, 850), Err(ValidationError::LateEvent { max_lateness_ms: 100, lateness_ms: 150 }));
    assert_eq!(v.metrics(), (1, 1, 7));
    // A refused message moves nothing: 8 is still the one expected.
    assert!(v.validate(8, 950).is_ok());
    assert_eq!(v.metrics(), (1, 1, 8));
}

#[test]
fn validator_accepts_lateness_within_window() {
    let mut v = SequenceValidator::new(100);
    assert!(v.validate(1, 1000).is_ok());
    assert!(v.validate(2, 900).is_ok());
    assert_eq!(v.validate(2, 2000), Err(ValidationError::Duplicate { seq: 2 }));
}

#[test]
fn metrics_count_the_whole_history() {
    let mut v = SequenceValidator::new(100);
    let calls: [(u64, u64); 8] = [(1, 1_000), (2, 1_010), (2, 1_020), (5, 1_030), (3, 800), (3, 950), (4, 960), (9, 970)];
    let mut late = 0u64;
    let mut gaps = 0u64;
    let mut last_ok = 0u64;
    for (seq, ts) in calls {
        match v.validate(seq, ts) {
            Ok(()) => last_ok = seq,
            Err(ValidationError::LateEvent { .. }) => late += 1,
            Err(ValidationError::Gap { .. }) => gaps += 1,
            Err(ValidationError::Duplicate { .. }) => {}
        }
    }
    assert_eq!((late, gaps, last_ok), (1, 2, 4));
    assert_eq!(v.metrics(), (late, gaps, last_ok));
    assert_eq!(v.metrics(), v.metrics());
}
