use quantaradar::features::{atr_lookback, ema_lookback, rsi_lookback, Lookback};

#[test]
fn ema_first_value_at_period_minus_one() {
    let l = ema_lookback(3);
    assert_eq!(l.required, 2);
    assert!(!l.ok_at(1));
    assert!(l.ok_at(2));
    assert!(l.ok_at(4));
    assert_eq!(ema_lookback(0).required, 0);
}

#[test]
fn rsi_and_atr_warm_up() {
    assert_eq!(rsi_lookback(14).required, 14);
    assert!(!rsi_lookback(14).ok_at(13));
    assert!(rsi_lookback(14).ok_at(14));
    assert_eq!(atr_lookback(14).required, 13);
    assert_eq!(atr_lookback(0).required, 0);
}

#[test]
fn lookback_new() {
    assert_eq!(Lookback::new(5), Lookback { required: 5 });
    assert!(Lookback::new(0).ok_at(0));
}
