use quantaradar::cli::{cli_version, CliMode, CliVariant, CliVariantMode};

#[test]
fn version_ok() {
    assert!(!cli_version().is_empty());
}

#[test]
fn version_is_exact() {
    assert_eq!(cli_version(), "0.2.0");
}

#[test]
fn variant_create() {
    assert!(!CliVariant::new("discover").mode.is_empty());
}

#[test]
fn cli_full() {
    assert!(!cli_version().is_empty());
    assert!(!CliVariant::new("backtest").mode.is_empty());
}

#[test]
fn variant_keeps_mode_and_default_is_empty() {
    assert_eq!(CliVariant::new("screen").mode, "screen");
    assert_eq!(CliVariant::default().mode, "");
}

#[test]
fn all_modes() {
    assert!(CliVariantMode::Discover.to_string() == "Discover");
}

#[test]
fn variant_mode_names() {
    assert_eq!(CliVariantMode::Screen.to_string(), "Screen");
    assert_eq!(CliVariantMode::Fetch.to_string(), "Fetch");
    assert_eq!(CliVariantMode::Backtest.to_string(), "Backtest");
    assert_eq!(CliVariantMode::Monitor.to_string(), "Monitor");
}

#[test]
fn cli_dispatch_all() {
    for mode in [CliMode::Discover, CliMode::Backtest, CliMode::Monitor] {
        assert!(!mode.dispatch().is_empty());
    }
}

#[test]
fn dispatch_commands() {
    assert_eq!(CliMode::Discover.dispatch(), "discover");
    assert_eq!(CliMode::Screen.dispatch(), "screen");
    assert_eq!(CliMode::Fetch.dispatch(), "fetch");
    assert_eq!(CliMode::Backtest.dispatch(), "backtest");
    assert_eq!(CliMode::Monitor.dispatch(), "monitor");
}

#[test]
fn cli_execute() {
    assert!(!CliVariantMode::Backtest.execute_command().is_empty());
}

#[test]
fn execute_commands() {
    assert_eq!(CliVariantMode::Discover.execute_command(), "discover");
    assert_eq!(CliVariantMode::Monitor.execute_command(), "monitor");
}
