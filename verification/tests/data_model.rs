use std::hash::{Hash, Hasher};
use quantaradar::data_model::{DatasetManifest, DatasetType};

fn manifest(symbols: &[&str]) -> DatasetManifest {
    DatasetManifest {
        dataset_id: "test_dataset".into(),
        dataset_type: DatasetType::RawTrades,
        start_time: 1_700_000_000_000,
        end_time: 1_700_000_000_000 + 86_400_000,
        symbols: symbols.iter().map(|s| s.to_string()).collect(),
        exchanges: vec!["kraken".into()],
        row_count: 1000,
        checksum: String::new(),
        created_at: 1_700_000_000_000,
        git_commit: "abc123".into(),
        config_hash: "def456".into(),
        parent_dataset: None,
    }
}

#[test]
fn test_dataset_manifest_checksum() {
    let manifest = manifest(&["BTC/USD", "ETH/USD"]);
    let checksum = manifest.compute_checksum();
    assert!(!checksum.is_empty());
    // Same symbols in different order should produce same checksum
    let mut manifest2 = manifest.clone();
    manifest2.symbols = vec!["ETH/USD".into(), "BTC/USD".into()];
    assert_eq!(checksum, manifest2.compute_checksum());
}

#[test]
fn checksum_depends_on_the_identifying_fields() {
    let base = manifest(&["BTC/USD", "ETH/USD", "SOL/USD"]);
    let c = base.compute_checksum();
    assert!(c.chars().all(|ch| ch.is_ascii_hexdigit()));
    let mut other = base.clone();
    other.symbols = vec!["SOL/USD".into(), "BTC/USD".into(), "ETH/USD".into()];
    assert_eq!(other.compute_checksum(), c);
    other.symbols.push("XRP/USD".into());
    assert_ne!(other.compute_checksum(), c);
    let mut later = base.clone();
    later.end_time += 1;
    assert_ne!(later.compute_checksum(), c);
    let mut kind = base.clone();
    kind.dataset_type = DatasetType::Features;
    assert_ne!(kind.compute_checksum(), c);
    // Fields outside the identity do not matter.
    let mut noted = base.clone();
    noted.row_count = 5;
    noted.git_commit = "zzz".into();
    assert_eq!(noted.compute_checksum(), c);
}

#[test]
fn manifest_checksum_hashes_fields_then_sorted_symbols() {
    let m = manifest(&["ETH/USD", "BTC/USD"]);
    let mut hasher = std::collections::hash_map::DefaultHasher::new();
    m.dataset_id.hash(&mut hasher);
    m.dataset_type.hash(&mut hasher);
    m.start_time.hash(&mut hasher);
    m.end_time.hash(&mut hasher);
    for s in ["BTC/USD", "ETH/USD"] {
        s.to_string().hash(&mut hasher);
    }
    let expected = format!("{:x}", hasher.finish());
    let got = m.compute_checksum();
    assert_eq!(got, expected);
    assert!(got.len() >= 1 && got.len() <= 16);
    assert!(got.chars().all(|c| c.is_ascii_digit() || ('a'..='f').contains(&c)));
}
