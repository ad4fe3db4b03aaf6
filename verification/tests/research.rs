use quantaradar::research::{FactorEngineError, SectorMap};

fn pairs() -> Vec<(String, String)> {
    vec![
        ("BTC".to_string(), "L1".to_string()),
        ("UNI".to_string(), "DeFi".to_string()),
        ("ETH".to_string(), "L1".to_string()),
        ("AAVE".to_string(), "DeFi".to_string()),
        ("DOGE".to_string(), "Meme".to_string()),
    ]
}

#[test]
fn sector_lookups() {
    let m = SectorMap::new(pairs());
    assert_eq!(m.get_sector("ETH").map(|s| s.as_str()), Some("L1"));
    assert_eq!(m.get_sector("DOGE").map(|s| s.as_str()), Some("Meme"));
    assert_eq!(m.get_sector("XRP"), None);
    let l1 = m.assets_in_sector("L1").unwrap();
    assert_eq!(l1, &vec!["BTC".to_string(), "ETH".to_string()]);
    let defi = m.assets_in_sector("DeFi").unwrap();
    assert_eq!(defi, &vec!["UNI".to_string(), "AAVE".to_string()]);
    assert_eq!(m.assets_in_sector("Gaming"), None);
    assert_eq!(m.sector_to_assets.len(), 3);
}

#[test]
fn sector_lookups_agree() {
    let m = SectorMap::new(pairs());
    for (asset, _) in pairs() {
        let sector = m.get_sector(&asset).unwrap();
        assert!(m.assets_in_sector(sector).unwrap().contains(&asset));
    }
}

#[test]
fn empty_sector_map() {
    let m = SectorMap::new(vec![]);
    assert!(m.sector_to_assets.is_empty());
    assert_eq!(m.get_sector("BTC"), None);
}

#[test]
fn factor_error_messages() {
    assert_eq!(FactorEngineError::InsufficientObservations.to_string(), "Insufficient observations: need at least 30");
    assert_eq!(FactorEngineError::NoSectorMap.to_string(), "No sector map provided for neutralization");
    assert_eq!(
        FactorEngineError::ComputationFailed("singular matrix".to_string()).to_string(),
        "Factor computation failed: singular matrix"
    );
}
