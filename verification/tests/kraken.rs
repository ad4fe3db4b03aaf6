use quantaradar::core_types::MarketId;
use quantaradar::kraken::{discover_spot, pair_from_raw, scan_symbol, select_scan_markets, KrakenPair};

fn pair(symbol: &str, wsname: &str, status: &str) -> KrakenPair {
    KrakenPair {
        symbol: symbol.to_string(),
        base: "XBT".to_string(),
        quote: "USD".to_string(),
        wsname: wsname.to_string(),
        status: status.to_string(),
    }
}

#[test]
fn raw_pairs_need_base_and_quote() {
    assert!(pair_from_raw("XXBTZUSD".into(), None, Some("USD".into()), None, None).is_none());
    assert!(pair_from_raw("XXBTZUSD".into(), Some("XBT".into()), None, None, None).is_none());
    let p = pair_from_raw("XXBTZUSD".into(), Some("XBT".into()), Some("USD".into()), None, None).unwrap();
    assert_eq!(p.symbol, "XXBTZUSD");
    assert_eq!(p.wsname, "");
    assert_eq!(p.status, "online");
    let q = pair_from_raw("X".into(), Some("A".into()), Some("B".into()), Some("A/B".into()), Some("cancel_only".into()))
        .unwrap();
    assert_eq!(q.wsname, "A/B");
    assert_eq!(q.status, "cancel_only");
}

#[test]
fn discovery_keeps_online_pairs_in_order() {
    let markets = discover_spot(vec![
        pair("XXBTZUSD", "XBT/USD", "online"),
        pair("XETHZUSD", "ETH/USD", "cancel_only"),
        pair("SOLUSD", "", "online"),
    ]);
    assert_eq!(markets.len(), 2);
    assert_eq!(markets[0].exchange, "kraken");
    assert_eq!(markets[0].symbol, "XBT/USD");
    assert_eq!(markets[0].base, "XBT");
    assert_eq!(markets[0].quote, "USD");
    assert_eq!(markets[1].symbol, "SOLUSD");
    assert!(discover_spot(vec![]).is_empty());
}

fn market(symbol: &str, base: &str, quote: &str) -> MarketId {
    MarketId { exchange: "kraken".to_string(), symbol: symbol.to_string(), base: base.to_string(), quote: quote.to_string() }
}

#[test]
fn scan_selects_matching_quotes_up_to_the_limit() {
    let markets = vec![
        market("XBT/USD", "XBT", "usd"),
        market("ETH/EUR", "ETH", "EUR"),
        market("SOL/ZUSD", "SOL", "ZUSD"),
        market("ADA/USDT", "ADA", "USDT"),
        market("DOT/USD", "DOT", "USD"),
    ];
    let picked = select_scan_markets(markets.clone(), "USD", 10);
    let names: Vec<&str> = picked.iter().map(|m| m.symbol.as_str()).collect();
    assert_eq!(names, vec!["XBT/USD", "SOL/ZUSD", "DOT/USD"]);
    let first_two = select_scan_markets(markets.clone(), "USD", 2);
    assert_eq!(first_two.len(), 2);
    assert_eq!(first_two[1].symbol, "SOL/ZUSD");
    assert!(select_scan_markets(markets.clone(), "USD", 0).is_empty());
    assert!(select_scan_markets(markets, "GBP", 5).is_empty());
}

#[test]
fn scan_symbol_falls_back_to_base() {
    assert_eq!(scan_symbol(&market("", "XBT", "USD")), "XBT");
    assert_eq!(scan_symbol(&market("XBT/USD", "XBT", "USD")), "XBT/USD");
}
