use quantaradar::text::{has_colon, same_pair_key, sort_strings, str_eq, str_le};

#[test]
fn pair_keys_join_exchange_and_symbol() {
    assert!(same_pair_key("kraken", "BTC/USD", "kraken", "BTC/USD"));
    assert!(!same_pair_key("kraken", "BTC/USD", "kraken", "ETH/USD"));
    assert!(!same_pair_key("kraken", "BTC/USD", "krakenBTC", "/USD"));
    assert!(same_pair_key("a:b", "c", "a", "b:c"));
    assert!(same_pair_key("", "", "", ""));
}

#[test]
fn colons_are_found() {
    assert!(has_colon("a:b"));
    assert!(!has_colon("kraken"));
    assert!(!has_colon(""));
}

#[test]
fn strings_compare_like_rust_strings() {
    let words = ["", "a", "ab", "b", "B", "é", "ä", "BTC/USD", "BTC/EUR"];
    for x in words {
        for y in words {
            assert_eq!(str_le(x, y), x <= y, "{:?} <= {:?}", x, y);
        }
    }
    assert!(str_eq("abc", "abc"));
    assert!(!str_eq("abc", "abd"));
}

#[test]
fn sorting_strings_matches_std() {
    let v: Vec<String> = ["ETH/USD", "BTC/USD", "SOL/USD", "BTC/USD", "ada/usd", ""].iter().map(|s| s.to_string()).collect();
    let mut expected = v.clone();
    expected.sort();
    assert_eq!(sort_strings(v), expected);
    assert!(sort_strings(Vec::new()).is_empty());
}
