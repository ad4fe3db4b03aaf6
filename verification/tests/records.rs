use quantaradar::data_model::{storage_layout, DatasetType};
use quantaradar::experiment::{retirement_change, status_after_metrics, ExperimentStatus};
use quantaradar::ingestion::{bar_trade_count, Normalizer};
use quantaradar::news::{check_news, check_onchain, keyword_match, NewsSource, NewsStorage};

#[test]
fn retirement_lineage_record() {
    let c = retirement_change("drawdown".to_string());
    assert_eq!(c.path, "status");
    assert_eq!(c.old_value, "active");
    assert_eq!(c.new_value, "drawdown");
    assert_eq!(status_after_metrics(), ExperimentStatus::Completed);
}

#[test]
fn storage_layout_directories() {
    assert_eq!(
        storage_layout(),
        vec!["raw/trades", "raw/books", "raw/ohlcv", "normalized", "features", "datasets", "manifests", "rejected"]
    );
    assert_ne!(DatasetType::RawTrades, DatasetType::Labels);
}

#[test]
fn normalizer_and_trade_count() {
    assert_eq!(Normalizer::new("kraken".to_string()).exchange, "kraken");
    assert_eq!(bar_trade_count(Some(42)), 42);
    assert_eq!(bar_trade_count(None), 0);
}

#[test]
fn news_storage_root() {
    assert_eq!(NewsStorage::new("news".to_string()).base_path, "news");
    assert_ne!(NewsSource::RedditRss, NewsSource::OnChain);
}

#[test]
fn news_ingestion_defaults() {
    let c = quantaradar::news::IngestionConfig::default();
    assert_eq!(c.reddit_subreddits, vec!["CryptoCurrency".to_string(), "Bitcoin".to_string()]);
    assert!(!c.enable_reddit);
    assert_eq!(c.google_query, "cryptocurrency market");
    assert_eq!(c.news_api_key, None);
    assert_eq!(c.news_api_query, "cryptocurrency");
    assert_eq!(c.rpc_url, "https://eth.llamarpc.com");
    assert_eq!(c.onchain_address, "0x0000000000000000000000000000000000000000");
    assert_eq!(c.storage_path, "data/news");
}

#[test]
fn keyword_alerts_ignore_case() {
    assert!(keyword_match("Bitcoin ETF approved", "bitcoin"));
    assert!(keyword_match("BITCOIN", "Bitcoin"));
    assert!(!keyword_match("Ether rallies", "bitcoin"));
    assert!(keyword_match("anything", ""));
    assert!(!keyword_match("", "x"));
    let types = vec!["Transfer".to_string(), "Approval".to_string(), "transferFrom".to_string()];
    assert_eq!(check_onchain(&types, "TRANSFER"), vec![0, 2]);
    assert_eq!(check_onchain(&types, "swap"), Vec::<usize>::new());
}

#[test]
fn news_alerts_need_strong_sentiment_and_the_keyword() {
    let titles: Vec<String> = vec![
        "Bitcoin ETF approved".to_string(),
        "bitcoin dips slightly".to_string(),
        "Ether rallies".to_string(),
        "BITCOIN miners capitulate".to_string(),
    ];
    let threshold = 0.5_f64;
    let scores = [0.9_f64, 0.1, -0.8, -0.7];
    let strong: Vec<bool> = scores.iter().map(|s| s.abs() >= threshold).collect();
    assert_eq!(check_news(&titles, &strong, "Bitcoin"), vec![0, 3]);
    assert_eq!(check_news(&titles, &vec![false; 4], "bitcoin"), Vec::<usize>::new());
    assert_eq!(check_news(&titles, &vec![true; 4], ""), vec![0, 1, 2, 3]);
}
