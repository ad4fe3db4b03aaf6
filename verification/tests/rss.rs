use quantaradar::rss::rss_entries;

const FEED: &str = "<?xml version=\"1.0\"?><rss><channel><title>Google News</title>
<item>
  <title>  Bitcoin rallies past resistance </title>
  <link>https://example.com/a</link>
  <pubDate>Mon, 01 Jan 2024 00:00:00 GMT</pubDate>
</item>
<item><title></title><link>https://example.com/untitled</link></item>
<item><title>Ether upgrade ships</title><link>
 https://example.com/b
</link><pubDate>not a date</pubDate></item>
<item><title>unterminated
</channel></rss>";

fn now_ms() -> i64 {
    std::time::SystemTime::now().duration_since(std::time::UNIX_EPOCH).unwrap().as_millis() as i64
}

#[test]
fn google_news_items_are_read_in_order() {
    let before = now_ms();
    let entries = rss_entries(FEED);
    assert_eq!(entries.len(), 2);
    assert_eq!(entries[0].title, "Bitcoin rallies past resistance");
    assert_eq!(entries[0].link, "https://example.com/a");
    assert_eq!(entries[0].published_ms, 1_704_067_200_000);
    assert_eq!(entries[1].title, "Ether upgrade ships");
    assert_eq!(entries[1].link, "https://example.com/b");
    // An unreadable date falls back to the current time.
    assert!(entries[1].published_ms >= before);
}

#[test]
fn documents_without_complete_items_give_nothing() {
    assert!(rss_entries("").is_empty());
    assert!(rss_entries("<item><title>x</title>").is_empty());
    assert!(rss_entries("no items here </item>").is_empty());
}

#[test]
fn item_text_is_taken_lazily() {
    let doc = "<item><title>a</title></item><item><title>b</title><title>c</title></item>";
    let entries = rss_entries(doc);
    let titles: Vec<&str> = entries.iter().map(|e| e.title.as_str()).collect();
    assert_eq!(titles, vec!["a", "b"]);
    assert_eq!(entries[0].link, "");
    // Unicode white space is trimmed as Rust's trim does.
    let doc = "<item><title>\u{3000}\u{A0} x y \u{2009}</title></item>";
    assert_eq!(rss_entries(doc)[0].title, "x y");
}
