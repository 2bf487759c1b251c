use karga::rss::{
    collect_news, detect_feed_format, feed_items_from_body, parse_atom, parse_feed, parse_rss, sort_newest_first,
    FeedError, FeedFormat, NewsItem,
};

fn rss_doc(n: usize) -> String {
    let mut s = String::from("<?xml version=\"1.0\"?><rss version=\"2.0\"><channel><title>T</title><link>http://x</link><description>D</description>");
    for i in 0..n {
        s.push_str(&format!(
            "<item><title>Title {i}</title><link>http://x/{i}</link><description>Desc {i}</description><pubDate>Mon, 0{d} Jan 2024 10:00:00 GMT</pubDate></item>",
            i = i,
            d = i % 9 + 1
        ));
    }
    s.push_str("</channel></rss>");
    s
}

const ATOM: &str = r#"<?xml version="1.0" encoding="utf-8"?>
<feed xmlns="http://www.w3.org/2005/Atom">
  <title>Example</title>
  <id>urn:x</id>
  <updated>2024-01-02T10:00:00Z</updated>
  <entry>
    <title>First</title>
    <id>urn:1</id>
    <link href="http://a/1"/>
    <link href="http://a/1b"/>
    <updated>2024-01-02T10:00:00Z</updated>
    <published>2024-01-01T09:00:00Z</published>
    <summary>Sum one</summary>
  </entry>
  <entry>
    <title>Second</title>
    <id>urn:2</id>
    <updated>2024-01-03T11:00:00Z</updated>
  </entry>
</feed>"#;

fn item(title: &str, date: &str, category: &str) -> NewsItem {
    NewsItem {
        title: title.to_string(),
        link: String::new(),
        description: String::new(),
        pub_date: date.to_string(),
        source: "S".to_string(),
        category: category.to_string(),
    }
}

#[test]
fn detect_feed_format_markers() {
    assert_eq!(detect_feed_format("<rss version=\"2.0\">"), FeedFormat::Rss);
    assert_eq!(detect_feed_format("x <channel> y"), FeedFormat::Rss);
    assert_eq!(detect_feed_format("<feed xmlns=\"http://www.w3.org/2005/Atom\">"), FeedFormat::Atom);
    assert_eq!(detect_feed_format("<html></html>"), FeedFormat::Unknown);
}

#[test]
fn parse_rss_reads_items() {
    let items = parse_rss(&rss_doc(2), "NTV", "Haber").unwrap();
    assert_eq!(items.len(), 2);
    assert_eq!(items[0].title, "Title 0");
    assert_eq!(items[0].link, "http://x/0");
    assert_eq!(items[0].description, "Desc 0");
    assert_eq!(items[0].pub_date, "Mon, 01 Jan 2024 10:00:00 GMT");
    assert_eq!(items[0].source, "NTV");
    assert_eq!(items[0].category, "Haber");
    assert_eq!(items[1].title, "Title 1");
}

#[test]
fn parse_rss_keeps_first_twenty() {
    let items = parse_rss(&rss_doc(25), "S", "C").unwrap();
    assert_eq!(items.len(), 20);
    assert_eq!(items[19].title, "Title 19");
}

#[test]
fn parse_rss_missing_fields_are_empty() {
    let doc = "<rss version=\"2.0\"><channel><title>T</title><item><title>Only title</title></item></channel></rss>";
    let items = parse_rss(doc, "S", "C").unwrap();
    assert_eq!(items.len(), 1);
    assert_eq!(items[0].title, "Only title");
    assert_eq!(items[0].link, "");
    assert_eq!(items[0].description, "");
    assert_eq!(items[0].pub_date, "");
}

#[test]
fn parse_rss_rejects_other_documents() {
    assert_eq!(parse_rss("hello <channel> world", "S", "C").unwrap_err(), FeedError::InvalidRss);
}

#[test]
fn parse_atom_reads_entries() {
    let items = parse_atom(ATOM, "Wired", "Teknoloji").unwrap();
    assert_eq!(items.len(), 2);
    assert_eq!(items[0].title, "First");
    assert_eq!(items[0].link, "http://a/1");
    assert_eq!(items[0].description, "Sum one");
    assert_eq!(items[0].pub_date, "2024-01-01 09:00:00 +00:00");
    assert_eq!(items[1].link, "");
    assert_eq!(items[1].description, "");
    assert_eq!(items[1].pub_date, "2024-01-03 11:00:00 +00:00");
    assert_eq!(items[1].source, "Wired");
    assert_eq!(items[1].category, "Teknoloji");
}

#[test]
fn parse_atom_rejects_other_documents() {
    assert_eq!(parse_atom("<feed", "S", "C").unwrap_err(), FeedError::InvalidAtom);
}

#[test]
fn parse_feed_dispatches_by_format() {
    assert_eq!(parse_feed(&rss_doc(3), "S", "C").unwrap().len(), 3);
    assert_eq!(parse_feed(ATOM, "S", "C").unwrap().len(), 2);
    assert!(parse_feed("<html>nothing</html>", "S", "C").unwrap().is_empty());
    assert_eq!(parse_feed("<rss broken", "S", "C").unwrap_err(), FeedError::InvalidRss);
}

#[test]
fn feed_items_from_body_decodes_bytes() {
    let body = rss_doc(1).into_bytes();
    let items = feed_items_from_body(&body, "S", "C").unwrap();
    assert_eq!(items.len(), 1);
    let mut bad = b"<rss version=\"2.0\"><channel><item><title>A".to_vec();
    bad.push(0xff);
    bad.extend_from_slice(b"B</title></item></channel></rss>");
    let items = feed_items_from_body(&bad, "S", "C").unwrap();
    assert_eq!(items[0].title, "A\u{fffd}B");
}

#[test]
fn sort_newest_first_orders_by_date_string() {
    let v = vec![
        item("a", "2024-01-01", "C"),
        item("b", "2024-01-03", "C"),
        item("c", "2024-01-02", "C"),
    ];
    let s = sort_newest_first(v);
    let titles: Vec<&str> = s.iter().map(|n| n.title.as_str()).collect();
    assert_eq!(titles, vec!["b", "c", "a"]);
}

#[test]
fn sort_newest_first_is_stable() {
    let v = vec![
        item("x", "2024", "C"),
        item("y", "2025", "C"),
        item("z", "2024", "C"),
        item("w", "", "C"),
        item("u", "2025", "C"),
    ];
    let s = sort_newest_first(v);
    let titles: Vec<&str> = s.iter().map(|n| n.title.as_str()).collect();
    assert_eq!(titles, vec!["y", "u", "x", "z", "w"]);
}

#[test]
fn collect_news_skips_failed_feeds_and_sorts() {
    let results = vec![
        Ok(vec![item("a", "1", "C"), item("b", "3", "C")]),
        Err(FeedError::InvalidRss),
        Ok(vec![item("c", "2", "C")]),
    ];
    let all = collect_news(results);
    let titles: Vec<&str> = all.iter().map(|n| n.title.as_str()).collect();
    assert_eq!(titles, vec!["b", "c", "a"]);
}

#[test]
fn sort_newest_first_of_sorted_news_changes_nothing() {
    let v = vec![item("a", "3", "C"), item("b", "2", "C"), item("c", "2", "C"), item("d", "1", "C")];
    let once = sort_newest_first(v);
    let titles: Vec<String> = once.iter().map(|n| n.title.clone()).collect();
    let twice = sort_newest_first(once);
    let titles2: Vec<String> = twice.iter().map(|n| n.title.clone()).collect();
    assert_eq!(titles, titles2);
    assert_eq!(titles, vec!["a", "b", "c", "d"]);
}
