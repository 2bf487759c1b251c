use karga::config::{Config, RssFeed, Theme, CATEGORIES, DEFAULT_FEEDS};
use karga::notify::NotificationManager;

#[test]
fn categories_in_tab_order() {
    assert_eq!(CATEGORIES.len(), 10);
    assert_eq!(CATEGORIES[0], "Haber");
    assert_eq!(CATEGORIES[1], "Dünya");
    assert_eq!(CATEGORIES[9], "Güvenlik");
}

#[test]
fn theme_default_colors() {
    let t = Theme::default();
    assert_eq!(t.bg_dark_blue, "#0a1628");
    assert_eq!(t.bg_dark_gray, "#1c2128");
    assert_eq!(t.black, "#000000");
    assert_eq!(t.accent, "#4a90d9");
}

#[test]
fn config_default_values() {
    let c = Config::default();
    assert!(c.keywords.is_empty());
    assert_eq!(c.scan_interval_secs, 300);
    assert_eq!(c.rss_feeds.len(), 12);
    assert_eq!(c.rss_feeds[0].name, "NTV");
    assert_eq!(c.rss_feeds[0].url, "https://www.ntv.com.tr/gundem.rss");
    assert_eq!(c.rss_feeds[0].region, "tr");
    assert_eq!(c.rss_feeds[0].category, "Haber");
    assert_eq!(c.rss_feeds[11].name, "CNBC Economy");
    assert_eq!(c.rss_feeds[11].category, "Ekonomi");
    assert_eq!(c.theme.accent, "#4a90d9");
    for (i, f) in c.rss_feeds.iter().enumerate() {
        assert_eq!(f.url, DEFAULT_FEEDS[i].1);
    }
}

fn feed(name: &str, url: &str) -> RssFeed {
    RssFeed { name: name.to_string(), url: url.to_string(), region: "tr".to_string(), category: "Spor".to_string() }
}

#[test]
fn add_missing_default_feeds_appends_what_is_missing() {
    let mut c = Config::default();
    c.rss_feeds = vec![feed("Mine", "https://example.com/rss"), feed("BBC renamed", "https://feeds.bbci.co.uk/news/world/rss.xml")];
    c.keywords = vec!["war".to_string()];
    c.scan_interval_secs = 60;
    c.add_missing_default_feeds();
    assert_eq!(c.rss_feeds.len(), 2 + 11);
    assert_eq!(c.rss_feeds[0].name, "Mine");
    assert_eq!(c.rss_feeds[1].name, "BBC renamed");
    assert_eq!(c.rss_feeds[2].name, "NTV");
    assert!(c.rss_feeds.iter().all(|f| f.name != "BBC"));
    assert_eq!(c.keywords, vec!["war".to_string()]);
    assert_eq!(c.scan_interval_secs, 60);
    for (_, url, _, _) in DEFAULT_FEEDS.iter() {
        assert!(c.rss_feeds.iter().any(|f| f.url == *url));
    }
}

#[test]
fn add_missing_default_feeds_is_idempotent() {
    let mut c = Config::default();
    c.rss_feeds = vec![feed("Mine", "https://example.com/rss")];
    c.add_missing_default_feeds();
    let n = c.rss_feeds.len();
    let names: Vec<String> = c.rss_feeds.iter().map(|f| f.name.clone()).collect();
    c.add_missing_default_feeds();
    assert_eq!(c.rss_feeds.len(), n);
    let names2: Vec<String> = c.rss_feeds.iter().map(|f| f.name.clone()).collect();
    assert_eq!(names, names2);
}

#[test]
fn add_missing_default_feeds_on_defaults_adds_nothing() {
    let mut c = Config::default();
    c.add_missing_default_feeds();
    assert_eq!(c.rss_feeds.len(), 12);
}

#[test]
fn notification_for_new_news() {
    let m = NotificationManager::new();
    let n = m.send_new_news("BBC", 5).unwrap();
    assert_eq!(n.summary, "Karga News");
    assert_eq!(n.body, "5 new articles from BBC");
    let n = m.send_new_news("NTV", 120).unwrap();
    assert_eq!(n.body, "120 new articles from NTV");
}

#[test]
fn notification_send_passes_texts() {
    let m = NotificationManager::new();
    let n = m.send("Title", "Body").unwrap();
    assert_eq!(n.summary, "Title");
    assert_eq!(n.body, "Body");
}
