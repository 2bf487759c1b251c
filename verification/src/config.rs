//! The reader's settings: news categories, feeds, keywords, refresh interval and
//! theme, with the built-in defaults and how a saved configuration takes in
//! default feeds it lacks.
use vstd::prelude::*;

verus! {

broadcast use vstd::string::group_string_axioms;

/// The news categories, in the order of the tabs.
pub const CATEGORIES: [&'static str; 10] = [
    "Haber",
    "Dünya",
    "Spor",
    "Politika",
    "Ekonomi",
    "Teknoloji",
    "Kültür",
    "Sağlık",
    "Bilim",
    "Güvenlik",
];

/// One feed the reader follows.
#[derive(Clone, Debug)]
pub struct RssFeed {
    pub name: String,
    pub url: String,
    pub region: String,
    pub category: String,
}

/// The colours of the interface, each written `#rrggbb`.
#[derive(Clone, Debug)]
pub struct Theme {
    pub bg_dark_blue: String,
    pub bg_dark_gray: String,
    pub black: String,
    pub accent: String,
}

/// The settings of the reader.
#[derive(Clone, Debug)]
pub struct Config {
    pub keywords: Vec<String>,
    pub rss_feeds: Vec<RssFeed>,
    pub scan_interval_secs: u64,
    pub theme: Theme,
}

impl Default for Theme {
    fn default() -> (t: Self)
        ensures
            t.bg_dark_blue@ == "#0a1628"@,
            t.bg_dark_gray@ == "#1c2128"@,
            t.black@ == "#000000"@,
            t.accent@ == "#4a90d9"@,
    {
        Theme {
            bg_dark_blue: "#0a1628".to_string(),
            bg_dark_gray: "#1c2128".to_string(),
            black: "#000000".to_string(),
            accent: "#4a90d9".to_string(),
        }
    }
}

/// The built-in feeds: name, address, region and category.
pub const DEFAULT_FEEDS: [(&'static str, &'static str, &'static str, &'static str); 12] = [
    ("NTV", "https://www.ntv.com.tr/gundem.rss", "tr", "Haber"),
    ("Hürriyet", "http://www.hurriyet.com.tr/rss/gundem", "tr", "Haber"),
    ("Milliyet", "http://www.milliyet.com.tr/rss/rssNew/gundemRss.xml", "tr", "Haber"),
    ("Sabah", "https://www.sabah.com.tr/rss/gundem.xml", "tr", "Haber"),
    ("Habertürk", "http://www.haberturk.com/rss", "tr", "Haber"),
    ("BBC Türkçe", "http://feeds.bbci.co.uk/turkce/rss.xml", "tr", "Dünya"),
    ("Sputnik", "https://tr.sputniknews.com/export/rss2/archive/index.xml", "tr", "Politika"),
    ("BBC", "https://feeds.bbci.co.uk/news/world/rss.xml", "global", "Dünya"),
    ("Al Jazeera", "https://www.aljazeera.com/xml/rss/all.xml", "global", "Dünya"),
    ("CNN", "http://rss.cnn.com/rss/edition.rss", "global", "Dünya"),
    ("Wired", "https://www.wired.com/feed/rss", "global", "Teknoloji"),
    ("CNBC Economy", "https://www.cnbc.com/id/20910258/device/rss/rss.html", "global", "Ekonomi"),
];

/// A feed as plain values: name, address, region, category.
pub open spec fn feed_view(f: RssFeed) -> (Seq<char>, Seq<char>, Seq<char>, Seq<char>) {
    (f.name@, f.url@, f.region@, f.category@)
}

/// The plain values of a list of feeds.
pub open spec fn feed_views(v: Seq<RssFeed>) -> Seq<(Seq<char>, Seq<char>, Seq<char>, Seq<char>)> {
    v.map_values(|f: RssFeed| feed_view(f))
}

/// The built-in feeds as plain values.
pub open spec fn default_feeds() -> Seq<(Seq<char>, Seq<char>, Seq<char>, Seq<char>)> {
    DEFAULT_FEEDS@.map_values(
        |t: (&'static str, &'static str, &'static str, &'static str)| (t.0@, t.1@, t.2@, t.3@),
    )
}

/// How often the feeds are read again by default, in seconds.
pub const DEFAULT_SCAN_INTERVAL_SECS: u64 = 300;

/// The built-in feeds as owned values, as `default_feeds` lists them.
pub fn default_rss_feeds() -> (v: Vec<RssFeed>)
    ensures
        feed_views(v@) == default_feeds(),
{
    let mut v: Vec<RssFeed> = Vec::new();
    for i in 0..12
        invariant
            feed_views(v@) == default_feeds().take(i as int),
    {
        let (name, url, region, category) = DEFAULT_FEEDS[i];
        let f = RssFeed {
            name: name.to_string(),
            url: url.to_string(),
            region: region.to_string(),
            category: category.to_string(),
        };
        let ghost before = feed_views(v@);
        v.push(f);
        assert(feed_views(v@) =~= before.push(feed_view(f)));
        assert(default_feeds().take(i + 1) =~= default_feeds().take(i as int).push(feed_view(f)));
    }
    assert(default_feeds().take(12) == default_feeds());
    v
}

impl Default for Config {
    fn default() -> (c: Self)
        ensures
            c.keywords@.len() == 0,
            feed_views(c.rss_feeds@) == default_feeds(),
            c.scan_interval_secs == DEFAULT_SCAN_INTERVAL_SECS,
            c.theme.bg_dark_blue@ == "#0a1628"@,
            c.theme.bg_dark_gray@ == "#1c2128"@,
            c.theme.black@ == "#000000"@,
            c.theme.accent@ == "#4a90d9"@,
    {
        Config {
            keywords: Vec::new(),
            rss_feeds: default_rss_feeds(),
            scan_interval_secs: DEFAULT_SCAN_INTERVAL_SECS,
            theme: Theme::default(),
        }
    }
}

/// The addresses of a list of feeds.
pub open spec fn feed_urls(v: Seq<RssFeed>) -> Seq<Seq<char>> {
    v.map_values(|f: RssFeed| f.url@)
}

/// Whether a feed's address is not among `urls`.
pub open spec fn url_absent(urls: Seq<Seq<char>>) -> spec_fn((Seq<char>, Seq<char>, Seq<char>, Seq<char>)) -> bool {
    |d: (Seq<char>, Seq<char>, Seq<char>, Seq<char>)| !urls.contains(d.1)
}

/// The built-in feeds whose address none of `feeds` has, in their built-in order.
pub open spec fn missing_defaults(feeds: Seq<RssFeed>) -> Seq<(Seq<char>, Seq<char>, Seq<char>, Seq<char>)> {
    default_feeds().filter(url_absent(feed_urls(feeds)))
}

/// Whether one of the first `upto` feeds has the address `url`.
fn url_listed(feeds: &Vec<RssFeed>, upto: usize, url: &String) -> (b: bool)
    requires
        upto <= feeds@.len(),
    ensures
        b == feed_urls(feeds@.take(upto as int)).contains(url@),
{
    let mut i: usize = 0;
    while i < upto
        invariant
            upto <= feeds@.len(),
            i <= upto,
            forall|k: int| 0 <= k < i ==> feeds@[k].url@ != url@,
        decreases upto - i,
    {
        if feeds[i].url == *url {
            assert(feed_urls(feeds@.take(upto as int))[i as int] == url@);
            return true;
        }
        i = i + 1;
    }
    assert forall|k: int| 0 <= k < upto implies #[trigger] feed_urls(feeds@.take(upto as int))[k] != url@ by {
        assert(feed_urls(feeds@.take(upto as int))[k] == feeds@[k].url@);
    }
    false
}

impl Config {
    /// Appends, in their built-in order, the built-in feeds whose address none of
    /// the configured feeds has, so that a saved configuration picks up feeds
    /// added to the defaults. Nothing else changes.
    pub fn add_missing_default_feeds(&mut self)
        ensures
            feed_views(final(self).rss_feeds@) == feed_views(old(self).rss_feeds@) + missing_defaults(
                old(self).rss_feeds@,
            ),
            final(self).keywords == old(self).keywords,
            final(self).scan_interval_secs == old(self).scan_interval_secs,
            final(self).theme == old(self).theme,
    {
        let defaults = default_rss_feeds();
        let ghost old_feeds = self.rss_feeds@;
        let ghost pred = url_absent(feed_urls(old_feeds));
        let n0 = self.rss_feeds.len();
        assert(defaults@.len() == 12) by {
            assert(feed_views(defaults@).len() == defaults@.len());
        }
        for i in 0..12
            invariant
                defaults@.len() == 12,
                n0 == old_feeds.len(),
                feed_views(defaults@) == default_feeds(),
                self.rss_feeds@.take(n0 as int) == old_feeds,
                self.keywords == old(self).keywords,
                self.scan_interval_secs == old(self).scan_interval_secs,
                self.theme == old(self).theme,
                old_feeds == old(self).rss_feeds@,
                pred == url_absent(feed_urls(old_feeds)),
                feed_views(self.rss_feeds@) == feed_views(old_feeds) + default_feeds().take(i as int).filter(pred),
        {
            let d = &defaults[i];
            assert(default_feeds()[i as int] == feed_view(*d));
            assert(self.rss_feeds@.len() >= n0) by {
                assert(feed_views(self.rss_feeds@).len() == self.rss_feeds@.len());
            }
            let listed = url_listed(&self.rss_feeds, n0, &d.url);
            proof {
                reveal_with_fuel(Seq::filter, 1);
                assert(default_feeds().take(i + 1).drop_last() == default_feeds().take(i as int));
            }
            if !listed {
                let f = RssFeed {
                    name: d.name.clone(),
                    url: d.url.clone(),
                    region: d.region.clone(),
                    category: d.category.clone(),
                };
                let ghost before = self.rss_feeds@;
                self.rss_feeds.push(f);
                assert(feed_views(self.rss_feeds@) =~= feed_views(before).push(feed_view(f)));
                assert(self.rss_feeds@.take(n0 as int) =~= before.take(n0 as int));
            }
        }
        assert(default_feeds().take(12) == default_feeds());
    }
}

/// After the missing built-in feeds are taken in, the address of every built-in
/// feed is configured.
pub proof fn lemma_defaults_all_present(feeds: Seq<RssFeed>, merged: Seq<RssFeed>)
    requires
        feed_views(merged) == feed_views(feeds) + missing_defaults(feeds),
    ensures
        forall|i: int| 0 <= i < default_feeds().len() ==> feed_urls(merged).contains(#[trigger] default_feeds()[i].1),
{
    broadcast use vstd::seq_lib::group_filter_ensures;
    let pred = url_absent(feed_urls(feeds));
    let miss = missing_defaults(feeds);
    assert forall|i: int| 0 <= i < default_feeds().len() implies feed_urls(merged).contains(#[trigger] default_feeds()[i].1) by {
        let d = default_feeds()[i];
        assert(feed_views(merged).len() == merged.len());
        if feed_urls(feeds).contains(d.1) {
            let k = choose|k: int| 0 <= k < feed_urls(feeds).len() && feed_urls(feeds)[k] == d.1;
            assert(feed_views(merged)[k] == feed_views(feeds)[k]);
            assert(feed_urls(merged)[k] == feed_views(merged)[k].1);
        } else {
            assert(pred(d));
            assert(miss.contains(d));
            let k = choose|k: int| 0 <= k < miss.len() && miss[k] == d;
            let j = feeds.len() + k;
            assert(feed_views(merged)[j] == miss[k]);
            assert(feed_urls(merged)[j] == feed_views(merged)[j].1);
        }
    }
}

/// Only built-in feeds whose address is not configured yet are taken in, and all
/// of those are.
pub proof fn lemma_missing_defaults_are_new(feeds: Seq<RssFeed>)
    ensures
        forall|x: (Seq<char>, Seq<char>, Seq<char>, Seq<char>)|
            #[trigger] missing_defaults(feeds).contains(x) ==> default_feeds().contains(x) && !feed_urls(feeds).contains(x.1),
        forall|i: int|
            0 <= i < default_feeds().len() && !feed_urls(feeds).contains(#[trigger] default_feeds()[i].1)
                ==> missing_defaults(feeds).contains(default_feeds()[i]),
{
    broadcast use vstd::seq_lib::group_filter_ensures;
    let pred = url_absent(feed_urls(feeds));
    assert forall|x: (Seq<char>, Seq<char>, Seq<char>, Seq<char>)|
        #[trigger] missing_defaults(feeds).contains(x) implies default_feeds().contains(x) && !feed_urls(feeds).contains(x.1) by {
        default_feeds().lemma_filter_contains_rev(pred, x);
        let k = choose|k: int| 0 <= k < missing_defaults(feeds).len() && missing_defaults(feeds)[k] == x;
        assert(pred(missing_defaults(feeds)[k]));
    }
    assert forall|i: int|
        0 <= i < default_feeds().len() && !feed_urls(feeds).contains(#[trigger] default_feeds()[i].1)
        implies missing_defaults(feeds).contains(default_feeds()[i]) by {
        assert(pred(default_feeds()[i]));
    }
}

/// Taking in the missing built-in feeds a second time adds nothing: the step is
/// idempotent.
pub proof fn lemma_add_missing_defaults_idempotent(feeds: Seq<RssFeed>, merged: Seq<RssFeed>)
    requires
        feed_views(merged) == feed_views(feeds) + missing_defaults(feeds),
    ensures
        missing_defaults(merged) == Seq::<(Seq<char>, Seq<char>, Seq<char>, Seq<char>)>::empty(),
{
    lemma_defaults_all_present(feeds, merged);
    let pred = url_absent(feed_urls(merged));
    assert(default_feeds().all(|d: (Seq<char>, Seq<char>, Seq<char>, Seq<char>)| !pred(d))) by {
        assert forall|i: int| 0 <= i < default_feeds().len() implies !pred(#[trigger] default_feeds()[i]) by {
            assert(feed_urls(merged).contains(default_feeds()[i].1));
        }
    }
    default_feeds().lemma_all_neg_filter_empty(pred);
    assert(missing_defaults(merged) =~= Seq::<(Seq<char>, Seq<char>, Seq<char>, Seq<char>)>::empty());
}

} // verus!
