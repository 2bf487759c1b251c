//! News items read from RSS and Atom feeds, and their order by date.
use vstd::prelude::*;
use crate::text::{chars_lt, chars_of, contains_chars, has_substring, lex_lt, lemma_lex_irreflexive, lemma_lex_total, lemma_lex_transitive};

verus! {

broadcast use vstd::string::group_string_axioms;

/// A news article as the reader shows it.
#[derive(Clone, Debug)]
pub struct NewsItem {
    pub title: String,
    pub link: String,
    pub description: String,
    pub pub_date: String,
    pub source: String,
    pub category: String,
}

/// The fields of an RSS `<item>` that the reader uses, each as the feed gives it.
#[derive(Clone, Debug)]
pub struct RssEntry {
    pub title: Option<String>,
    pub link: Option<String>,
    pub description: Option<String>,
    pub pub_date: Option<String>,
}

/// The fields of an Atom `<entry>` that the reader uses: its title, the `href` of
/// each of its links, its `published` and `updated` dates as `chrono` displays
/// them, and its summary.
#[derive(Clone, Debug)]
pub struct AtomEntry {
    pub title: String,
    pub links: Vec<String>,
    pub published: Option<String>,
    pub updated: String,
    pub summary: Option<String>,
}

/// The characters of an optional string.
pub open spec fn opt_view(o: Option<String>) -> Option<Seq<char>> {
    match o {
        Some(s) => Some(s@),
        None => None,
    }
}

/// An RSS item as plain values: title, link, description and publication date.
pub open spec fn rss_entry_view(e: RssEntry) -> (
    Option<Seq<char>>,
    Option<Seq<char>>,
    Option<Seq<char>>,
    Option<Seq<char>>,
) {
    (opt_view(e.title), opt_view(e.link), opt_view(e.description), opt_view(e.pub_date))
}

/// An Atom entry as plain values: title, link targets, published, updated, summary.
pub open spec fn atom_entry_view(e: AtomEntry) -> (
    Seq<char>,
    Seq<Seq<char>>,
    Option<Seq<char>>,
    Seq<char>,
    Option<Seq<char>>,
) {
    (
        e.title@,
        e.links@.map_values(|l: String| l@),
        opt_view(e.published),
        e.updated@,
        opt_view(e.summary),
    )
}

#[verifier::external_type_specification]
#[verifier::external_body]
pub struct ExRssError(rss::Error);

#[verifier::external_type_specification]
#[verifier::external_body]
pub struct ExAtomError(atom_syndication::Error);

/// What `rss::Channel::read_from` makes of a document: the items of its channel,
/// or nothing when the document is not RSS it can read.
pub uninterp spec fn rss_channel_items(content: Seq<char>) -> Option<
    Seq<(Option<Seq<char>>, Option<Seq<char>>, Option<Seq<char>>, Option<Seq<char>>)>,
>;

/// Reads an RSS document with `rss::Channel::read_from` and hands out the title,
/// link, description and publication date of each item. It succeeds exactly when
/// the crate reads the document; what it reads is what `rss_channel_items` names.
#[verifier::external_body]
fn read_rss_entries(content: &str) -> (res: Result<Vec<RssEntry>, rss::Error>)
    ensures
        res is Ok <==> rss_channel_items(content@) is Some,
        res matches Ok(v) ==> v@.map_values(|e: RssEntry| rss_entry_view(e))
            == rss_channel_items(content@).unwrap(),
{
    let channel = rss::Channel::read_from(content.as_bytes())?;
    Ok(channel.items().iter().map(|item| RssEntry {
        title: item.title().map(|s| s.to_string()),
        link: item.link().map(|s| s.to_string()),
        description: item.description().map(|s| s.to_string()),
        pub_date: item.pub_date().map(|s| s.to_string()),
    }).collect())
}

/// What `atom_syndication::Feed::read_from` makes of a document: its entries, or
/// nothing when the document is not Atom it can read.
pub uninterp spec fn atom_feed_entries(content: Seq<char>) -> Option<
    Seq<(Seq<char>, Seq<Seq<char>>, Option<Seq<char>>, Seq<char>, Option<Seq<char>>)>,
>;

/// Reads an Atom document with `atom_syndication::Feed::read_from` and hands out
/// the title, link targets, dates (displayed by `chrono`) and summary of each
/// entry. It succeeds exactly when the crate reads the document; what it reads is
/// what `atom_feed_entries` names.
#[verifier::external_body]
fn read_atom_entries(content: &str) -> (res: Result<Vec<AtomEntry>, atom_syndication::Error>)
    ensures
        res is Ok <==> atom_feed_entries(content@) is Some,
        res matches Ok(v) ==> v@.map_values(|e: AtomEntry| atom_entry_view(e))
            == atom_feed_entries(content@).unwrap(),
{
    let feed = atom_syndication::Feed::read_from(content.as_bytes())?;
    Ok(feed.entries().iter().map(|e| AtomEntry {
        title: e.title().as_str().to_string(),
        links: e.links().iter().map(|l| l.href().to_string()).collect(),
        published: e.published().map(|d| d.to_string()),
        updated: e.updated().to_string(),
        summary: e.summary().map(|s| s.as_str().to_string()),
    }).collect())
}

/// Why a feed could not be read.
#[derive(Clone, Copy, Debug, PartialEq, Eq)]
pub enum FeedError {
    /// The document looks like RSS but the `rss` crate cannot read it.
    InvalidRss,
    /// The document looks like Atom but the `atom_syndication` crate cannot read it.
    InvalidAtom,
}

/// How many items of one feed the reader keeps, from the top.
pub const MAX_FEED_ITEMS: usize = 20;

/// A news item as plain values: title, link, description, date, source, category.
pub open spec fn news_view(n: NewsItem) -> (Seq<char>, Seq<char>, Seq<char>, Seq<char>, Seq<char>, Seq<char>) {
    (n.title@, n.link@, n.description@, n.pub_date@, n.source@, n.category@)
}

/// The plain values of a list of news items.
pub open spec fn news_views(v: Seq<NewsItem>) -> Seq<(Seq<char>, Seq<char>, Seq<char>, Seq<char>, Seq<char>, Seq<char>)> {
    v.map_values(|n: NewsItem| news_view(n))
}

/// A missing text counts as empty.
pub open spec fn or_empty(o: Option<Seq<char>>) -> Seq<char> {
    match o {
        Some(s) => s,
        None => seq![],
    }
}

/// The first `MAX_FEED_ITEMS` elements of `s`, or all of them when there are fewer.
pub open spec fn first_items<A>(s: Seq<A>) -> Seq<A> {
    if s.len() <= MAX_FEED_ITEMS { s } else { s.take(MAX_FEED_ITEMS as int) }
}

/// The news items of RSS items: missing fields empty, tagged with the source and
/// category of the feed, the first `MAX_FEED_ITEMS` only.
pub open spec fn rss_news(
    entries: Seq<(Option<Seq<char>>, Option<Seq<char>>, Option<Seq<char>>, Option<Seq<char>>)>,
    source: Seq<char>,
    category: Seq<char>,
) -> Seq<(Seq<char>, Seq<char>, Seq<char>, Seq<char>, Seq<char>, Seq<char>)> {
    first_items(entries).map_values(
        |e: (Option<Seq<char>>, Option<Seq<char>>, Option<Seq<char>>, Option<Seq<char>>)|
            (or_empty(e.0), or_empty(e.1), or_empty(e.2), or_empty(e.3), source, category),
    )
}

/// The news items of Atom entries: the first link, the summary as description,
/// the publication date or else the update date, tagged with the source and
/// category of the feed, the first `MAX_FEED_ITEMS` only.
pub open spec fn atom_news(
    entries: Seq<(Seq<char>, Seq<Seq<char>>, Option<Seq<char>>, Seq<char>, Option<Seq<char>>)>,
    source: Seq<char>,
    category: Seq<char>,
) -> Seq<(Seq<char>, Seq<char>, Seq<char>, Seq<char>, Seq<char>, Seq<char>)> {
    first_items(entries).map_values(
        |e: (Seq<char>, Seq<Seq<char>>, Option<Seq<char>>, Seq<char>, Option<Seq<char>>)|
            (
                e.0,
                if e.1.len() > 0 { e.1[0] } else { seq![] },
                or_empty(e.4),
                match e.2 { Some(p) => p, None => e.3 },
                source,
                category,
            ),
    )
}

/// What a feed's news are made of: at most 20, the first entries in order, each
/// tagged with the feed's source and category. From RSS: title, link, description
/// and date of the item, empty when missing. From Atom: the title, the first link
/// (empty when none), the summary (empty when none) and the publication date, or
/// the update date when there is no publication date.
pub proof fn lemma_feed_news_fields(
    rss: Seq<(Option<Seq<char>>, Option<Seq<char>>, Option<Seq<char>>, Option<Seq<char>>)>,
    atom: Seq<(Seq<char>, Seq<Seq<char>>, Option<Seq<char>>, Seq<char>, Option<Seq<char>>)>,
    source: Seq<char>,
    category: Seq<char>,
)
    ensures
        rss_news(rss, source, category).len() == if rss.len() < 20 { rss.len() } else { 20 },
        forall|i: int| 0 <= i < rss_news(rss, source, category).len() ==> {
            let n = #[trigger] rss_news(rss, source, category)[i];
            let e = rss[i];
            &&& n.0 == (match e.0 { Some(t) => t, None => seq![] })
            &&& n.1 == (match e.1 { Some(t) => t, None => seq![] })
            &&& n.2 == (match e.2 { Some(t) => t, None => seq![] })
            &&& n.3 == (match e.3 { Some(t) => t, None => seq![] })
            &&& n.4 == source
            &&& n.5 == category
        },
        atom_news(atom, source, category).len() == if atom.len() < 20 { atom.len() } else { 20 },
        forall|i: int| 0 <= i < atom_news(atom, source, category).len() ==> {
            let n = #[trigger] atom_news(atom, source, category)[i];
            let e = atom[i];
            &&& n.0 == e.0
            &&& n.1 == (if e.1.len() == 0 { seq![] } else { e.1[0] })
            &&& n.2 == (match e.4 { Some(t) => t, None => seq![] })
            &&& n.3 == (match e.2 { Some(t) => t, None => e.3 })
            &&& n.4 == source
            &&& n.5 == category
        },
{
}

fn text_or_empty(o: &Option<String>) -> (s: String)
    ensures
        s@ == or_empty(opt_view(*o)),
{
    match o {
        Some(t) => t.clone(),
        None => String::new(),
    }
}

fn first_count(n: usize) -> (k: usize)
    ensures
        k == if n <= MAX_FEED_ITEMS { n } else { MAX_FEED_ITEMS },
{
    if n <= MAX_FEED_ITEMS { n } else { MAX_FEED_ITEMS }
}

/// The news items of an RSS document, as `rss_news` says; an error when the `rss`
/// crate cannot read it.
pub fn parse_rss(content: &str, source_name: &str, category: &str) -> (res: Result<Vec<NewsItem>, FeedError>)
    ensures
        match rss_channel_items(content@) {
            Some(entries) => res matches Ok(v) && news_views(v@) == rss_news(entries, source_name@, category@),
            None => res == Err::<Vec<NewsItem>, FeedError>(FeedError::InvalidRss),
        },
{
    let entries = match read_rss_entries(content) {
        Ok(v) => v,
        Err(_) => return Err(FeedError::InvalidRss),
    };
    let ghost ev = rss_channel_items(content@).unwrap();
    let k = first_count(entries.len());
    let mut items: Vec<NewsItem> = Vec::new();
    for i in 0..k
        invariant
            k <= entries@.len(),
            k == first_items(ev).len(),
            entries@.map_values(|e: RssEntry| rss_entry_view(e)) == ev,
            news_views(items@) == rss_news(ev, source_name@, category@).take(i as int),
    {
        let e = &entries[i];
        assert(ev[i as int] == rss_entry_view(*e));
        let item = NewsItem {
            title: text_or_empty(&e.title),
            link: text_or_empty(&e.link),
            description: text_or_empty(&e.description),
            pub_date: text_or_empty(&e.pub_date),
            source: source_name.to_string(),
            category: category.to_string(),
        };
        let ghost before = news_views(items@);
        items.push(item);
        assert(news_views(items@) =~= before.push(news_view(item)));
        assert(rss_news(ev, source_name@, category@).take(i + 1) =~= rss_news(ev, source_name@, category@).take(i as int).push(news_view(item)));
    }
    assert(rss_news(ev, source_name@, category@).take(k as int) =~= rss_news(ev, source_name@, category@));
    Ok(items)
}

/// The news items of an Atom document, as `atom_news` says; an error when the
/// `atom_syndication` crate cannot read it.
pub fn parse_atom(content: &str, source_name: &str, category: &str) -> (res: Result<Vec<NewsItem>, FeedError>)
    ensures
        match atom_feed_entries(content@) {
            Some(entries) => res matches Ok(v) && news_views(v@) == atom_news(entries, source_name@, category@),
            None => res == Err::<Vec<NewsItem>, FeedError>(FeedError::InvalidAtom),
        },
{
    let entries = match read_atom_entries(content) {
        Ok(v) => v,
        Err(_) => return Err(FeedError::InvalidAtom),
    };
    let ghost ev = atom_feed_entries(content@).unwrap();
    let k = first_count(entries.len());
    let mut items: Vec<NewsItem> = Vec::new();
    for i in 0..k
        invariant
            k <= entries@.len(),
            k == first_items(ev).len(),
            entries@.map_values(|e: AtomEntry| atom_entry_view(e)) == ev,
            news_views(items@) == atom_news(ev, source_name@, category@).take(i as int),
    {
        let e = &entries[i];
        assert(ev[i as int] == atom_entry_view(*e));
        let link = if e.links.len() > 0 { e.links[0].clone() } else { String::new() };
        let pub_date = match &e.published {
            Some(p) => p.clone(),
            None => e.updated.clone(),
        };
        let item = NewsItem {
            title: e.title.clone(),
            link,
            description: text_or_empty(&e.summary),
            pub_date,
            source: source_name.to_string(),
            category: category.to_string(),
        };
        let ghost before = news_views(items@);
        items.push(item);
        assert(news_views(items@) =~= before.push(news_view(item)));
        assert(atom_news(ev, source_name@, category@).take(i + 1) =~= atom_news(ev, source_name@, category@).take(i as int).push(news_view(item)));
    }
    assert(atom_news(ev, source_name@, category@).take(k as int) =~= atom_news(ev, source_name@, category@));
    Ok(items)
}

/// The kind of a feed document.
#[derive(Clone, Copy, Debug, PartialEq, Eq)]
pub enum FeedFormat {
    Rss,
    Atom,
    Unknown,
}

/// RSS when the document holds `<rss` or `<channel>`; else Atom when it holds
/// `<feed` or the Atom namespace declaration; else unknown.
pub open spec fn feed_format(content: Seq<char>) -> FeedFormat {
    if has_substring(content, "<rss"@) || has_substring(content, "<channel>"@) {
        FeedFormat::Rss
    } else if has_substring(content, "<feed"@) || has_substring(
        content,
        "xmlns=\"http://www.w3.org/2005/Atom\""@,
    ) {
        FeedFormat::Atom
    } else {
        FeedFormat::Unknown
    }
}

/// Tells an RSS document from an Atom one by the markers `feed_format` looks for.
pub fn detect_feed_format(content: &str) -> (f: FeedFormat)
    ensures
        f == feed_format(content@),
{
    let cs = chars_of(content);
    if contains_chars(cs.as_slice(), chars_of("<rss").as_slice())
        || contains_chars(cs.as_slice(), chars_of("<channel>").as_slice()) {
        FeedFormat::Rss
    } else if contains_chars(cs.as_slice(), chars_of("<feed").as_slice())
        || contains_chars(
        cs.as_slice(),
        chars_of("xmlns=\"http://www.w3.org/2005/Atom\"").as_slice(),
    ) {
        FeedFormat::Atom
    } else {
        FeedFormat::Unknown
    }
}

/// What reading a feed document gives: its items by its format, nothing for an
/// unknown format, an error when the format's crate cannot read it.
pub open spec fn feed_news_ok(
    content: Seq<char>,
    source: Seq<char>,
    category: Seq<char>,
    res: Result<Vec<NewsItem>, FeedError>,
) -> bool {
    match feed_format(content) {
        FeedFormat::Rss => match rss_channel_items(content) {
            Some(entries) => res matches Ok(v) && news_views(v@) == rss_news(entries, source, category),
            None => res == Err::<Vec<NewsItem>, FeedError>(FeedError::InvalidRss),
        },
        FeedFormat::Atom => match atom_feed_entries(content) {
            Some(entries) => res matches Ok(v) && news_views(v@) == atom_news(entries, source, category),
            None => res == Err::<Vec<NewsItem>, FeedError>(FeedError::InvalidAtom),
        },
        FeedFormat::Unknown => res matches Ok(v) && v@.len() == 0,
    }
}

/// The news items of a feed document of either format, as `feed_news_ok` says.
pub fn parse_feed(content: &str, source_name: &str, category: &str) -> (res: Result<Vec<NewsItem>, FeedError>)
    ensures
        feed_news_ok(content@, source_name@, category@, res),
{
    match detect_feed_format(content) {
        FeedFormat::Rss => parse_rss(content, source_name, category),
        FeedFormat::Atom => parse_atom(content, source_name, category),
        FeedFormat::Unknown => Ok(Vec::new()),
    }
}

/// What `String::from_utf8_lossy` makes of bytes: their characters, with the
/// replacement character in place of each invalid sequence.
pub uninterp spec fn utf8_lossy(bytes: Seq<u8>) -> Seq<char>;

/// `String::from_utf8_lossy`: valid UTF-8 decodes to its characters; how invalid
/// sequences are replaced is what `utf8_lossy` names and is not spelled out.
#[verifier::external_body]
fn decode_lossy(bytes: &[u8]) -> (res: String)
    ensures
        res@ == utf8_lossy(bytes@),
        vstd::utf8::valid_utf8(bytes@) ==> res@ == vstd::utf8::decode_utf8(bytes@),
{
    String::from_utf8_lossy(bytes).into_owned()
}

/// The news items of a feed as the server sent it: the body decoded as UTF-8
/// (invalid sequences replaced), then read as `parse_feed` says.
pub fn feed_items_from_body(body: &[u8], source_name: &str, category: &str) -> (res: Result<Vec<NewsItem>, FeedError>)
    ensures
        feed_news_ok(utf8_lossy(body@), source_name@, category@, res),
{
    let content = decode_lossy(body);
    parse_feed(content.as_str(), source_name, category)
}

/// Newest first: no item's date string comes before that of an item after it.
pub open spec fn newest_first(v: Seq<NewsItem>) -> bool {
    forall|i: int, j: int| 0 <= i < j < v.len() ==> !lex_lt(#[trigger] v[i].pub_date@, #[trigger] v[j].pub_date@)
}

/// Whether an item is dated `d`.
pub open spec fn date_is(d: Seq<char>) -> spec_fn(NewsItem) -> bool {
    |n: NewsItem| n.pub_date@ == d
}

/// The items of `v` dated `d`, in their order in `v`.
pub open spec fn dated(v: Seq<NewsItem>, d: Seq<char>) -> Seq<NewsItem> {
    v.filter(date_is(d))
}

proof fn lemma_dated_insert(v: Seq<NewsItem>, p: int, x: NewsItem, d: Seq<char>)
    requires
        0 <= p <= v.len(),
        forall|k: int| p <= k < v.len() ==> lex_lt(#[trigger] v[k].pub_date@, x.pub_date@),
    ensures
        dated(v.insert(p, x), d) == if x.pub_date@ == d { dated(v, d).push(x) } else { dated(v, d) },
{
    let pred = date_is(d);
    let a = v.take(p);
    let b = v.skip(p);
    assert(v == a + b);
    assert(v.insert(p, x) == a + (seq![x] + b));
    Seq::filter_distributes_over_add(a, b, pred);
    Seq::filter_distributes_over_add(a, seq![x] + b, pred);
    b.lemma_filter_prepend(x, pred);
    if x.pub_date@ == d {
        assert(b.all(|n: NewsItem| !pred(n))) by {
            assert forall|k: int| 0 <= k < b.len() implies !pred(#[trigger] b[k]) by {
                assert(b[k] == v[p + k]);
                lemma_lex_irreflexive(d);
            }
        }
        b.lemma_all_neg_filter_empty(pred);
        assert(b.filter(pred) =~= Seq::<NewsItem>::empty());
        assert(dated(v.insert(p, x), d) =~= dated(v, d).push(x));
    } else {
        assert(dated(v.insert(p, x), d) =~= dated(v, d));
    }
}

proof fn lemma_dated_push(v: Seq<NewsItem>, x: NewsItem, d: Seq<char>)
    ensures
        dated(v.push(x), d) == if x.pub_date@ == d { dated(v, d).push(x) } else { dated(v, d) },
{
    reveal_with_fuel(Seq::filter, 1);
    assert(v.push(x).drop_last() == v);
}

proof fn lemma_dated_nonempty(v: Seq<NewsItem>, i: int)
    requires
        0 <= i < v.len(),
    ensures
        dated(v, v[i].pub_date@).contains(v[i]),
{
    broadcast use vstd::seq_lib::group_filter_ensures;
    assert(date_is(v[i].pub_date@)(v[i]));
}

proof fn lemma_dated_member(v: Seq<NewsItem>, d: Seq<char>, y: NewsItem)
    requires
        dated(v, d).contains(y),
    ensures
        v.contains(y),
        y.pub_date@ == d,
{
    broadcast use vstd::seq_lib::group_filter_ensures;
    v.lemma_filter_contains_rev(date_is(d), y);
    let k = choose|k: int| 0 <= k < dated(v, d).len() && dated(v, d)[k] == y;
    assert(date_is(d)(dated(v, d)[k]));
}

proof fn lemma_dated_cons(v: Seq<NewsItem>, d: Seq<char>)
    requires
        v.len() > 0,
    ensures
        dated(v, d) == if v[0].pub_date@ == d { seq![v[0]] + dated(v.drop_first(), d) } else { dated(v.drop_first(), d) },
{
    assert(v == seq![v[0]] + v.drop_first());
    v.drop_first().lemma_filter_prepend(v[0], date_is(d));
    if v[0].pub_date@ != d {
        assert(Seq::<NewsItem>::empty() + dated(v.drop_first(), d) =~= dated(v.drop_first(), d));
    }
}

/// Sorting newest first is fully determined: two newest-first lists with the same
/// items of each date, in the same order, are the same list. So sorting news that
/// are already sorted changes nothing, and the order of the screen does not depend
/// on how the sort went about it.
pub proof fn lemma_newest_first_unique(a: Seq<NewsItem>, b: Seq<NewsItem>)
    requires
        newest_first(a),
        newest_first(b),
        forall|d: Seq<char>| #[trigger] dated(a, d) == dated(b, d),
    ensures
        a == b,
    decreases a.len(),
{
    if a.len() == 0 || b.len() == 0 {
        if b.len() > 0 {
            lemma_dated_nonempty(b, 0);
            assert(dated(a, b[0].pub_date@) == dated(b, b[0].pub_date@));
            lemma_dated_member(a, b[0].pub_date@, b[0]);
        }
        if a.len() > 0 {
            lemma_dated_nonempty(a, 0);
            assert(dated(a, a[0].pub_date@) == dated(b, a[0].pub_date@));
            lemma_dated_member(b, a[0].pub_date@, a[0]);
        }
        assert(a =~= b);
    } else {
        let da = a[0].pub_date@;
        let db = b[0].pub_date@;
        lemma_dated_nonempty(a, 0);
        assert(dated(a, da) == dated(b, da));
        lemma_dated_member(b, da, a[0]);
        let j = choose|j: int| 0 <= j < b.len() && b[j] == a[0];
        if j > 0 {
            assert(!lex_lt(b[0].pub_date@, b[j].pub_date@));
        }
        lemma_dated_nonempty(b, 0);
        assert(dated(a, db) == dated(b, db));
        lemma_dated_member(a, db, b[0]);
        let k = choose|k: int| 0 <= k < a.len() && a[k] == b[0];
        if k > 0 {
            assert(!lex_lt(a[0].pub_date@, a[k].pub_date@));
        }
        lemma_lex_total(da, db);
        assert(da == db);
        lemma_dated_cons(a, da);
        lemma_dated_cons(b, da);
        assert(dated(a, da)[0] == a[0]);
        assert(dated(b, da)[0] == b[0]);
        assert(a[0] == b[0]);
        let ta = a.drop_first();
        let tb = b.drop_first();
        assert forall|d: Seq<char>| #[trigger] dated(ta, d) == dated(tb, d) by {
            lemma_dated_cons(a, d);
            lemma_dated_cons(b, d);
            assert(dated(a, d) == dated(b, d));
            if d == da {
                assert(dated(ta, d) =~= dated(a, d).drop_first());
                assert(dated(tb, d) =~= dated(b, d).drop_first());
            }
        }
        assert forall|i: int, j: int| 0 <= i < j < ta.len() implies !lex_lt(#[trigger] ta[i].pub_date@, #[trigger] ta[j].pub_date@) by {
            assert(ta[i] == a[i + 1] && ta[j] == a[j + 1]);
        }
        assert forall|i: int, j: int| 0 <= i < j < tb.len() implies !lex_lt(#[trigger] tb[i].pub_date@, #[trigger] tb[j].pub_date@) by {
            assert(tb[i] == b[i + 1] && tb[j] == b[j + 1]);
        }
        lemma_newest_first_unique(ta, tb);
        assert(a =~= seq![a[0]] + ta);
        assert(b =~= seq![b[0]] + tb);
    }
}

/// Orders news newest first by their date strings, as `String` compares them;
/// items with equal dates keep their order. Every item stays, as `dated` shows
/// for each date.
pub fn sort_newest_first(items: Vec<NewsItem>) -> (res: Vec<NewsItem>)
    ensures
        res@.len() == items@.len(),
        newest_first(res@),
        forall|d: Seq<char>| #[trigger] dated(res@, d) == dated(items@, d),
{
    let ghost orig = items@;
    let n = items.len();
    let mut rest = items;
    let mut res: Vec<NewsItem> = Vec::new();
    let mut dates: Vec<Vec<char>> = Vec::new();
    let mut i: usize = 0;
    while i < n
        invariant
            n == orig.len(),
            i <= n,
            rest@ == orig.skip(i as int),
            res@.len() == i,
            dates@.len() == res@.len(),
            forall|k: int| 0 <= k < res@.len() ==> #[trigger] dates@[k]@ == res@[k].pub_date@,
            newest_first(res@),
            forall|d: Seq<char>| #[trigger] dated(res@, d) == dated(orig.take(i as int), d),
        decreases n - i,
    {
        assert(rest@.len() > 0);
        let x = rest.remove(0);
        assert(x == orig[i as int]);
        assert(rest@ == orig.skip(i + 1));
        let xd = chars_of(x.pub_date.as_str());
        let m = res.len();
        let mut p: usize = 0;
        while p < m && !chars_lt(dates[p].as_slice(), xd.as_slice())
            invariant
                m == res@.len(),
                dates@.len() == res@.len(),
                forall|k: int| 0 <= k < res@.len() ==> #[trigger] dates@[k]@ == res@[k].pub_date@,
                p <= m,
                xd@ == x.pub_date@,
                forall|k: int| 0 <= k < p ==> !lex_lt(#[trigger] res@[k].pub_date@, x.pub_date@),
            decreases m - p,
        {
            p = p + 1;
        }
        let ghost before = res@;
        proof {
            assert forall|k: int| p <= k < before.len() implies lex_lt(#[trigger] before[k].pub_date@, x.pub_date@) by {
                if k > p {
                    assert(!lex_lt(before[p as int].pub_date@, before[k].pub_date@));
                    lemma_lex_total(before[p as int].pub_date@, before[k].pub_date@);
                    if before[k].pub_date@ != before[p as int].pub_date@ {
                        lemma_lex_transitive(before[k].pub_date@, before[p as int].pub_date@, x.pub_date@);
                    }
                }
            }
            assert forall|d: Seq<char>| #[trigger] dated(before.insert(p as int, x), d) == dated(orig.take(i + 1), d) by {
                lemma_dated_insert(before, p as int, x, d);
                assert(orig.take(i + 1) == orig.take(i as int).push(x));
                lemma_dated_push(orig.take(i as int), x, d);
            }
        }
        res.insert(p, x);
        dates.insert(p, xd);
        proof {
            assert(res@ == before.insert(p as int, x));
            assert forall|a: int, b: int| 0 <= a < b < res@.len() implies !lex_lt(#[trigger] res@[a].pub_date@, #[trigger] res@[b].pub_date@) by {
                if b < p {
                    assert(res@[a] == before[a] && res@[b] == before[b]);
                } else if b == p {
                    assert(res@[a] == before[a]);
                } else if a < p {
                    assert(res@[a] == before[a] && res@[b] == before[b - 1]);
                    assert(lex_lt(before[b - 1].pub_date@, x.pub_date@));
                    if lex_lt(before[a].pub_date@, before[b - 1].pub_date@) {
                        lemma_lex_transitive(before[a].pub_date@, before[b - 1].pub_date@, x.pub_date@);
                    }
                } else if a == p {
                    assert(res@[b] == before[b - 1]);
                    lemma_lex_total(x.pub_date@, before[b - 1].pub_date@);
                } else {
                    assert(res@[a] == before[a - 1] && res@[b] == before[b - 1]);
                }
            }
            assert forall|k: int| 0 <= k < res@.len() implies #[trigger] dates@[k]@ == res@[k].pub_date@ by {
                if k < p {
                } else if k > p {
                    assert(res@[k] == before[k - 1]);
                }
            }
        }
        i = i + 1;
    }
    assert(orig.take(n as int) == orig);
    res
}

/// The news of the feeds that were read, one feed after the other; a feed that
/// failed contributes nothing.
pub open spec fn fetched_items(results: Seq<Result<Vec<NewsItem>, FeedError>>) -> Seq<NewsItem>
    decreases results.len(),
{
    if results.len() == 0 {
        seq![]
    } else {
        fetched_items(results.drop_last()) + match results.last() {
            Ok(v) => v@,
            Err(_) => seq![],
        }
    }
}

/// The news of all feeds for the screen: those of the feeds that were read,
/// newest first, equal dates in the order the feeds and items came.
pub fn collect_news(results: Vec<Result<Vec<NewsItem>, FeedError>>) -> (res: Vec<NewsItem>)
    ensures
        res@.len() == fetched_items(results@).len(),
        newest_first(res@),
        forall|d: Seq<char>| #[trigger] dated(res@, d) == dated(fetched_items(results@), d),
{
    let ghost orig = results@;
    let mut all: Vec<NewsItem> = Vec::new();
    let mut rest = results;
    let n = rest.len();
    let mut i: usize = 0;
    while i < n
        invariant
            n == orig.len(),
            i <= n,
            rest@ == orig.skip(i as int),
            all@ == fetched_items(orig.take(i as int)),
        decreases n - i,
    {
        let r = rest.remove(0);
        assert(r == orig[i as int]);
        assert(rest@ == orig.skip(i + 1));
        assert(orig.take(i + 1).drop_last() == orig.take(i as int));
        match r {
            Ok(mut items) => {
                let ghost before = all@;
                let ghost got = items@;
                all.append(&mut items);
                assert(all@ == before + got);
            },
            Err(_) => {
                assert(all@ =~= fetched_items(orig.take(i as int)) + Seq::<NewsItem>::empty());
            },
        }
        i = i + 1;
    }
    assert(orig.take(n as int) == orig);
    sort_newest_first(all)
}

} // verus!
