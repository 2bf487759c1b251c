//! Keywords and the "on this day" anniversaries taken from Wikipedia pages.
use vstd::prelude::*;
use crate::text::{chars_lt, lex_lt, lemma_lex_irreflexive, lemma_lex_total, lemma_lex_transitive, chars_of, contains_chars, has_substring, lowercase, push_decimal, decimal, to_lowercase};

verus! {

broadcast use vstd::string::group_string_axioms;

/// The views of a vector of strings.
pub open spec fn views(v: Seq<String>) -> Seq<Seq<char>> {
    v.map_values(|s: String| s@)
}

/// Appends `s` to `v` as an owned string.
fn push_str(v: &mut Vec<String>, s: &str)
    ensures
        views(final(v)@) == views(old(v)@).push(s@),
{
    v.push(s.to_string());
    assert(views(v@) =~= views(old(v)@).push(s@));
}

/// The built-in keywords about historical events, in their fixed order
/// (`slavery` is listed twice).
pub const BASE_KEYWORDS: [&'static str; 107] = [
    "invasion",
    "military intervention",
    "revolution",
    "war",
    "peace",
    "crisis",
    "famine",
    "disaster",
    "state",
    "nation",
    "empire",
    "kingdom",
    "republic",
    "independence",
    "treaty",
    "agreement",
    "battle",
    "siege",
    "attack",
    "defeat",
    "victory",
    "occupation",
    "liberation",
    "genocide",
    "holocaust",
    "slavery",
    "emancipation",
    "protest",
    "demonstration",
    "riot",
    "rebellion",
    "coup",
    "assassination",
    "murder",
    "execution",
    "declaration",
    "law",
    "constitution",
    "parliament",
    "election",
    "vote",
    "president",
    "monarch",
    "king",
    "queen",
    "emperor",
    "dynasty",
    "civilization",
    "culture",
    "religion",
    "church",
    "temple",
    "mosque",
    "festival",
    "holiday",
    "celebration",
    "anniversary",
    "memorial",
    "monument",
    "ruins",
    "archaeology",
    "exploration",
    "discovery",
    "invention",
    "science",
    "technology",
    "industry",
    "economy",
    "trade",
    "commerce",
    "migration",
    "immigration",
    "emigration",
    "refugee",
    "asylum",
    "colonization",
    "decolonization",
    "imperialism",
    "capitalism",
    "socialism",
    "communism",
    "fascism",
    "democracy",
    "dictatorship",
    "authoritarian",
    "totalitarian",
    "human rights",
    "freedom",
    "justice",
    "equality",
    "discrimination",
    "segregation",
    "apartheid",
    "racism",
    "sexism",
    "colonialism",
    "slavery",
    "abolition",
    "reconstruction",
    "modernization",
    "industrialization",
    "urbanization",
    "globalization",
    "integration",
    "separation",
    "unification",
    "division",
];

/// The built-in keywords as character sequences.
pub open spec fn base_keywords() -> Seq<Seq<char>> {
    BASE_KEYWORDS@.map_values(|k: &str| k@)
}

/// The built-in keywords, as `base_keywords` lists them.
pub fn get_base_keywords() -> (res: Vec<String>)
    ensures
        views(res@) == base_keywords(),
{
    let mut v: Vec<String> = Vec::new();
    for i in 0..107
        invariant
            views(v@) == base_keywords().take(i as int),
    {
        push_str(&mut v, BASE_KEYWORDS[i]);
        assert(base_keywords().take(i + 1) == base_keywords().take(i as int).push(BASE_KEYWORDS@[i as int]@));
    }
    assert(base_keywords().take(107) == base_keywords());
    v
}

/// The built-in keywords that occur in a page, both taken in lower case.
pub open spec fn keywords_in(html: Seq<char>) -> Seq<Seq<char>> {
    base_keywords().filter(|k: Seq<char>| has_substring(lowercase(html), lowercase(k)))
}

/// The keywords found in a page are exactly the built-in keywords it mentions,
/// ignoring case: every built-in keyword that occurs is found, and nothing else is.
pub proof fn lemma_keywords_in(html: Seq<char>)
    ensures
        forall|i: int|
            0 <= i < base_keywords().len() && has_substring(lowercase(html), lowercase(#[trigger] base_keywords()[i]))
                ==> keywords_in(html).contains(base_keywords()[i]),
        forall|x: Seq<char>|
            #[trigger] keywords_in(html).contains(x) ==> base_keywords().contains(x) && has_substring(
                lowercase(html),
                lowercase(x),
            ),
{
    broadcast use vstd::seq_lib::group_filter_ensures;
    let pred = |k: Seq<char>| has_substring(lowercase(html), lowercase(k));
    assert forall|i: int|
        0 <= i < base_keywords().len() && has_substring(lowercase(html), lowercase(#[trigger] base_keywords()[i]))
        implies keywords_in(html).contains(base_keywords()[i]) by {
        assert(pred(base_keywords()[i]));
    }
    assert forall|x: Seq<char>| #[trigger] keywords_in(html).contains(x) implies base_keywords().contains(x)
        && has_substring(lowercase(html), lowercase(x)) by {
        base_keywords().lemma_filter_contains_rev(pred, x);
        let k = choose|k: int| 0 <= k < keywords_in(html).len() && keywords_in(html)[k] == x;
        assert(pred(keywords_in(html)[k]));
    }
}

/// The built-in keywords that a page mentions, ignoring case, in their fixed order.
pub fn extract_keywords_from_html(html: &str) -> (res: Vec<String>)
    ensures
        views(res@) == keywords_in(html@),
        forall|i: int|
            0 <= i < base_keywords().len() && has_substring(lowercase(html@), lowercase(#[trigger] base_keywords()[i]))
                ==> views(res@).contains(base_keywords()[i]),
        forall|x: Seq<char>|
            #[trigger] views(res@).contains(x) ==> base_keywords().contains(x) && has_substring(
                lowercase(html@),
                lowercase(x),
            ),
{
    proof {
        lemma_keywords_in(html@);
    }
    let base = get_base_keywords();
    let html_lower = to_lowercase(html);
    let hl = chars_of(html_lower.as_str());
    let ghost pred = |k: Seq<char>| has_substring(lowercase(html@), lowercase(k));
    let mut res: Vec<String> = Vec::new();
    let n = base.len();
    let mut i: usize = 0;
    while i < n
        invariant
            n == base@.len(),
            views(base@) == base_keywords(),
            hl@ == lowercase(html@),
            i <= n,
            pred == (|k: Seq<char>| has_substring(lowercase(html@), lowercase(k))),
            views(res@) == base_keywords().take(i as int).filter(pred),
        decreases n - i,
    {
        let kw_lower = to_lowercase(base[i].as_str());
        let kl = chars_of(kw_lower.as_str());
        proof {
            reveal_with_fuel(Seq::filter, 1);
            assert(base_keywords().take(i + 1).drop_last() == base_keywords().take(i as int));
            assert(base_keywords()[i as int] == base@[i as int]@);
        }
        if contains_chars(hl.as_slice(), kl.as_slice()) {
            let ghost before = views(res@);
            res.push(base[i].clone());
            assert(views(res@) =~= before.push(base@[i as int]@));
        }
        i = i + 1;
    }
    assert(base_keywords().take(n as int) == base_keywords());
    res
}

/// A line of "on this day": the year it names and what happened.
#[derive(Clone, Debug)]
pub struct WikiAnniversary {
    pub year: String,
    pub description: String,
}

/// What `Regex::captures` of the `regex` crate finds for the pattern `(\d{4})`:
/// the leftmost run of four Unicode decimal digits in the text, if any.
pub uninterp spec fn first_year(text: Seq<char>) -> Option<Seq<char>>;

/// The year a line mentions, by the pattern `(\d{4})` of the `regex` crate. The
/// match is four characters of the text; that they are the leftmost run of four
/// Unicode decimal digits is what `first_year` names and is not spelled out.
#[verifier::external_body]
fn extract_year(text: &str) -> (res: Option<String>)
    ensures
        match res {
            Some(y) => first_year(text@) == Some(y@),
            None => first_year(text@) is None,
        },
        res matches Some(y) ==> y@.len() == 4 && has_substring(text@, y@),
{
    let re = regex::Regex::new(r"(\d{4})").unwrap();
    re.captures(text).and_then(|c| c.get(1)).map(|m| m.as_str().to_string())
}

/// What `Regex::replace` of the `regex` crate gives for the pattern
/// `^\d{4}\s*[-–]\s*` and an empty replacement: the text without a leading
/// "year, dash" prefix.
pub uninterp spec fn without_year_prefix(text: Seq<char>) -> Seq<char>;

/// Removes a leading "1923 – " from a line, by the pattern `^\d{4}\s*[-–]\s*` of
/// the `regex` crate. What is left is a suffix of the line; which prefix goes
/// is what `without_year_prefix` names and is not spelled out.
#[verifier::external_body]
fn clean_text(text: &str) -> (res: String)
    ensures
        res@ == without_year_prefix(text@),
        res@.is_suffix_of(text@),
{
    let re = regex::Regex::new(r"^\d{4}\s*[-–]\s*").unwrap();
    re.replace(text, "").to_string()
}

/// What `scraper` gives for an HTML page: the text of each `li` element under each
/// `ul` or `ol` element, list by list in document order (an item of a nested list
/// comes once for each list that holds it).
pub uninterp spec fn list_item_texts(html: Seq<char>) -> Seq<Seq<char>>;

/// The texts of the list items of an HTML page, read with `scraper`
/// (`Html::parse_document`, the selectors `ul, ol` and `li`, `ElementRef::text`).
#[verifier::external_body]
fn html_list_item_texts(html: &str) -> (res: Vec<String>)
    ensures
        views(res@) == list_item_texts(html@),
{
    let doc = scraper::Html::parse_document(html);
    let lists = scraper::Selector::parse("ul, ol").unwrap();
    let items = scraper::Selector::parse("li").unwrap();
    doc.select(&lists).flat_map(|l| l.select(&items)).map(|li| li.text().collect()).collect()
}

/// The anniversaries among list-item texts: each text that names a year gives the
/// year and the text without its year prefix, in order.
pub open spec fn anniversaries_of(texts: Seq<Seq<char>>) -> Seq<(Seq<char>, Seq<char>)>
    decreases texts.len(),
{
    if texts.len() == 0 {
        seq![]
    } else {
        let prev = anniversaries_of(texts.drop_last());
        let t = texts.last();
        match first_year(t) {
            Some(y) => prev.push((y, without_year_prefix(t))),
            None => prev,
        }
    }
}

/// The year and description of each anniversary.
pub open spec fn anniversary_views(v: Seq<WikiAnniversary>) -> Seq<(Seq<char>, Seq<char>)> {
    v.map_values(|a: WikiAnniversary| (a.year@, a.description@))
}

/// The anniversaries listed in texts of list items, as `anniversaries_of` says.
pub fn anniversaries_from_items(texts: &Vec<String>) -> (res: Vec<WikiAnniversary>)
    ensures
        anniversary_views(res@) == anniversaries_of(views(texts@)),
{
    let mut res: Vec<WikiAnniversary> = Vec::new();
    let n = texts.len();
    for i in 0..n
        invariant
            n == texts@.len(),
            anniversary_views(res@) == anniversaries_of(views(texts@).take(i as int)),
    {
        assert(views(texts@).take(i + 1).drop_last() == views(texts@).take(i as int));
        assert(views(texts@).take(i + 1).last() == texts@[i as int]@);
        if let Some(year) = extract_year(texts[i].as_str()) {
            let description = clean_text(texts[i].as_str());
            let ghost before = anniversary_views(res@);
            res.push(WikiAnniversary { year, description });
            assert(anniversary_views(res@) =~= before.push((year@, description@)));
        }
    }
    assert(views(texts@).take(n as int) == views(texts@));
    res
}

/// The anniversaries of a Wikipedia "selected anniversaries" page: those among the
/// texts of its list items.
pub fn anniversaries_from_html(html: &str) -> (res: Vec<WikiAnniversary>)
    ensures
        anniversary_views(res@) == anniversaries_of(list_item_texts(html@)),
{
    let texts = html_list_item_texts(html);
    anniversaries_from_items(&texts)
}

/// Each string comes strictly before the next: sorted, with no repetition.
pub open spec fn strictly_sorted(v: Seq<Seq<char>>) -> bool {
    forall|i: int, j: int| 0 <= i < j < v.len() ==> lex_lt(#[trigger] v[i], #[trigger] v[j])
}

proof fn lemma_insert_sorted(v: Seq<Seq<char>>, p: int, x: Seq<char>)
    requires
        strictly_sorted(v),
        0 <= p <= v.len(),
        forall|k: int| 0 <= k < p ==> lex_lt(#[trigger] v[k], x),
        p < v.len() ==> lex_lt(x, v[p]),
    ensures
        strictly_sorted(v.insert(p, x)),
{
    let w = v.insert(p, x);
    assert forall|i: int, j: int| 0 <= i < j < w.len() implies lex_lt(#[trigger] w[i], #[trigger] w[j]) by {
        if j < p {
        } else if j == p {
        } else if i < p {
            lemma_lex_transitive(w[i], x, v[p]);
            if j - 1 > p {
                lemma_lex_transitive(w[i], v[p], v[j - 1]);
            }
        } else if i == p {
            if j - 1 > p {
                lemma_lex_transitive(x, v[p], v[j - 1]);
            }
        } else {
        }
    }
}

/// The distinct strings of `items` in the order of `String`, as sorting and then
/// removing adjacent repeats gives them.
pub fn sorted_unique(items: &Vec<String>) -> (res: Vec<String>)
    ensures
        strictly_sorted(views(res@)),
        forall|x: Seq<char>| views(res@).contains(x) <==> views(items@).contains(x),
{
    let mut res: Vec<String> = Vec::new();
    let mut res_chars: Vec<Vec<char>> = Vec::new();
    let n = items.len();
    for i in 0..n
        invariant
            n == items@.len(),
            res@.len() == res_chars@.len(),
            forall|k: int| 0 <= k < res@.len() ==> #[trigger] res_chars@[k]@ == res@[k]@,
            strictly_sorted(views(res@)),
            forall|x: Seq<char>| views(res@).contains(x) <==> views(items@).take(i as int).contains(x),
    {
        let s = chars_of(items[i].as_str());
        let m = res.len();
        let mut p: usize = 0;
        while p < m && chars_lt(res_chars[p].as_slice(), s.as_slice())
            invariant
                m == res@.len(),
                res@.len() == res_chars@.len(),
                forall|k: int| 0 <= k < res@.len() ==> #[trigger] res_chars@[k]@ == res@[k]@,
                p <= m,
                forall|k: int| 0 <= k < p ==> lex_lt(#[trigger] views(res@)[k], s@),
            decreases m - p,
        {
            p = p + 1;
        }
        let ghost before = views(res@);
        let ghost x = items@[i as int]@;
        let ghost pre = views(items@).take(i as int);
        let ghost post = views(items@).take(i + 1);
        assert(post == pre.push(x));
        let dup = p < m && !chars_lt(s.as_slice(), res_chars[p].as_slice());
        if dup {
            proof {
                lemma_lex_total(s@, before[p as int]);
                assert(before[p as int] == x);
                assert forall|y: Seq<char>| before.contains(y) <==> post.contains(y) by {
                    if y == x {
                        assert(before[p as int] == y);
                    }
                    if post.contains(y) {
                        let k = choose|k: int| #![trigger post[k]] 0 <= k < i + 1 && post[k] == y;
                        if k < i {
                            assert(pre[k] == y);
                        }
                    }
                }
            }
        } else {
            proof {
                if p < m {
                    lemma_lex_total(s@, before[p as int]);
                }
                lemma_insert_sorted(before, p as int, x);
            }
            res.insert(p, items[i].clone());
            res_chars.insert(p, s);
            proof {
                assert(views(res@) =~= before.insert(p as int, x));
                assert forall|y: Seq<char>| views(res@).contains(y) <==> post.contains(y) by {
                    assert(before.contains(y) <==> pre.contains(y));
                    if views(res@).contains(y) {
                        let k = choose|k: int| #![trigger views(res@)[k]] 0 <= k < views(res@).len() && views(res@)[k] == y;
                        if k < p {
                            assert(before[k] == y);
                            assert(before.contains(y));
                        } else if k > p {
                            assert(before[k - 1] == y);
                            assert(before.contains(y));
                        }
                    }
                    if before.contains(y) {
                        let k = choose|k: int| #![trigger before[k]] 0 <= k < before.len() && before[k] == y;
                        if k < p {
                            assert(views(res@)[k] == y);
                        } else {
                            assert(views(res@)[k + 1] == y);
                        }
                    }
                    assert(views(res@)[p as int] == x);
                    if post.contains(y) {
                        let k = choose|k: int| #![trigger post[k]] 0 <= k < i + 1 && post[k] == y;
                        if k < i {
                            assert(pre[k] == y);
                            assert(pre.contains(y));
                        }
                    }
                    if pre.contains(y) {
                        let k = choose|k: int| #![trigger pre[k]] 0 <= k < i && pre[k] == y;
                        assert(post[k] == y);
                    }
                    assert(post[i as int] == x);
                }
            }
        }
    }
    assert(views(items@).take(n as int) == views(items@));
    res
}

/// The English name of month `m`, counted from 0 for January.
pub open spec fn month_name(m: nat) -> Seq<char> {
    if m == 0 { "January"@ }
    else if m == 1 { "February"@ }
    else if m == 2 { "March"@ }
    else if m == 3 { "April"@ }
    else if m == 4 { "May"@ }
    else if m == 5 { "June"@ }
    else if m == 6 { "July"@ }
    else if m == 7 { "August"@ }
    else if m == 8 { "September"@ }
    else if m == 9 { "October"@ }
    else if m == 10 { "November"@ }
    else { "December"@ }
}

/// The months of the calendar, January to December in their order, each by its
/// English name.
pub open spec fn calendar_months() -> Seq<Seq<char>> {
    seq!["January"@, "February"@, "March"@, "April"@, "May"@, "June"@, "July"@, "August"@, "September"@, "October"@, "November"@, "December"@]
}

/// `month_name(m)` names the `m + 1`-th month of the calendar, so the anniversary
/// page of month `m0` (0 for January) is that month's page.
pub proof fn lemma_month_names(m0: nat, day: nat)
    requires
        m0 < 12,
    ensures
        month_name(m0) == calendar_months()[m0 as int],
        anniversary_url(m0, day) == "https://en.wikipedia.org/wiki/Wikipedia:Selected_anniversaries/"@
            + calendar_months()[m0 as int] + seq!['_'] + decimal(day),
{
}

/// The English name of month `m0`, counted from 0 for January.
pub fn month_name_of(m0: u32) -> (r: &'static str)
    requires
        m0 < 12,
    ensures
        r@ == month_name(m0 as nat),
        r@ == calendar_months()[m0 as int],
{
    if m0 == 0 { "January" }
    else if m0 == 1 { "February" }
    else if m0 == 2 { "March" }
    else if m0 == 3 { "April" }
    else if m0 == 4 { "May" }
    else if m0 == 5 { "June" }
    else if m0 == 6 { "July" }
    else if m0 == 7 { "August" }
    else if m0 == 8 { "September" }
    else if m0 == 9 { "October" }
    else if m0 == 10 { "November" }
    else { "December" }
}

/// Where Wikipedia's selected anniversaries of a day are: the page
/// `Wikipedia:Selected_anniversaries/<Month>_<day>`.
pub open spec fn anniversary_url(m0: nat, day: nat) -> Seq<char> {
    "https://en.wikipedia.org/wiki/Wikipedia:Selected_anniversaries/"@ + month_name(m0) + seq!['_']
        + decimal(day)
}

/// The address of the selected anniversaries of day `day` of month `m0` (0 for
/// January).
pub fn anniversary_page_url(m0: u32, day: u32) -> (url: String)
    requires
        m0 < 12,
    ensures
        url@ == anniversary_url(m0 as nat, day as nat),
        url@ == "https://en.wikipedia.org/wiki/Wikipedia:Selected_anniversaries/"@ + calendar_months()[m0 as int]
            + seq!['_'] + decimal(day as nat),
{
    proof {
        lemma_month_names(m0 as nat, day as nat);
    }
    let mut url = "https://en.wikipedia.org/wiki/Wikipedia:Selected_anniversaries/".to_string();
    url.append(month_name_of(m0));
    crate::text::push_char(&mut url, '_');
    push_decimal(&mut url, day as u64);
    url
}

/// How many months, from January, and how many days of each, the keyword scan
/// reads.
pub const KEYWORD_MONTHS: u32 = 3;
pub const KEYWORD_DAYS: u32 = 28;

/// The pages the keyword scan reads: days 1 to 28 of January, February and
/// March, in that order.
pub open spec fn keyword_urls() -> Seq<Seq<char>> {
    Seq::new(
        (KEYWORD_MONTHS * KEYWORD_DAYS) as nat,
        |k: int| anniversary_url((k / KEYWORD_DAYS as int) as nat, (k % KEYWORD_DAYS as int + 1) as nat),
    )
}

/// The addresses of the pages the keyword scan reads, as `keyword_urls` lists them.
pub fn keyword_page_urls() -> (res: Vec<String>)
    ensures
        views(res@) == keyword_urls(),
{
    let mut res: Vec<String> = Vec::new();
    for m in 0..KEYWORD_MONTHS
        invariant
            views(res@) == keyword_urls().take((m * KEYWORD_DAYS) as int),
    {
        for d in 1..KEYWORD_DAYS + 1
            invariant
                m < KEYWORD_MONTHS,
                1 <= d <= KEYWORD_DAYS + 1,
                views(res@) == keyword_urls().take((m * KEYWORD_DAYS + d - 1) as int),
        {
            let url = anniversary_page_url(m, d);
            let ghost k = (m * KEYWORD_DAYS + d - 1) as int;
            let ghost before = views(res@);
            res.push(url);
            assert(k / KEYWORD_DAYS as int == m && k % KEYWORD_DAYS as int == d - 1);
            assert(views(res@) =~= before.push(url@));
            assert(keyword_urls()[k] == url@);
            assert(views(res@) =~= keyword_urls().take(k + 1));
        }
    }
    assert(keyword_urls().take((KEYWORD_MONTHS * KEYWORD_DAYS) as int) == keyword_urls());
    res
}

/// Two strictly sorted lists with the same members are the same list.
pub proof fn lemma_strictly_sorted_unique(a: Seq<Seq<char>>, b: Seq<Seq<char>>)
    requires
        strictly_sorted(a),
        strictly_sorted(b),
        forall|x: Seq<char>| a.contains(x) <==> b.contains(x),
    ensures
        a == b,
    decreases a.len(),
{
    if a.len() == 0 {
        if b.len() > 0 {
            assert(b.contains(b[0]));
        }
        assert(a =~= b);
    } else {
        assert(a.contains(a[0]));
        let j = choose|j: int| 0 <= j < b.len() && b[j] == a[0];
        assert(b.contains(b[0]));
        let k = choose|k: int| 0 <= k < a.len() && a[k] == b[0];
        if j > 0 {
            assert(lex_lt(b[0], b[j]));
            if k > 0 {
                assert(lex_lt(a[0], a[k]));
                lemma_lex_total(a[0], b[0]);
            } else {
                lemma_lex_irreflexive(a[0]);
            }
        }
        assert(a[0] == b[0]);
        let ta = a.drop_first();
        let tb = b.drop_first();
        assert forall|x: Seq<char>| ta.contains(x) <==> tb.contains(x) by {
            if ta.contains(x) {
                let i = choose|i: int| 0 <= i < ta.len() && ta[i] == x;
                assert(a[i + 1] == x);
                assert(a.contains(x));
                let i2 = choose|i2: int| 0 <= i2 < b.len() && b[i2] == x;
                if i2 == 0 {
                    assert(lex_lt(a[0], a[i + 1]));
                    lemma_lex_irreflexive(x);
                }
                assert(tb[i2 - 1] == x);
            }
            if tb.contains(x) {
                let i = choose|i: int| 0 <= i < tb.len() && tb[i] == x;
                assert(b[i + 1] == x);
                assert(b.contains(x));
                let i2 = choose|i2: int| 0 <= i2 < a.len() && a[i2] == x;
                if i2 == 0 {
                    assert(lex_lt(b[0], b[i + 1]));
                    lemma_lex_irreflexive(x);
                }
                assert(ta[i2 - 1] == x);
            }
        }
        lemma_strictly_sorted_unique(ta, tb);
        assert(a =~= seq![a[0]] + ta);
        assert(b =~= seq![b[0]] + tb);
    }
}

/// The keyword list of the configuration: every built-in keyword once, in the
/// order of `String`.
pub open spec fn is_keyword_list(v: Seq<Seq<char>>) -> bool {
    &&& strictly_sorted(v)
    &&& forall|x: Seq<char>| v.contains(x) <==> base_keywords().contains(x)
}

/// The keyword scan gives the same list whatever pages it read: two keyword lists
/// are always equal.
pub proof fn lemma_keyword_list_unique(a: Seq<Seq<char>>, b: Seq<Seq<char>>)
    requires
        is_keyword_list(a),
        is_keyword_list(b),
    ensures
        a == b,
{
    lemma_strictly_sorted_unique(a, b);
}

/// The keywords gathered from Wikipedia pages: the built-in keywords together with
/// those each page mentions, sorted, each once. Since a page can only mention
/// built-in keywords, this is the built-in list sorted and without repeats.
pub fn keywords_from_pages(pages: &Vec<String>) -> (res: Vec<String>)
    ensures
        is_keyword_list(views(res@)),
{
    let mut all = get_base_keywords();
    let n = pages.len();
    for i in 0..n
        invariant
            n == pages@.len(),
            forall|x: Seq<char>| views(all@).contains(x) <==> base_keywords().contains(x),
    {
        let found = extract_keywords_from_html(pages[i].as_str());
        let m = found.len();
        for j in 0..m
            invariant
                m == found@.len(),
                i < n,
                n == pages@.len(),
                views(found@) == keywords_in(pages@[i as int]@),
                forall|x: Seq<char>| views(all@).contains(x) <==> base_keywords().contains(x),
        {
            let ghost before = views(all@);
            let ghost y = found@[j as int]@;
            proof {
                assert(views(found@)[j as int] == y);
                assert(keywords_in(pages@[i as int]@).contains(y));
                let page = pages@[i as int]@;
                base_keywords().lemma_filter_contains_rev(
                    |k: Seq<char>| has_substring(lowercase(page), lowercase(k)),
                    y,
                );
                assert(base_keywords().contains(y));
            }
            all.push(found[j].clone());
            assert(views(all@) =~= before.push(y));
            assert forall|x: Seq<char>| views(all@).contains(x) <==> base_keywords().contains(x) by {
                if views(all@).contains(x) && x != y {
                    let k = choose|k: int| 0 <= k < views(all@).len() && views(all@)[k] == x;
                    assert(before[k] == x);
                    assert(before.contains(x));
                }
                if before.contains(x) {
                    let k = choose|k: int| 0 <= k < before.len() && before[k] == x;
                    assert(views(all@)[k] == x);
                }
                assert(views(all@)[before.len() as int] == y);
            }
        }
    }
    sorted_unique(&all)
}

} // verus!
