//! What the two screens show, as text: the list view (header, tabs, the news of
//! the selected category, the side panel) and the detail view of one article.
use vstd::prelude::*;
use crate::app::{category_name, AppState, NewsBoard, CATEGORY_COUNT};
use crate::config::CATEGORIES;
use crate::rss::NewsItem;
use crate::text::{chars_of, decimal, push_decimal, string_from_range};
use crate::ui::{clean_html, keyword_hit, matches_keywords, plain_text, safe_truncate, truncated, wrap_text, wrapped};
use crate::wiki::WikiAnniversary;

verus! {

broadcast use vstd::string::group_string_axioms;

/// The detail view of one article.
pub struct DetailView {
    /// The title bar: `[Esc] GERI |` and the title cut to 60 characters.
    pub header: String,
    /// The title cut to 50 characters.
    pub title: String,
    /// Source, date (its first 16 characters) and category.
    pub meta: String,
    /// The description as plain text, wrapped to the width of the screen.
    pub description: String,
    /// The address of the article.
    pub link: String,
}

/// The first 16 characters of a date, the whole date when it is shorter.
pub open spec fn short_date(d: Seq<char>) -> Seq<char> {
    if d.len() > 16 { d.take(16) } else { d }
}

/// The detail view of `item` on a screen `width` characters wide.
pub open spec fn detail_ok(item: NewsItem, width: nat, v: DetailView) -> bool {
    &&& v.header@ == " [Esc] GERI | "@ + truncated(item.title@, 60) + " "@
    &&& v.title@ == truncated(item.title@, 50)
    &&& v.meta@ == item.source@ + " | "@ + short_date(item.pub_date@) + " | "@ + item.category@
    &&& v.description@ == wrapped(plain_text(item.description@), width)
    &&& v.link@ == item.link@
}

/// The texts of the detail view of `item`, as `detail_ok` says.
pub fn detail_view(item: &NewsItem, width: usize) -> (v: DetailView)
    ensures
        detail_ok(*item, width as nat, v),
{
    let mut header = " [Esc] GERI | ".to_string();
    let t60 = safe_truncate(item.title.as_str(), 60);
    header.append(t60.as_str());
    header.append(" ");
    let title = safe_truncate(item.title.as_str(), 50);
    let dc = chars_of(item.pub_date.as_str());
    let date = if dc.len() > 16 {
        string_from_range(dc.as_slice(), 0, 16)
    } else {
        item.pub_date.clone()
    };
    let mut meta = item.source.clone();
    meta.append(" | ");
    meta.append(date.as_str());
    meta.append(" | ");
    meta.append(item.category.as_str());
    let clean = clean_html(item.description.as_str());
    let description = wrap_text(clean.as_str(), width);
    DetailView { header, title, meta, description, link: item.link.clone() }
}

/// The detail view of the selected article when the selected category holds it,
/// else none (the screen is then left as it was).
pub fn selected_detail(state: &AppState, board: &NewsBoard, width: usize) -> (v: Option<DetailView>)
    requires
        state.wf(),
        board.wf(),
    ensures
        match v {
            Some(d) => state.selected_news_index < board.news(state.selected_category as int).len()
                && detail_ok(board.news(state.selected_category as int)[state.selected_news_index as int], width as nat, d),
            None => state.selected_news_index >= board.news(state.selected_category as int).len(),
        },
{
    let items = board.items(state.selected_category);
    if state.selected_news_index < items.len() {
        Some(detail_view(&items[state.selected_news_index], width))
    } else {
        None
    }
}

/// One line of a list: its text, whether it is the selected article, and whether
/// it is a dimmed placeholder.
pub struct ListLine {
    pub text: String,
    pub selected: bool,
    pub dim: bool,
}

/// A line as plain values.
pub open spec fn line_view(l: ListLine) -> (Seq<char>, bool, bool) {
    (l.text@, l.selected, l.dim)
}

/// The lines of a list as plain values.
pub open spec fn line_views(v: Seq<ListLine>) -> Seq<(Seq<char>, bool, bool)> {
    v.map_values(|l: ListLine| line_view(l))
}

/// What the side panel of the list view holds.
#[derive(Clone, Copy, Debug, PartialEq, Eq)]
pub enum SidePanel {
    /// The top story of the technology and economy tabs (world tab only).
    OtherCategories,
    /// Today's anniversaries.
    History,
}

/// The list view, as text.
pub struct ListView {
    /// The title bar: the name of the reader, the clock and the key help.
    pub header: String,
    /// One label per category, in tab order, the selected one marked.
    pub tabs: Vec<ListLine>,
    /// The selected category and how many news it holds.
    pub list_title: String,
    /// The news of the selected category, or a placeholder.
    pub lines: Vec<ListLine>,
    /// What the side panel shows.
    pub side: SidePanel,
    /// The lines of the side panel, or a placeholder.
    pub side_lines: Vec<ListLine>,
}

/// The title bar of the list view at time `clock`.
pub open spec fn list_header(clock: Seq<char>) -> Seq<char> {
    " KARGA NEWS "@ + clock
        + " | [Tab] Sonraki | [Enter] Detay | h=Haber w=Dunya s=Spor p=Politika t=Tekno q=Cikis "@
}

/// The label of a tab: the name in brackets when selected, between spaces else.
pub open spec fn tab_label(name: Seq<char>, selected: bool) -> Seq<char> {
    if selected { "["@ + name + "]"@ } else { " "@ + name + " "@ }
}

/// The tabs when category `sel` is selected.
pub open spec fn tabs_of(sel: nat) -> Seq<(Seq<char>, bool, bool)> {
    Seq::new(
        CATEGORY_COUNT as nat,
        |i: int| (tab_label(category_name(i), i == sel), i == sel, false),
    )
}

/// The line of a news title: `[+] ` when it mentions a keyword, `- ` else, then
/// the title cut to 80 characters.
pub open spec fn news_line(title: Seq<char>, keywords: Seq<String>) -> Seq<char> {
    (if keyword_hit(title, keywords) { "[+] "@ } else { "- "@ }) + truncated(title, 80)
}

/// The lines of the news list: one per article, the one at `sel` marked, or the
/// dimmed placeholder `Haber yok` when there is none.
pub open spec fn news_lines(items: Seq<NewsItem>, keywords: Seq<String>, sel: nat) -> Seq<(Seq<char>, bool, bool)> {
    if items.len() == 0 {
        seq![("Haber yok"@, false, true)]
    } else {
        Seq::new(items.len(), |i: int| (news_line(items[i].title@, keywords), i == sel, false))
    }
}

/// The line of the top story of another category.
pub open spec fn other_line(cat: Seq<char>, title: Seq<char>) -> Seq<char> {
    cat + ": "@ + truncated(title, 40)
}

/// The top stories of the technology and of the economy tab, in that order, for
/// those that hold news.
pub open spec fn other_lines(tech: Seq<NewsItem>, econ: Seq<NewsItem>) -> Seq<(Seq<char>, bool, bool)> {
    (if tech.len() > 0 { seq![(other_line("Teknoloji"@, tech[0].title@), false, false)] } else { seq![] })
        + (if econ.len() > 0 { seq![(other_line("Ekonomi"@, econ[0].title@), false, false)] } else { seq![] })
}

/// The line of an anniversary: the year in brackets and the description cut to 40
/// characters.
pub open spec fn history_line(a: WikiAnniversary) -> Seq<char> {
    "["@ + a.year@ + "] "@ + truncated(a.description@, 40)
}

/// How many anniversaries the side panel shows.
pub const HISTORY_LINES: usize = 8;

/// The first eight anniversaries, or the dimmed placeholder `Veri yok`.
pub open spec fn history_lines(anns: Seq<WikiAnniversary>) -> Seq<(Seq<char>, bool, bool)> {
    if anns.len() == 0 {
        seq![("Veri yok"@, false, true)]
    } else {
        let k = if anns.len() < HISTORY_LINES { anns.len() } else { HISTORY_LINES as nat };
        Seq::new(k, |i: int| (history_line(anns[i]), false, false))
    }
}

/// The index of the world tab, and of the technology and economy tabs.
pub const WORLD_TAB: usize = 1;
pub const ECONOMY_TAB: usize = 4;
pub const TECHNOLOGY_TAB: usize = 5;

/// The list view for state `s`, news `board`, keywords, anniversaries and clock:
/// on the world tab the side panel shows the top stories of the technology and
/// economy tabs when one of them holds news; otherwise it shows the anniversaries.
pub open spec fn list_ok(
    s: AppState,
    board: NewsBoard,
    keywords: Seq<String>,
    anns: Seq<WikiAnniversary>,
    clock: Seq<char>,
    v: ListView,
) -> bool {
    let items = board.news(s.selected_category as int);
    let others = other_lines(board.news(TECHNOLOGY_TAB as int), board.news(ECONOMY_TAB as int));
    &&& v.header@ == list_header(clock)
    &&& line_views(v.tabs@) == tabs_of(s.selected_category as nat)
    &&& v.list_title@ == " "@ + category_name(s.selected_category as int) + " ("@ + decimal(items.len()) + ") "@
    &&& line_views(v.lines@) == news_lines(items, keywords, s.selected_news_index as nat)
    &&& if s.selected_category == WORLD_TAB && others.len() > 0 {
        v.side == SidePanel::OtherCategories && line_views(v.side_lines@) == others
    } else {
        v.side == SidePanel::History && line_views(v.side_lines@) == history_lines(anns)
    }
}

/// The shape of the list view: ten tabs with exactly the selected one marked and
/// labelled with its name in brackets; one line per article of the selected
/// category with exactly the selected article marked, or a single dimmed
/// placeholder when the category is empty.
pub proof fn lemma_list_view_shape(
    s: AppState,
    board: NewsBoard,
    keywords: Seq<String>,
    anns: Seq<WikiAnniversary>,
    clock: Seq<char>,
    v: ListView,
)
    requires
        s.wf(),
        list_ok(s, board, keywords, anns, clock, v),
    ensures
        v.tabs@.len() == 10,
        forall|i: int| 0 <= i < 10 ==> (#[trigger] v.tabs@[i].selected <==> i == s.selected_category),
        v.tabs@[s.selected_category as int].text@ == "["@ + CATEGORIES@[s.selected_category as int]@ + "]"@,
        board.news(s.selected_category as int).len() > 0 ==> v.lines@.len() == board.news(s.selected_category as int).len(),
        board.news(s.selected_category as int).len() > 0 ==> forall|k: int|
            0 <= k < v.lines@.len() ==> (#[trigger] v.lines@[k].selected <==> k == s.selected_news_index),
        board.news(s.selected_category as int).len() == 0 ==> v.lines@.len() == 1 && v.lines@[0].dim
            && !v.lines@[0].selected,
{
    assert(line_views(v.tabs@).len() == v.tabs@.len());
    assert(tabs_of(s.selected_category as nat).len() == 10);
    assert forall|i: int| 0 <= i < 10 implies (#[trigger] v.tabs@[i].selected <==> i == s.selected_category) by {
        assert(line_views(v.tabs@)[i] == line_view(v.tabs@[i]));
    }
    assert(line_views(v.tabs@)[s.selected_category as int] == line_view(v.tabs@[s.selected_category as int]));
    let items = board.news(s.selected_category as int);
    assert(line_views(v.lines@).len() == v.lines@.len());
    if items.len() > 0 {
        assert forall|k: int| 0 <= k < v.lines@.len() implies (#[trigger] v.lines@[k].selected <==> k == s.selected_news_index) by {
            assert(line_views(v.lines@)[k] == line_view(v.lines@[k]));
        }
    } else {
        assert(line_views(v.lines@)[0] == line_view(v.lines@[0]));
    }
}

fn push_line(v: &mut Vec<ListLine>, text: String, selected: bool, dim: bool)
    ensures
        line_views(final(v)@) == line_views(old(v)@).push((text@, selected, dim)),
{
    let l = ListLine { text, selected, dim };
    v.push(l);
    assert(line_views(v@) =~= line_views(old(v)@).push(line_view(l)));
}

fn tab_lines(sel: usize) -> (v: Vec<ListLine>)
    requires
        sel < CATEGORY_COUNT,
    ensures
        line_views(v@) == tabs_of(sel as nat),
{
    let mut v: Vec<ListLine> = Vec::new();
    for i in 0..CATEGORY_COUNT
        invariant
            line_views(v@) == tabs_of(sel as nat).take(i as int),
    {
        let mut text = String::new();
        if i == sel {
            text.append("[");
            text.append(CATEGORIES[i]);
            text.append("]");
        } else {
            text.append(" ");
            text.append(CATEGORIES[i]);
            text.append(" ");
        }
        push_line(&mut v, text, i == sel, false);
        assert(tabs_of(sel as nat).take(i + 1) =~= tabs_of(sel as nat).take(i as int).push(tabs_of(sel as nat)[i as int]));
    }
    assert(tabs_of(sel as nat).take(CATEGORY_COUNT as int) =~= tabs_of(sel as nat));
    v
}

fn list_lines_of(items: &Vec<NewsItem>, keywords: &Vec<String>, sel: usize) -> (v: Vec<ListLine>)
    ensures
        line_views(v@) == news_lines(items@, keywords@, sel as nat),
{
    let mut v: Vec<ListLine> = Vec::new();
    if items.len() == 0 {
        push_line(&mut v, "Haber yok".to_string(), false, true);
        assert(line_views(v@) =~= news_lines(items@, keywords@, sel as nat));
        return v;
    }
    let n = items.len();
    for i in 0..n
        invariant
            n == items@.len(),
            n > 0,
            line_views(v@) == news_lines(items@, keywords@, sel as nat).take(i as int),
    {
        let mut text = if matches_keywords(items[i].title.as_str(), keywords.as_slice()) {
            "[+] ".to_string()
        } else {
            "- ".to_string()
        };
        let t = safe_truncate(items[i].title.as_str(), 80);
        text.append(t.as_str());
        push_line(&mut v, text, i == sel, false);
        let ghost nl = news_lines(items@, keywords@, sel as nat);
        assert(nl.take(i + 1) =~= nl.take(i as int).push(nl[i as int]));
    }
    assert(news_lines(items@, keywords@, sel as nat).take(n as int) =~= news_lines(items@, keywords@, sel as nat));
    v
}

fn push_other(v: &mut Vec<ListLine>, cat: &str, items: &Vec<NewsItem>)
    ensures
        line_views(final(v)@) == line_views(old(v)@) + (if items@.len() > 0 {
            seq![(other_line(cat@, items@[0].title@), false, false)]
        } else {
            seq![]
        }),
{
    if items.len() > 0 {
        let mut text = cat.to_string();
        text.append(": ");
        let t = safe_truncate(items[0].title.as_str(), 40);
        text.append(t.as_str());
        push_line(v, text, false, false);
        assert(line_views(v@) =~= line_views(old(v)@) + seq![(other_line(cat@, items@[0].title@), false, false)]);
    } else {
        assert(line_views(v@) =~= line_views(old(v)@) + seq![]);
    }
}

fn history_lines_of(anns: &Vec<WikiAnniversary>) -> (v: Vec<ListLine>)
    ensures
        line_views(v@) == history_lines(anns@),
{
    let mut v: Vec<ListLine> = Vec::new();
    if anns.len() == 0 {
        push_line(&mut v, "Veri yok".to_string(), false, true);
        assert(line_views(v@) =~= history_lines(anns@));
        return v;
    }
    let k = if anns.len() < HISTORY_LINES { anns.len() } else { HISTORY_LINES };
    for i in 0..k
        invariant
            k <= anns@.len(),
            anns@.len() > 0,
            k == (if anns@.len() < HISTORY_LINES { anns@.len() } else { HISTORY_LINES as nat }),
            line_views(v@) == history_lines(anns@).take(i as int),
    {
        let mut text = "[".to_string();
        text.append(anns[i].year.as_str());
        text.append("] ");
        let t = safe_truncate(anns[i].description.as_str(), 40);
        text.append(t.as_str());
        push_line(&mut v, text, false, false);
        let ghost hl = history_lines(anns@);
        assert(hl.take(i + 1) =~= hl.take(i as int).push(hl[i as int]));
    }
    assert(history_lines(anns@).take(k as int) =~= history_lines(anns@));
    v
}

/// The texts of the list view, as `list_ok` says.
pub fn list_view(
    state: &AppState,
    board: &NewsBoard,
    keywords: &Vec<String>,
    anniversaries: &Vec<WikiAnniversary>,
    clock: &str,
) -> (v: ListView)
    requires
        state.wf(),
        board.wf(),
    ensures
        list_ok(*state, *board, keywords@, anniversaries@, clock@, v),
{
    let mut header = " KARGA NEWS ".to_string();
    header.append(clock);
    header.append(" | [Tab] Sonraki | [Enter] Detay | h=Haber w=Dunya s=Spor p=Politika t=Tekno q=Cikis ");
    let tabs = tab_lines(state.selected_category);
    let items = board.items(state.selected_category);
    let mut list_title = " ".to_string();
    list_title.append(CATEGORIES[state.selected_category]);
    list_title.append(" (");
    push_decimal(&mut list_title, items.len() as u64);
    list_title.append(") ");
    let lines = list_lines_of(items, keywords, state.selected_news_index);
    let mut others: Vec<ListLine> = Vec::new();
    if state.selected_category == WORLD_TAB {
        push_other(&mut others, "Teknoloji", board.items(TECHNOLOGY_TAB));
        push_other(&mut others, "Ekonomi", board.items(ECONOMY_TAB));
        assert(line_views(others@) =~= other_lines(board.news(TECHNOLOGY_TAB as int), board.news(ECONOMY_TAB as int)));
    }
    if state.selected_category == WORLD_TAB && others.len() > 0 {
        ListView { header, tabs, list_title, lines, side: SidePanel::OtherCategories, side_lines: others }
    } else {
        proof {
            if state.selected_category == WORLD_TAB {
                assert(line_views(others@).len() == 0);
            }
        }
        let side_lines = history_lines_of(anniversaries);
        ListView { header, tabs, list_title, lines, side: SidePanel::History, side_lines }
    }
}

} // verus!
