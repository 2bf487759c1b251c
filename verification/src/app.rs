//! The reader's screen state: the news grouped by category, and how keys move
//! between categories, articles and the two views.
use vstd::prelude::*;
use crate::config::CATEGORIES;
use crate::rss::NewsItem;

verus! {

broadcast use vstd::string::group_string_axioms;

/// How many categories there are.
pub const CATEGORY_COUNT: usize = 10;

/// Whether a news item belongs to the category named `c`.
pub open spec fn in_category(c: Seq<char>) -> spec_fn(NewsItem) -> bool {
    |n: NewsItem| n.category@ == c
}

/// The name of category `i`.
pub open spec fn category_name(i: int) -> Seq<char> {
    CATEGORIES@[i]@
}

/// A copy of a news item.
pub fn copy_item(n: &NewsItem) -> (c: NewsItem)
    ensures
        c == *n,
{
    NewsItem {
        title: n.title.clone(),
        link: n.link.clone(),
        description: n.description.clone(),
        pub_date: n.pub_date.clone(),
        source: n.source.clone(),
        category: n.category.clone(),
    }
}

/// The fetched news, one list per category in the order of `CATEGORIES`. News of
/// a category that is not listed is not shown and is not kept.
pub struct NewsBoard {
    by_category: Vec<Vec<NewsItem>>,
}

impl NewsBoard {
    /// The news of category `i`, in the order they were fetched.
    pub closed spec fn news(&self, i: int) -> Seq<NewsItem> {
        self.by_category@[i]@
    }

    /// One list per category.
    pub closed spec fn wf(&self) -> bool {
        self.by_category@.len() == CATEGORY_COUNT
    }

    /// A board with no news.
    pub fn new() -> (b: Self)
        ensures
            b.wf(),
            forall|i: int| 0 <= i < CATEGORY_COUNT ==> #[trigger] b.news(i).len() == 0,
    {
        let mut by_category: Vec<Vec<NewsItem>> = Vec::new();
        for i in 0..CATEGORY_COUNT
            invariant
                by_category@.len() == i,
                forall|k: int| 0 <= k < i ==> #[trigger] by_category@[k]@.len() == 0,
        {
            by_category.push(Vec::new());
        }
        NewsBoard { by_category }
    }

    /// Groups fetched news by category, each group in fetch order.
    pub fn from_items(items: &Vec<NewsItem>) -> (b: Self)
        ensures
            b.wf(),
            forall|i: int|
                0 <= i < CATEGORY_COUNT ==> #[trigger] b.news(i) == items@.filter(
                    in_category(category_name(i)),
                ),
            forall|i: int, x: NewsItem|
                0 <= i < CATEGORY_COUNT ==> (#[trigger] b.news(i).contains(x) <==> items@.contains(x) && x.category@
                    == CATEGORIES@[i]@),
    {
        let mut by_category: Vec<Vec<NewsItem>> = Vec::new();
        for c in 0..CATEGORY_COUNT
            invariant
                by_category@.len() == c,
                forall|k: int|
                    0 <= k < c ==> #[trigger] by_category@[k]@ == items@.filter(in_category(category_name(k))),
        {
            let name = crate::text::chars_of(CATEGORIES[c]);
            let mut group: Vec<NewsItem> = Vec::new();
            let n = items.len();
            for j in 0..n
                invariant
                    n == items@.len(),
                    c < CATEGORY_COUNT,
                    name@ == category_name(c as int),
                    group@ == items@.take(j as int).filter(in_category(category_name(c as int))),
            {
                let cat = crate::text::chars_of(items[j].category.as_str());
                proof {
                    reveal_with_fuel(Seq::filter, 1);
                    assert(items@.take(j + 1).drop_last() == items@.take(j as int));
                }
                if crate::text::chars_equal(cat.as_slice(), name.as_slice()) {
                    group.push(copy_item(&items[j]));
                }
            }
            assert(items@.take(n as int) == items@);
            by_category.push(group);
        }
        let b = NewsBoard { by_category };
        proof {
            assert forall|i: int, x: NewsItem|
                0 <= i < CATEGORY_COUNT implies (#[trigger] b.news(i).contains(x) <==> items@.contains(x) && x.category@
                    == CATEGORIES@[i]@) by {
                b.lemma_news_of_category(items@, i);
            }
        }
        b
    }

    /// A category's list holds exactly the fetched news of that category: each of
    /// its news carries the category's name, and every fetched news of that name is
    /// in it.
    pub proof fn lemma_news_of_category(&self, items: Seq<NewsItem>, i: int)
        requires
            0 <= i < CATEGORY_COUNT,
            self.news(i) == items.filter(in_category(category_name(i))),
        ensures
            forall|x: NewsItem| #[trigger] self.news(i).contains(x) <==> items.contains(x) && x.category@ == CATEGORIES@[i]@,
    {
        broadcast use vstd::seq_lib::group_filter_ensures;
        let pred = in_category(category_name(i));
        assert forall|x: NewsItem| #[trigger] self.news(i).contains(x) <==> items.contains(x) && x.category@ == CATEGORIES@[i]@ by {
            if self.news(i).contains(x) {
                items.lemma_filter_contains_rev(pred, x);
                let k = choose|k: int| 0 <= k < self.news(i).len() && self.news(i)[k] == x;
                assert(pred(self.news(i)[k]));
            }
            if items.contains(x) && x.category@ == CATEGORIES@[i]@ {
                let k = choose|k: int| 0 <= k < items.len() && items[k] == x;
                assert(pred(items[k]));
            }
        }
    }

    /// How many news category `i` holds.
    pub fn count(&self, i: usize) -> (n: usize)
        requires
            self.wf(),
            i < CATEGORY_COUNT,
        ensures
            n == self.news(i as int).len(),
    {
        self.by_category[i].len()
    }

    /// The news of category `i`.
    pub fn items(&self, i: usize) -> (v: &Vec<NewsItem>)
        requires
            self.wf(),
            i < CATEGORY_COUNT,
        ensures
            v@ == self.news(i as int),
    {
        &self.by_category[i]
    }
}

/// Which of the two screens is shown.
#[derive(Clone, Copy, Debug, PartialEq, Eq, Structural)]
pub enum ViewMode {
    /// The tabs, the list of the selected category and the side panel.
    List,
    /// The selected article in full.
    Detail,
}

/// A key press, as far as the reader tells keys apart.
#[derive(Clone, Copy, Debug, PartialEq, Eq)]
pub enum Key {
    Char(char),
    Tab,
    BackTab,
    Enter,
    Esc,
    Up,
    Down,
    Other,
}

/// What the reader shows and whether it keeps running.
#[derive(Clone, Copy, Debug, PartialEq, Eq)]
pub struct AppState {
    pub selected_category: usize,
    pub selected_news_index: usize,
    pub view_mode: ViewMode,
    pub running: bool,
}

/// The category a letter key jumps to: h w s p e t c a b g, in the order of the
/// tabs.
pub open spec fn letter_category(c: char) -> Option<nat> {
    if c == 'h' { Some(0) }
    else if c == 'w' { Some(1) }
    else if c == 's' { Some(2) }
    else if c == 'p' { Some(3) }
    else if c == 'e' { Some(4) }
    else if c == 't' { Some(5) }
    else if c == 'c' { Some(6) }
    else if c == 'a' { Some(7) }
    else if c == 'b' { Some(8) }
    else if c == 'g' { Some(9) }
    else { None }
}

/// The category a digit key jumps to: 1 to 9 for the first nine tabs, 0 for the
/// tenth.
pub open spec fn digit_category(c: char) -> Option<nat> {
    if '0' <= c && c <= '9' {
        let d = (c as int - '0' as int) as nat;
        if d == 0 { Some(9) } else { Some((d - 1) as nat) }
    } else {
        None
    }
}

/// The state after a key press and whether the news are to be fetched again now,
/// when the selected category holds `count` news.
pub open spec fn after_key(s: AppState, key: Key, count: nat) -> (AppState, bool) {
    let list = s.view_mode == ViewMode::List;
    let jump = |i: nat| AppState { selected_category: i as usize, selected_news_index: 0, view_mode: ViewMode::List, running: s.running };
    match key {
        Key::Char(c) => if c == 'q' {
            (AppState { running: false, ..s }, false)
        } else if c == 'r' {
            (s, true)
        } else if letter_category(c) is Some {
            (jump(letter_category(c).unwrap()), false)
        } else if digit_category(c) is Some {
            (jump(digit_category(c).unwrap()), false)
        } else {
            (s, false)
        },
        Key::Tab => if list {
            (AppState { selected_category: ((s.selected_category + 1) % (CATEGORY_COUNT as int)) as usize, selected_news_index: 0, ..s }, false)
        } else {
            (s, false)
        },
        Key::BackTab => if list {
            (AppState {
                selected_category: if s.selected_category == 0 { (CATEGORY_COUNT - 1) as usize } else { (s.selected_category - 1) as usize },
                selected_news_index: 0,
                ..s
            }, false)
        } else {
            (s, false)
        },
        Key::Enter => if list && count > 0 && s.selected_news_index < count {
            (AppState { view_mode: ViewMode::Detail, ..s }, false)
        } else {
            (s, false)
        },
        Key::Esc => (AppState { view_mode: ViewMode::List, ..s }, false),
        Key::Up => if list && s.selected_news_index > 0 {
            (AppState { selected_news_index: (s.selected_news_index - 1) as usize, ..s }, false)
        } else {
            (s, false)
        },
        Key::Down => if list && s.selected_news_index + 1 < count {
            (AppState { selected_news_index: (s.selected_news_index + 1) as usize, ..s }, false)
        } else {
            (s, false)
        },
        Key::Other => (s, false),
    }
}

fn letter_category_of(c: char) -> (r: Option<usize>)
    ensures
        match letter_category(c) {
            Some(i) => r == Some(i as usize),
            None => r is None,
        },
{
    if c == 'h' { Some(0) }
    else if c == 'w' { Some(1) }
    else if c == 's' { Some(2) }
    else if c == 'p' { Some(3) }
    else if c == 'e' { Some(4) }
    else if c == 't' { Some(5) }
    else if c == 'c' { Some(6) }
    else if c == 'a' { Some(7) }
    else if c == 'b' { Some(8) }
    else if c == 'g' { Some(9) }
    else { None }
}

fn digit_category_of(c: char) -> (r: Option<usize>)
    ensures
        match digit_category(c) {
            Some(i) => r == Some(i as usize),
            None => r is None,
        },
{
    if '0' <= c && c <= '9' {
        let d = (c as u32) - ('0' as u32);
        if d == 0 { Some(9) } else { Some((d - 1) as usize) }
    } else {
        None
    }
}

/// What each navigation key does, field by field. In the list view Tab selects
/// the next tab (after the last, the first) and Shift+Tab the previous one (before
/// the first, the last), each at its first article; Up and Down move the
/// selection by one inside the list; Enter opens the selected article when the
/// list holds it; Esc returns to the list. In the detail view Tab, Shift+Tab, Up
/// and Down change nothing. None of them asks for a refresh or stops the reader.
pub proof fn lemma_navigation_keys(s: AppState, count: nat)
    requires
        s.wf(),
        count <= usize::MAX,
    ensures
        s.view_mode == ViewMode::List ==> {
            let t = after_key(s, Key::Tab, count).0;
            &&& t.selected_category == (s.selected_category + 1) % 10
            &&& t.selected_news_index == 0
            &&& t.view_mode == ViewMode::List
            &&& t.running == s.running
        },
        s.view_mode == ViewMode::List ==> {
            let t = after_key(s, Key::BackTab, count).0;
            &&& t.selected_category == (s.selected_category + 9) % 10
            &&& t.selected_news_index == 0
            &&& t.view_mode == ViewMode::List
            &&& t.running == s.running
        },
        s.view_mode == ViewMode::List ==> {
            let t = after_key(s, Key::Down, count).0;
            &&& t.selected_category == s.selected_category
            &&& t.selected_news_index == (if s.selected_news_index + 1 < count { s.selected_news_index + 1 } else { s.selected_news_index as int })
            &&& t.view_mode == ViewMode::List
            &&& t.running == s.running
        },
        s.view_mode == ViewMode::List ==> {
            let t = after_key(s, Key::Up, count).0;
            &&& t.selected_category == s.selected_category
            &&& t.selected_news_index == (if s.selected_news_index > 0 { s.selected_news_index - 1 } else { 0 })
            &&& t.view_mode == ViewMode::List
            &&& t.running == s.running
        },
        s.view_mode == ViewMode::List ==> {
            let t = after_key(s, Key::Enter, count).0;
            &&& t.selected_category == s.selected_category
            &&& t.selected_news_index == s.selected_news_index
            &&& (t.view_mode == ViewMode::Detail <==> s.selected_news_index < count)
            &&& t.running == s.running
        },
        s.view_mode == ViewMode::Detail ==> after_key(s, Key::Tab, count).0 == s
            && after_key(s, Key::BackTab, count).0 == s && after_key(s, Key::Up, count).0 == s
            && after_key(s, Key::Down, count).0 == s && after_key(s, Key::Enter, count).0 == s,
        after_key(s, Key::Esc, count).0.view_mode == ViewMode::List,
        after_key(s, Key::Esc, count).0.selected_category == s.selected_category,
        after_key(s, Key::Esc, count).0.selected_news_index == s.selected_news_index,
        after_key(s, Key::Esc, count).0.running == s.running,
        !after_key(s, Key::Tab, count).1 && !after_key(s, Key::BackTab, count).1
            && !after_key(s, Key::Up, count).1 && !after_key(s, Key::Down, count).1
            && !after_key(s, Key::Enter, count).1 && !after_key(s, Key::Esc, count).1,
{
}

/// The letter keys of the tabs, in tab order.
pub open spec fn tab_letters() -> Seq<char> {
    seq!['h', 'w', 's', 'p', 'e', 't', 'c', 'a', 'b', 'g']
}

/// The digit keys of the tabs, in tab order.
pub open spec fn tab_digits() -> Seq<char> {
    seq!['1', '2', '3', '4', '5', '6', '7', '8', '9', '0']
}

/// The hot keys, tab by tab: the letters h w s p e t c a b g open tabs 1 to 10, the
/// digits 1 to 9 open tabs 1 to 9 and the digit 0 the tenth, always in the list
/// view at the first article.
pub proof fn lemma_hotkey_table(s: AppState, count: nat)
    ensures
        forall|i: int|
            0 <= i < 10 ==> #[trigger] after_key(s, Key::Char(tab_letters()[i]), count)
                == (AppState { selected_category: i as usize, selected_news_index: 0, view_mode: ViewMode::List, running: s.running }, false),
        forall|i: int|
            0 <= i < 10 ==> #[trigger] after_key(s, Key::Char(tab_digits()[i]), count)
                == (AppState { selected_category: i as usize, selected_news_index: 0, view_mode: ViewMode::List, running: s.running }, false),
{
    let letters = tab_letters();
    let digits = tab_digits();
    assert forall|i: int| 0 <= i < 10 implies #[trigger] after_key(s, Key::Char(letters[i]), count)
        == (AppState { selected_category: i as usize, selected_news_index: 0, view_mode: ViewMode::List, running: s.running }, false) by {
        if i == 0 {} else if i == 1 {} else if i == 2 {} else if i == 3 {} else if i == 4 {}
        else if i == 5 {} else if i == 6 {} else if i == 7 {} else if i == 8 {} else {}
    }
    assert forall|i: int| 0 <= i < 10 implies #[trigger] after_key(s, Key::Char(digits[i]), count)
        == (AppState { selected_category: i as usize, selected_news_index: 0, view_mode: ViewMode::List, running: s.running }, false) by {
        if i == 0 {} else if i == 1 {} else if i == 2 {} else if i == 3 {} else if i == 4 {}
        else if i == 5 {} else if i == 6 {} else if i == 7 {} else if i == 8 {} else {}
    }
}

/// The letter `q` stops the reader and changes nothing else; the letter `r` asks
/// for the news to be fetched again now and changes nothing.
pub proof fn lemma_quit_and_refresh(s: AppState, count: nat)
    ensures
        after_key(s, Key::Char('q'), count).0 == (AppState { running: false, ..s }),
        !after_key(s, Key::Char('q'), count).1,
        after_key(s, Key::Char('r'), count).0 == s,
        after_key(s, Key::Char('r'), count).1,
{
}

/// In the list view, Shift+Tab undoes Tab: back on the same tab, at its first
/// article.
pub proof fn lemma_tab_then_backtab(s: AppState, c1: nat, c2: nat)
    requires
        s.wf(),
        s.view_mode == ViewMode::List,
    ensures
        after_key(after_key(s, Key::Tab, c1).0, Key::BackTab, c2).0 == (AppState { selected_news_index: 0, ..s }),
{
}

/// In the list view, Tab undoes Shift+Tab: back on the same tab, at its first
/// article.
pub proof fn lemma_backtab_then_tab(s: AppState, c1: nat, c2: nat)
    requires
        s.wf(),
        s.view_mode == ViewMode::List,
    ensures
        after_key(after_key(s, Key::BackTab, c1).0, Key::Tab, c2).0 == (AppState { selected_news_index: 0, ..s }),
{
}

/// Esc always leads back to the list view; when Enter opened an article, Esc
/// returns to exactly the list state it was opened from.
pub proof fn lemma_enter_then_esc(s: AppState, count: nat)
    requires
        s.view_mode == ViewMode::List,
    ensures
        forall|k: Key, c: nat| #[trigger] after_key(s, k, c).0.view_mode == ViewMode::Detail ==> k == Key::Enter,
        after_key(after_key(s, Key::Esc, count).0, Key::Esc, count).0.view_mode == ViewMode::List,
        after_key(s, Key::Enter, count).0.view_mode == ViewMode::Detail ==> after_key(
            after_key(s, Key::Enter, count).0,
            Key::Esc,
            count,
        ).0 == s,
{
}

/// The detail view opens only on an article the selected category holds, and
/// moving up and down keeps the selection on an article of the list.
pub proof fn lemma_selection_in_range(s: AppState, k: Key, count: nat)
    requires
        s.view_mode == ViewMode::List,
    ensures
        after_key(s, k, count).0.view_mode == ViewMode::Detail ==> s.selected_news_index < count,
        (k == Key::Up || k == Key::Down) && s.selected_news_index < count ==> after_key(s, k, count).0.selected_news_index < count,
{
}

/// Each letter key h w s p e t c a b g, and each digit, opens its tab in the list
/// view at its first article, from any state.
pub proof fn lemma_hotkeys(s: AppState, c: char, count: nat)
    requires
        letter_category(c) is Some || digit_category(c) is Some,
    ensures
        after_key(s, Key::Char(c), count).0.view_mode == ViewMode::List,
        after_key(s, Key::Char(c), count).0.selected_news_index == 0,
        after_key(s, Key::Char(c), count).0.selected_category < CATEGORY_COUNT,
        letter_category(c) is Some ==> after_key(s, Key::Char(c), count).0.selected_category == letter_category(c).unwrap(),
{
}

impl AppState {
    /// The selected category is one of the tabs.
    pub open spec fn wf(&self) -> bool {
        self.selected_category < CATEGORY_COUNT
    }

    /// The first tab, its first article, in the list view, running.
    pub fn new() -> (s: Self)
        ensures
            s.wf(),
            s == (AppState { selected_category: 0, selected_news_index: 0, view_mode: ViewMode::List, running: true }),
    {
        AppState { selected_category: 0, selected_news_index: 0, view_mode: ViewMode::List, running: true }
    }

    /// Applies a key press, as `after_key` says, with the news of `board`; returns
    /// whether the news are to be fetched again now.
    pub fn handle_key(&mut self, key: Key, board: &NewsBoard) -> (refresh: bool)
        requires
            old(self).wf(),
            board.wf(),
        ensures
            final(self).wf(),
            (*final(self), refresh) == after_key(*old(self), key, board.news(old(self).selected_category as int).len()),
    {
        let count = board.count(self.selected_category);
        let list = self.view_mode == ViewMode::List;
        match key {
            Key::Char(c) => {
                if c == 'q' {
                    self.running = false;
                } else if c == 'r' {
                    return true;
                } else if let Some(i) = letter_category_of(c) {
                    self.selected_category = i;
                    self.selected_news_index = 0;
                    self.view_mode = ViewMode::List;
                } else if let Some(i) = digit_category_of(c) {
                    self.selected_category = i;
                    self.selected_news_index = 0;
                    self.view_mode = ViewMode::List;
                }
            },
            Key::Tab => {
                if list {
                    self.selected_category = (self.selected_category + 1) % CATEGORY_COUNT;
                    self.selected_news_index = 0;
                }
            },
            Key::BackTab => {
                if list {
                    self.selected_category = if self.selected_category == 0 {
                        CATEGORY_COUNT - 1
                    } else {
                        self.selected_category - 1
                    };
                    self.selected_news_index = 0;
                }
            },
            Key::Enter => {
                if list && count > 0 && self.selected_news_index < count {
                    self.view_mode = ViewMode::Detail;
                }
            },
            Key::Esc => {
                self.view_mode = ViewMode::List;
            },
            Key::Up => {
                if list && self.selected_news_index > 0 {
                    self.selected_news_index = self.selected_news_index - 1;
                }
            },
            Key::Down => {
                if list && count > 0 && self.selected_news_index < count - 1 {
                    self.selected_news_index = self.selected_news_index + 1;
                }
            },
            Key::Other => {},
        }
        false
    }
}

} // verus!
