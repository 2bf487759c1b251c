use karga::app::{AppState, Key, NewsBoard, ViewMode};
use karga::rss::NewsItem;
use karga::screen::{detail_view, list_view, selected_detail, SidePanel};
use karga::wiki::WikiAnniversary;

fn item(title: &str, category: &str) -> NewsItem {
    NewsItem {
        title: title.to_string(),
        link: format!("http://n/{}", title),
        description: "<p>Some <b>text</b></p>".to_string(),
        pub_date: "Mon, 01 Jan 2024 10:00:00 GMT".to_string(),
        source: "NTV".to_string(),
        category: category.to_string(),
    }
}

fn board() -> NewsBoard {
    NewsBoard::from_items(&vec![
        item("h1", "Haber"),
        item("w1", "Dünya"),
        item("h2", "Haber"),
        item("t1", "Teknoloji"),
        item("x", "Elsewhere"),
        item("e1", "Ekonomi"),
    ])
}

#[test]
fn board_groups_by_category_in_order() {
    let b = board();
    assert_eq!(b.count(0), 2);
    assert_eq!(b.items(0)[0].title, "h1");
    assert_eq!(b.items(0)[1].title, "h2");
    assert_eq!(b.count(1), 1);
    assert_eq!(b.count(2), 0);
    assert_eq!(b.count(5), 1);
    assert_eq!(b.count(4), 1);
    let total: usize = (0..10).map(|i| b.count(i)).sum();
    assert_eq!(total, 5);
}

#[test]
fn empty_board() {
    let b = NewsBoard::new();
    for i in 0..10 {
        assert_eq!(b.count(i), 0);
    }
}

#[test]
fn tab_and_backtab_wrap_around() {
    let b = board();
    let mut s = AppState::new();
    s.handle_key(Key::BackTab, &b);
    assert_eq!(s.selected_category, 9);
    s.handle_key(Key::Tab, &b);
    assert_eq!(s.selected_category, 0);
    for _ in 0..10 {
        s.handle_key(Key::Tab, &b);
    }
    assert_eq!(s.selected_category, 0);
}

#[test]
fn tab_resets_selected_article() {
    let b = board();
    let mut s = AppState::new();
    s.handle_key(Key::Down, &b);
    assert_eq!(s.selected_news_index, 1);
    s.handle_key(Key::Tab, &b);
    s.handle_key(Key::BackTab, &b);
    assert_eq!(s.selected_category, 0);
    assert_eq!(s.selected_news_index, 0);
}

#[test]
fn up_down_stay_in_list() {
    let b = board();
    let mut s = AppState::new();
    s.handle_key(Key::Up, &b);
    assert_eq!(s.selected_news_index, 0);
    s.handle_key(Key::Down, &b);
    s.handle_key(Key::Down, &b);
    s.handle_key(Key::Down, &b);
    assert_eq!(s.selected_news_index, 1);
}

#[test]
fn enter_and_esc() {
    let b = board();
    let mut s = AppState::new();
    s.handle_key(Key::Enter, &b);
    assert_eq!(s.view_mode, ViewMode::Detail);
    s.handle_key(Key::Tab, &b);
    assert_eq!(s.selected_category, 0);
    s.handle_key(Key::Esc, &b);
    assert_eq!(s, AppState::new());
}

#[test]
fn enter_on_empty_category_stays_in_list() {
    let b = board();
    let mut s = AppState::new();
    s.handle_key(Key::Char('s'), &b);
    assert_eq!(s.selected_category, 2);
    s.handle_key(Key::Enter, &b);
    assert_eq!(s.view_mode, ViewMode::List);
}

#[test]
fn hotkeys_jump_to_tabs() {
    let b = board();
    let mut s = AppState::new();
    let letters = ['h', 'w', 's', 'p', 'e', 't', 'c', 'a', 'b', 'g'];
    for (i, c) in letters.iter().enumerate() {
        s.handle_key(Key::Enter, &b);
        s.handle_key(Key::Char(*c), &b);
        assert_eq!(s.selected_category, i);
        assert_eq!(s.view_mode, ViewMode::List);
        assert_eq!(s.selected_news_index, 0);
    }
    s.handle_key(Key::Char('1'), &b);
    assert_eq!(s.selected_category, 0);
    s.handle_key(Key::Char('0'), &b);
    assert_eq!(s.selected_category, 9);
    s.handle_key(Key::Char('5'), &b);
    assert_eq!(s.selected_category, 4);
}

#[test]
fn quit_and_refresh_keys() {
    let b = board();
    let mut s = AppState::new();
    assert!(s.handle_key(Key::Char('r'), &b));
    assert!(s.running);
    assert!(!s.handle_key(Key::Char('x'), &b));
    assert!(!s.handle_key(Key::Other, &b));
    s.handle_key(Key::Char('q'), &b);
    assert!(!s.running);
}

#[test]
fn list_view_texts() {
    let b = board();
    let s = AppState::new();
    let anns = vec![WikiAnniversary { year: "1923".to_string(), description: "Republic proclaimed".to_string() }];
    let v = list_view(&s, &b, &vec!["H2".to_string()], &anns, "12:30");
    assert_eq!(
        v.header,
        " KARGA NEWS 12:30 | [Tab] Sonraki | [Enter] Detay | h=Haber w=Dunya s=Spor p=Politika t=Tekno q=Cikis "
    );
    assert_eq!(v.tabs.len(), 10);
    assert_eq!(v.tabs[0].text, "[Haber]");
    assert!(v.tabs[0].selected);
    assert_eq!(v.tabs[1].text, " Dünya ");
    assert!(!v.tabs[1].selected);
    assert_eq!(v.list_title, " Haber (2) ");
    assert_eq!(v.lines.len(), 2);
    assert_eq!(v.lines[0].text, "- h1");
    assert!(v.lines[0].selected);
    assert_eq!(v.lines[1].text, "[+] h2");
    assert!(!v.lines[1].selected);
    assert_eq!(v.side, SidePanel::History);
    assert_eq!(v.side_lines.len(), 1);
    assert_eq!(v.side_lines[0].text, "[1923] Republic proclaimed");
}

#[test]
fn list_view_placeholders() {
    let b = NewsBoard::new();
    let s = AppState::new();
    let v = list_view(&s, &b, &vec![], &vec![], "00:00");
    assert_eq!(v.list_title, " Haber (0) ");
    assert_eq!(v.lines.len(), 1);
    assert_eq!(v.lines[0].text, "Haber yok");
    assert!(v.lines[0].dim);
    assert_eq!(v.side_lines[0].text, "Veri yok");
}

#[test]
fn list_view_world_tab_shows_other_categories() {
    let b = board();
    let mut s = AppState::new();
    s.handle_key(Key::Char('w'), &b);
    let v = list_view(&s, &b, &vec![], &vec![], "00:00");
    assert_eq!(v.side, SidePanel::OtherCategories);
    assert_eq!(v.side_lines.len(), 2);
    assert_eq!(v.side_lines[0].text, "Teknoloji: t1");
    assert_eq!(v.side_lines[1].text, "Ekonomi: e1");
}

#[test]
fn list_view_history_keeps_eight() {
    let b = NewsBoard::new();
    let s = AppState::new();
    let anns: Vec<WikiAnniversary> = (0..12)
        .map(|i| WikiAnniversary { year: format!("{}", 1900 + i), description: "x".repeat(50) })
        .collect();
    let v = list_view(&s, &b, &vec![], &anns, "00:00");
    assert_eq!(v.side_lines.len(), 8);
    assert_eq!(v.side_lines[0].text, format!("[1900] {}...", "x".repeat(37)));
}

#[test]
fn detail_view_texts() {
    let mut it = item("A headline", "Haber");
    it.description = "<p>First   part</p>\n<p>second part</p>".to_string();
    let d = detail_view(&it, 12);
    assert_eq!(d.header, " [Esc] GERI | A headline ");
    assert_eq!(d.title, "A headline");
    assert_eq!(d.meta, "NTV | Mon, 01 Jan 2024 | Haber");
    assert_eq!(d.description, "First\npartsecond\npart");
    assert_eq!(d.link, "http://n/A headline");
}

#[test]
fn selected_detail_only_for_existing_article() {
    let b = board();
    let mut s = AppState::new();
    assert!(selected_detail(&s, &b, 40).is_some());
    s.selected_news_index = 5;
    assert!(selected_detail(&s, &b, 40).is_none());
}
