use karga::wiki::{
    anniversaries_from_html, anniversaries_from_items, anniversary_page_url, extract_keywords_from_html,
    get_base_keywords, keyword_page_urls, keywords_from_pages, month_name_of, sorted_unique,
};

#[test]
fn base_keywords_in_order() {
    let kws = get_base_keywords();
    assert_eq!(kws.len(), 107);
    assert_eq!(kws[0], "invasion");
    assert_eq!(kws[1], "military intervention");
    assert_eq!(kws[106], "division");
    assert_eq!(kws.iter().filter(|k| k.as_str() == "slavery").count(), 2);
}

#[test]
fn extract_keywords_from_html_finds_keywords_ignoring_case() {
    let found = extract_keywords_from_html("<p>The WAR ended with a Peace Treaty signed by the King.</p>");
    assert_eq!(found, vec!["war", "peace", "treaty", "king"]);
}

#[test]
fn extract_keywords_from_html_nothing_found() {
    assert!(extract_keywords_from_html("<p>lorem ipsum</p>").is_empty());
}

#[test]
fn anniversaries_from_items_keeps_lines_with_a_year() {
    let texts = vec![
        "1923 – Republic of Turkey proclaimed".to_string(),
        "no year here".to_string(),
        "1453 - Constantinople falls".to_string(),
        "In 1969 men walked on the Moon".to_string(),
    ];
    let anns = anniversaries_from_items(&texts);
    assert_eq!(anns.len(), 3);
    assert_eq!(anns[0].year, "1923");
    assert_eq!(anns[0].description, "Republic of Turkey proclaimed");
    assert_eq!(anns[1].year, "1453");
    assert_eq!(anns[1].description, "Constantinople falls");
    assert_eq!(anns[2].year, "1969");
    assert_eq!(anns[2].description, "In 1969 men walked on the Moon");
}

#[test]
fn anniversaries_from_html_reads_list_items() {
    let html = "<html><body><p>1900 not a list</p><ul><li>1969 – Moon landing</li><li>Nothing</li></ul></body></html>";
    let anns = anniversaries_from_html(html);
    assert_eq!(anns.len(), 1);
    assert_eq!(anns[0].year, "1969");
    assert_eq!(anns[0].description, "Moon landing");
}

#[test]
fn anniversaries_from_html_without_lists() {
    assert!(anniversaries_from_html("<p>1969 – Moon landing</p>").is_empty());
}

#[test]
fn month_names() {
    assert_eq!(month_name_of(0), "January");
    assert_eq!(month_name_of(11), "December");
}

#[test]
fn anniversary_page_url_format() {
    assert_eq!(
        anniversary_page_url(0, 5),
        "https://en.wikipedia.org/wiki/Wikipedia:Selected_anniversaries/January_5"
    );
    assert_eq!(
        anniversary_page_url(9, 29),
        "https://en.wikipedia.org/wiki/Wikipedia:Selected_anniversaries/October_29"
    );
}

#[test]
fn keyword_page_urls_cover_three_months() {
    let urls = keyword_page_urls();
    assert_eq!(urls.len(), 84);
    assert!(urls[0].ends_with("/January_1"));
    assert!(urls[27].ends_with("/January_28"));
    assert!(urls[28].ends_with("/February_1"));
    assert!(urls[83].ends_with("/March_28"));
}

#[test]
fn sorted_unique_sorts_and_dedups() {
    let v = vec!["b".to_string(), "a".to_string(), "b".to_string(), "ab".to_string(), "B".to_string()];
    assert_eq!(sorted_unique(&v), vec!["B", "a", "ab", "b"]);
}

#[test]
fn keywords_from_pages_is_sorted_base_list() {
    let none = keywords_from_pages(&vec![]);
    let mut expected: Vec<String> = get_base_keywords();
    expected.sort();
    expected.dedup();
    assert_eq!(none, expected);
    assert_eq!(none.len(), 106);
    assert_eq!(none[0], "abolition");
    assert_eq!(none[105], "war");
}

#[test]
fn keywords_from_pages_do_not_depend_on_pages() {
    let a = keywords_from_pages(&vec![]);
    let b = keywords_from_pages(&vec!["<p>war and peace</p>".to_string(), "nothing".to_string()]);
    assert_eq!(a, b);
}
