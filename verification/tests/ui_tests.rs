use karga::ui::{clean_html, matches_keywords, parse_color, safe_truncate, wrap_text, ThemeColor};

#[test]
fn safe_truncate_keeps_short_text() {
    assert_eq!(safe_truncate("hello", 10), "hello");
    assert_eq!(safe_truncate("hello", 5), "hello");
}

#[test]
fn safe_truncate_cuts_with_dots() {
    assert_eq!(safe_truncate("hello world", 8), "hello...");
}

#[test]
fn safe_truncate_counts_characters_not_bytes() {
    assert_eq!(safe_truncate("çğüşöıçğüş", 6), "çğü...");
    assert_eq!(safe_truncate("çğüş", 4), "çğüş");
}

#[test]
fn safe_truncate_small_limits_give_only_dots() {
    assert_eq!(safe_truncate("abcdef", 2), "...");
    assert_eq!(safe_truncate("abcdef", 0), "...");
    assert_eq!(safe_truncate("abcd", 3), "...");
}

#[test]
fn safe_truncate_is_idempotent() {
    for max in 0..12 {
        let once = safe_truncate("a rather long headline", max);
        assert_eq!(safe_truncate(&once, max), once);
        assert!(once.chars().count() <= max.max(3));
    }
}

#[test]
fn wrap_text_keeps_short_text() {
    assert_eq!(wrap_text("short  text", 20), "short  text");
}

#[test]
fn wrap_text_breaks_lines() {
    assert_eq!(wrap_text("aaa bbb ccc", 7), "aaa bbb\nccc");
}

#[test]
fn wrap_text_long_first_word_starts_with_break() {
    assert_eq!(wrap_text("abcdefghij k", 5), "\nabcdefghij\nk");
}

#[test]
fn wrap_text_collapses_white_space_between_words() {
    assert_eq!(wrap_text("one\t\ttwo   three four", 10), "one two\nthree four");
}

#[test]
fn wrap_text_keeps_the_words() {
    let text = "The quick  brown fox\njumps over the lazy dog";
    let wrapped = wrap_text(text, 9);
    let a: Vec<&str> = wrapped.split_whitespace().collect();
    let b: Vec<&str> = text.split_whitespace().collect();
    assert_eq!(a, b);
}

#[test]
fn clean_html_strips_tags_and_line_breaks() {
    assert_eq!(clean_html("<p>Hello</p>\n<b>World</b>  !"), "HelloWorld !");
}

#[test]
fn clean_html_collapses_unicode_white_space() {
    assert_eq!(clean_html("a \t\u{a0} b"), "a b");
    assert_eq!(clean_html("  x  "), "x");
    assert_eq!(clean_html("first<br/>  second\r\nthird"), "first secondthird");
}

#[test]
fn clean_html_empty_and_only_tags() {
    assert_eq!(clean_html(""), "");
    assert_eq!(clean_html("<div><img src=\"x\"></div>"), "");
}

#[test]
fn clean_html_output_is_tidy() {
    let out = clean_html("  <p>a  b</p>  <p> c </p> > d ");
    assert!(!out.contains('<') && !out.contains('>'));
    assert!(!out.contains("  "));
    assert_eq!(out, out.trim());
    assert_eq!(out, "a b c d");
}

#[test]
fn matches_keywords_ignores_case() {
    let kws = vec!["war".to_string()];
    assert!(matches_keywords("WAR in Europe", &kws));
    assert!(matches_keywords("Warsaw news", &kws));
    assert!(!matches_keywords("Peace talks", &kws));
}

#[test]
fn matches_keywords_empty_list_never_matches() {
    assert!(!matches_keywords("anything", &[]));
}

#[test]
fn matches_keywords_only_first_hundred() {
    let mut kws: Vec<String> = (0..100).map(|i| format!("zz{}zz", i)).collect();
    kws.push("election".to_string());
    assert!(!matches_keywords("Election day", &kws));
    kws.insert(0, "election".to_string());
    assert!(matches_keywords("Election day", &kws));
}

#[test]
fn matches_keywords_empty_keyword_matches_everything() {
    assert!(matches_keywords("x", &["".to_string()]));
}

#[test]
fn parse_color_reads_hex() {
    assert_eq!(parse_color("#0a1628"), ThemeColor::Rgb(10, 22, 40));
    assert_eq!(parse_color("#4a90d9"), ThemeColor::Rgb(74, 144, 217));
    assert_eq!(parse_color("#4A90D9"), ThemeColor::Rgb(74, 144, 217));
}

#[test]
fn parse_color_bad_components_are_zero() {
    assert_eq!(parse_color("#zz00ff"), ThemeColor::Rgb(0, 0, 255));
    assert_eq!(parse_color("#+a0000"), ThemeColor::Rgb(10, 0, 0));
}

#[test]
fn parse_color_other_text_is_white() {
    assert_eq!(parse_color("white"), ThemeColor::White);
    assert_eq!(parse_color("#fff"), ThemeColor::White);
    assert_eq!(parse_color("0a1628a"), ThemeColor::White);
}
