use imgserver::markdown::{get_after_sep, render, render_bold_italic};

#[test]
fn headings_and_paragraphs() {
    // The emphasis pass stops before the last character, so a final line feed
    // is what it leaves out here.
    let html = render("# Title\nSome text\n## Sub\n".to_string());
    assert_eq!(html, "<h1>Title</h1><p>Some text</p><h2>Sub</h2>");
}

#[test]
fn every_heading_level() {
    let html = render("### c\n#### d\n##### e\n###### f\n####### g\n".to_string());
    assert_eq!(
        html,
        "<h3>c</h3><h4>d</h4><h5>e</h5><h6>f</h6><p>####### g</p>"
    );
}

#[test]
fn last_character_is_dropped_by_the_emphasis_pass() {
    assert_eq!(render("hello".to_string()), "<p>hell</p>");
}

#[test]
fn blank_line_becomes_break() {
    assert_eq!(render("a\n\nb".to_string()), "<p>a</p></br>");
}

#[test]
fn carriage_returns_before_line_feeds_are_dropped() {
    assert_eq!(render("a\r\nb\r\n".to_string()), "<p>a</p><p>b\r</p>");
}

#[test]
fn bold_toggle_sees_second_star_again() {
    assert_eq!(
        render_bold_italic("**a**".to_string()),
        Some("<strong><em>a</strong>".to_string())
    );
    assert_eq!(render("**a**".to_string()), "<p><strong><em>a</strong></p>");
}

#[test]
fn italic_toggle() {
    assert_eq!(render_bold_italic("*x*y".to_string()), Some("<em>x</em>".to_string()));
}

#[test]
fn star_at_the_end_fails_the_emphasis_pass() {
    // Two characters, three bytes: the star is visited and has no successor.
    assert_eq!(render_bold_italic("\u{e9}*".to_string()), None);
    assert_eq!(render("\u{e9}*".to_string()), "<p>\u{e9}*</p>");
}

#[test]
fn wide_characters_keep_the_last_character() {
    assert_eq!(render_bold_italic("a\u{e9}".to_string()), Some("a\u{e9}".to_string()));
    // Three two-byte characters: the pass runs past the end and fails.
    assert_eq!(render_bold_italic("\u{e9}\u{e9}\u{e9}".to_string()), None);
    assert_eq!(render("\u{e9}\u{e9}\u{e9}".to_string()), "<p>\u{e9}\u{e9}\u{e9}</p>");
}

#[test]
fn after_separator() {
    assert_eq!(get_after_sep("## ", "## Hi ## there"), "Hi ## there");
    assert_eq!(get_after_sep("x", "abc"), "");
    assert_eq!(get_after_sep("b", "abcabc"), "cabc");
    assert_eq!(get_after_sep("", "abc"), "abc");
}

#[test]
fn empty_text_gives_empty_page() {
    assert_eq!(render_bold_italic(String::new()), None);
    assert_eq!(render(String::new()), "");
}
