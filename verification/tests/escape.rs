use gmi2html::{entity_escape_char, html_escape};

#[test]
fn escape_of_empty_text_is_empty() {
    assert_eq!(html_escape(""), "");
}

#[test]
fn escape_keeps_digits_letters_and_spaces() {
    let text = "The quick brown fox 0123456789 JUMPS over";
    assert_eq!(html_escape(text), text);
}

#[test]
fn escape_keeps_the_symbols_between_upper_and_lower_case() {
    assert_eq!(html_escape("[\\]^_`"), "[\\]^_`");
    assert_eq!(html_escape("A"), "A");
    assert_eq!(html_escape("z"), "z");
}

#[test]
fn escape_replaces_the_neighbours_of_the_kept_ranges() {
    assert_eq!(html_escape("/"), "&#x2F;");
    assert_eq!(html_escape(":"), "&#x3A;");
    assert_eq!(html_escape("@"), "&#x40;");
    assert_eq!(html_escape("{"), "&#x7B;");
    assert_eq!(html_escape("!"), "&#x21;");
}

#[test]
fn escape_replaces_markup_characters() {
    assert_eq!(html_escape("<"), "&#x3C;");
    assert_eq!(html_escape(">"), "&#x3E;");
    assert_eq!(html_escape("&"), "&#x26;");
    assert_eq!(html_escape("\""), "&#x22;");
    assert_eq!(html_escape("'"), "&#x27;");
    assert_eq!(
        html_escape("<a href=\"x\">"),
        "&#x3C;a href&#x3D;&#x22;x&#x22;&#x3E;"
    );
}

#[test]
fn escape_output_has_no_markup_characters() {
    let out = html_escape("a < b > c \" d ' e");
    assert!(!out.contains('<'));
    assert!(!out.contains('>'));
    assert!(!out.contains('"'));
    assert!(!out.contains('\''));
}

#[test]
fn escape_replaces_control_characters() {
    assert_eq!(html_escape("a\nb"), "a&#xA;b");
    assert_eq!(html_escape("\t"), "&#x9;");
    assert_eq!(html_escape("\0"), "&#x0;");
}

#[test]
fn escape_uses_the_code_point_of_characters_beyond_ascii() {
    assert_eq!(html_escape("\u{e9}"), "&#xE9;");
    assert_eq!(html_escape("\u{20ac}"), "&#x20AC;");
    assert_eq!(html_escape("\u{1f600}"), "&#x1F600;");
    assert_eq!(html_escape("\u{10ffff}"), "&#x10FFFF;");
    assert_eq!(html_escape("na\u{ef}ve"), "na&#xEF;ve");
}

#[test]
fn escape_never_shortens() {
    for text in ["", "abc", "a<b", "\u{1f600}\u{1f600}", "x y z", "&&&"] {
        assert!(html_escape(text).chars().count() >= text.chars().count());
    }
}

#[test]
fn entity_of_a_character() {
    assert_eq!(entity_escape_char(&'<'), "&#x3C;");
    assert_eq!(entity_escape_char(&'a'), "&#x61;");
    assert_eq!(entity_escape_char(&'\u{abcd}'), "&#xABCD;");
    assert_eq!(entity_escape_char(&'\u{10}'), "&#x10;");
    assert_eq!(entity_escape_char(&'\u{f}'), "&#xF;");
}
