use gmi2html::{accepts, gmi2html, try_gmi2html};

#[test]
fn correct_list_tags() {
    let html = gmi2html(
        "line 1
* line 2
* line 3
line 4
* line 5
line 6",
    );
    assert_eq!(html, "<p>line 1</p><ul><li>line 2</li><li>line 3</li></ul><p>line 4</p><ul><li>line 5</li></ul><p>line 6</p>".to_string())
}

#[test]
fn empty_document_gives_no_output() {
    assert_eq!(gmi2html(""), "");
}

#[test]
fn headings_links_and_quotes_are_parsed() {
    let html = gmi2html("# Title\n## Sub\n=> page Go home\n=> other\n> said\n> twice");
    assert_eq!(
        html,
        "<h1>Title</h1><h2>Sub</h2><p><a href=\"page\">Go home</a></p><p><a href=\"other\">other</a></p><blockquote><blockquote>said</blockquote><blockquote>twice</blockquote></blockquote>"
    );
}

#[test]
fn preformatted_block_is_one_node() {
    let html = gmi2html("```\n* a\n* b\n```\ntext");
    assert_eq!(html, "<pre>&#x2A; a&#xA;&#x2A; b</pre><p>text</p>");
}

#[test]
fn link_lines_with_a_target_are_accepted() {
    assert!(accepts(""));
    assert!(accepts("plain text"));
    assert!(accepts("=> page"));
    assert!(accepts("=>page"));
    assert!(accepts("=> \t page name"));
    assert!(accepts("one\n=> two\nthree"));
    assert!(accepts("="));
    assert!(accepts("=\n>"));
    assert!(accepts(" =>"));
    assert!(accepts("a=>"));
}

#[test]
fn link_lines_without_a_target_are_refused() {
    assert!(!accepts("=>"));
    assert!(!accepts("=> "));
    assert!(!accepts("=> \t\x0C "));
    assert!(!accepts("=>\n"));
    assert!(!accepts("=>\r\n"));
    assert!(!accepts("one\n=>\nthree"));
    assert!(!accepts("one\n=> page\n=>  "));
    assert!(!accepts("=>\n=> page"));
}

#[test]
fn preformatted_blocks_may_hold_any_line() {
    assert!(accepts("```\n=>\n```"));
    assert!(accepts("```alt text\n=>\n=> \n```\n=> page"));
    assert!(!accepts("```\n=>\n```\n=>"));
    assert!(!accepts("```\n```\n=> "));
    assert!(!accepts("``\n=>"));
    assert!(!accepts(" ```\n=>"));
    assert!(accepts("```\n```\n```\n=>"));
    assert_eq!(gmi2html("```\n=>\n```"), "<pre>&#x3D;&#x3E;</pre>");
}

#[test]
fn link_target_of_other_white_space_is_read() {
    assert!(accepts("=>\u{a0}"));
    assert_eq!(gmi2html("=>\u{a0}"), "<p><a href=\"\"></a></p>");
}

#[test]
fn accepted_text_is_converted() {
    let text = "# News\n=> gemini://example.org/ Example\n* one\n* two\n> quoted";
    assert!(accepts(text));
    assert_eq!(
        gmi2html(text),
        "<h1>News</h1><p><a href=\"gemini&#x3A;&#x2F;&#x2F;example&#x2E;org&#x2F;\">Example</a></p><ul><li>one</li><li>two</li></ul><blockquote><blockquote>quoted</blockquote></blockquote>"
    );
}

#[test]
fn conversion_is_refused_with_the_text() {
    assert_eq!(try_gmi2html("=>"), None);
    assert_eq!(try_gmi2html("a\n=> \nb"), None);
    assert_eq!(try_gmi2html("* a\n=> b"), Some("<ul><li>a</li></ul><p><a href=\"b\">b</a></p>".to_string()));
    assert_eq!(try_gmi2html(""), Some(String::new()));
}
