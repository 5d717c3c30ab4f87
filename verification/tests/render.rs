use gmi2html::{nodes2html, Node, RunState};

fn text(body: &str) -> Node {
    Node::Text(body.to_string())
}

fn item(body: &str) -> Node {
    Node::ListItem(body.to_string())
}

fn quote(body: &str) -> Node {
    Node::Quote(body.to_string())
}

#[test]
fn no_nodes_give_no_output() {
    assert_eq!(nodes2html(vec![]), "");
}

#[test]
fn lists_between_paragraphs() {
    let nodes = vec![
        text("line 1"),
        item("line 2"),
        item("line 3"),
        text("line 4"),
        item("line 5"),
        text("line 6"),
    ];
    assert_eq!(
        nodes2html(nodes),
        "<p>line 1</p><ul><li>line 2</li><li>line 3</li></ul><p>line 4</p><ul><li>line 5</li></ul><p>line 6</p>"
    );
}

#[test]
fn heading_of_level_two() {
    let nodes = vec![Node::Heading { level: 2, body: "Hi".to_string() }];
    assert_eq!(nodes2html(nodes), "<h2>Hi</h2>");
}

#[test]
fn heading_level_is_written_as_given() {
    let nodes = vec![
        Node::Heading { level: 0, body: "a".to_string() },
        Node::Heading { level: 10, body: "b".to_string() },
        Node::Heading { level: 255, body: "c".to_string() },
    ];
    assert_eq!(nodes2html(nodes), "<h0>a</h0><h10>b</h10><h255>c</h255>");
}

#[test]
fn link_without_a_name_shows_its_target() {
    let nodes = vec![Node::Link { to: "https://example.com".to_string(), name: None }];
    assert_eq!(
        nodes2html(nodes),
        "<p><a href=\"https&#x3A;&#x2F;&#x2F;example&#x2E;com\">https&#x3A;&#x2F;&#x2F;example&#x2E;com</a></p>"
    );
}

#[test]
fn link_with_a_name_shows_the_name() {
    let nodes = vec![Node::Link { to: "page".to_string(), name: Some("Go <home>".to_string()) }];
    assert_eq!(
        nodes2html(nodes),
        "<p><a href=\"page\">Go &#x3C;home&#x3E;</a></p>"
    );
}

#[test]
fn lone_quote_is_wrapped_twice() {
    assert_eq!(
        nodes2html(vec![quote("hi")]),
        "<blockquote><blockquote>hi</blockquote></blockquote>"
    );
}

#[test]
fn quote_run_has_one_wrapper() {
    assert_eq!(
        nodes2html(vec![quote("a"), quote("b"), text("c")]),
        "<blockquote><blockquote>a</blockquote><blockquote>b</blockquote></blockquote><p>c</p>"
    );
}

#[test]
fn list_left_open_is_closed_at_the_end() {
    assert_eq!(
        nodes2html(vec![text("a"), item("b"), item("c")]),
        "<p>a</p><ul><li>b</li><li>c</li></ul>"
    );
}

#[test]
fn list_followed_by_quote_switches_wrappers() {
    assert_eq!(
        nodes2html(vec![item("a"), quote("b"), item("c")]),
        "<ul><li>a</li></ul><blockquote><blockquote>b</blockquote></blockquote><ul><li>c</li></ul>"
    );
}

#[test]
fn preformatted_text_is_escaped() {
    assert_eq!(
        nodes2html(vec![Node::Preformatted("if a < b {\n}".to_string())]),
        "<pre>if a &#x3C; b &#x7B;&#xA;&#x7D;</pre>"
    );
}

#[test]
fn nodes_outside_runs_have_no_wrappers() {
    let html = nodes2html(vec![
        text("a"),
        Node::Heading { level: 1, body: "b".to_string() },
        Node::Preformatted("c".to_string()),
        Node::Link { to: "d".to_string(), name: None },
    ]);
    assert_eq!(html, "<p>a</p><h1>b</h1><pre>c</pre><p><a href=\"d\">d</a></p>");
    assert!(!html.contains("<ul>"));
    assert!(!html.contains("</ul>"));
    assert!(!html.contains("blockquote"));
}

#[test]
fn rendering_splits_between_runs() {
    let first = vec![text("a"), quote("b")];
    let second = vec![item("c"), item("d")];
    let mut both = first.clone();
    both.extend(second.clone());
    assert_eq!(nodes2html(both), format!("{}{}", nodes2html(first), nodes2html(second)));
}

#[test]
fn run_of_each_kind_of_node() {
    assert_eq!(item("a").run(), RunState::InList);
    assert_eq!(quote("a").run(), RunState::InQuote);
    assert_eq!(text("a").run(), RunState::Neither);
    assert_eq!(Node::Preformatted("a".to_string()).run(), RunState::Neither);
    assert_eq!(Node::Heading { level: 1, body: "a".to_string() }.run(), RunState::Neither);
    assert_eq!(Node::Link { to: "a".to_string(), name: None }.run(), RunState::Neither);
}

#[test]
fn link_to_a_plain_target_is_unchanged() {
    let nodes = vec![Node::Link { to: "example".to_string(), name: None }];
    assert_eq!(nodes2html(nodes), "<p><a href=\"example\">example</a></p>");
}

#[test]
fn quote_left_open_is_closed_at_the_end() {
    let html = nodes2html(vec![text("a"), quote("b")]);
    assert_eq!(html, "<p>a</p><blockquote><blockquote>b</blockquote></blockquote>");
    assert!(html.ends_with("</blockquote></blockquote>"));
}

#[test]
fn list_run_has_one_wrapper_pair() {
    let html = nodes2html(vec![text("x"), item("a"), item("b"), item("c"), quote("y")]);
    assert_eq!(html.matches("<ul>").count(), 1);
    assert_eq!(html.matches("</ul>").count(), 1);
    assert_eq!(html.matches("<li>").count(), 3);
    assert_eq!(
        html,
        "<p>x</p><ul><li>a</li><li>b</li><li>c</li></ul><blockquote><blockquote>y</blockquote></blockquote>"
    );
}
