//! Rendering of a sequence of nodes as an HTML fragment.
//!
//! Every node contributes its own element. Around each maximal run of list
//! items stands one `<ul>` element, and around each maximal run of quote
//! lines one `<blockquote>` element.

use vstd::prelude::*;
use vstd::string::StringExecFns;
use crate::escape::{escaped, html_escape};
use crate::node::{node_views, run_of, Node, NodeView, RunState};
use crate::runs::{lemma_no_runs_no_wrappers, lemma_open_run_is_closed};

verus! {

/// The decimal digit for a value below ten.
pub open spec fn decimal_digit(d: nat) -> char
    recommends
        d < 10,
{
    (48 + d) as char
}

/// The decimal numeral of `n`, without leading zeros.
pub open spec fn decimal(n: nat) -> Seq<char>
    decreases n,
{
    if n < 10 {
        seq![decimal_digit(n)]
    } else {
        decimal(n / 10).push(decimal_digit(n % 10))
    }
}

/// The tag that opens the wrapper of a run.
pub open spec fn opening_tag(state: RunState) -> Seq<char> {
    match state {
        RunState::InList => "<ul>"@,
        RunState::InQuote => "<blockquote>"@,
        RunState::Neither => Seq::empty(),
    }
}

/// The tag that closes the wrapper of a run.
pub open spec fn closing_tag(state: RunState) -> Seq<char> {
    match state {
        RunState::InList => "</ul>"@,
        RunState::InQuote => "</blockquote>"@,
        RunState::Neither => Seq::empty(),
    }
}

/// The wrapper tags that stand between a node in state `from` and a node in
/// state `to`: nothing inside a run, else the end of the old run and the
/// start of the new one.
pub open spec fn switch_tags(from: RunState, to: RunState) -> Seq<char> {
    if from == to {
        Seq::empty()
    } else {
        closing_tag(from) + opening_tag(to)
    }
}

/// The element of a single node, whatever run it stands in.
pub open spec fn node_markup(node: NodeView) -> Seq<char> {
    match node {
        NodeView::ListItem(body) => "<li>"@ + escaped(body) + "</li>"@,
        NodeView::Text(body) => "<p>"@ + escaped(body) + "</p>"@,
        NodeView::Preformatted(body) => "<pre>"@ + escaped(body) + "</pre>"@,
        NodeView::Heading { level, body } => "<h"@ + decimal(level as nat) + ">"@ + escaped(body)
            + "</h"@ + decimal(level as nat) + ">"@,
        NodeView::Quote(body) => "<blockquote>"@ + escaped(body) + "</blockquote>"@,
        NodeView::Link { to, name } => "<p><a href=\""@ + escaped(to) + "\">"@ + escaped(
            match name {
                Some(label) => label,
                None => to,
            },
        ) + "</a></p>"@,
    }
}

/// The state that the renderer is in after `nodes`.
pub open spec fn state_after(nodes: Seq<NodeView>) -> RunState {
    if nodes.len() == 0 {
        RunState::Neither
    } else {
        run_of(nodes.last())
    }
}

/// The output for `nodes` up to, and without, the tag that closes a run
/// still open after the last of them.
pub open spec fn rendered_open(nodes: Seq<NodeView>) -> Seq<char>
    decreases nodes.len(),
{
    if nodes.len() == 0 {
        Seq::empty()
    } else {
        rendered_open(nodes.drop_last()) + switch_tags(
            state_after(nodes.drop_last()),
            run_of(nodes.last()),
        ) + node_markup(nodes.last())
    }
}

/// The HTML fragment for `nodes`.
pub open spec fn rendered(nodes: Seq<NodeView>) -> Seq<char> {
    rendered_open(nodes) + closing_tag(state_after(nodes))
}

/// The elements of `nodes` one after the other, with no wrapper tags.
pub open spec fn elements(nodes: Seq<NodeView>) -> Seq<char>
    decreases nodes.len(),
{
    if nodes.len() == 0 {
        Seq::empty()
    } else {
        elements(nodes.drop_last()) + node_markup(nodes.last())
    }
}

/// Whether every node of `nodes` belongs to a run of kind `state`.
pub open spec fn all_in_state(nodes: Seq<NodeView>, state: RunState) -> bool {
    forall|i: int| 0 <= i < nodes.len() ==> run_of(#[trigger] nodes[i]) == state
}

/// Whether `text` ends with `suffix`.
pub open spec fn ends_with(text: Seq<char>, suffix: Seq<char>) -> bool {
    text.len() >= suffix.len() && text.skip(text.len() - suffix.len()) == suffix
}

/// Whether `pattern` stands somewhere in `text`.
pub open spec fn occurs_in(pattern: Seq<char>, text: Seq<char>) -> bool {
    exists|i: int|
        0 <= i && i + pattern.len() <= text.len() && #[trigger] text.subrange(
            i,
            i + pattern.len(),
        ) == pattern
}

fn decimal_digit_char(d: u8) -> (c: char)
    requires
        d < 10,
    ensures
        c == decimal_digit(d as nat),
{
    (48u8 + d) as char
}

/// Appends the decimal numeral of `n` to `out`.
fn push_decimal(out: &mut String, n: u8)
    ensures
        final(out)@ == old(out)@ + decimal(n as nat),
    decreases n,
{
    if n >= 10 {
        push_decimal(out, n / 10);
    }
    out.push(decimal_digit_char(n % 10));
}

fn push_opening_tag(html: &mut String, state: RunState)
    ensures
        final(html)@ == old(html)@ + opening_tag(state),
{
    match state {
        RunState::InList => html.append("<ul>"),
        RunState::InQuote => html.append("<blockquote>"),
        RunState::Neither => {},
    }
}

fn push_closing_tag(html: &mut String, state: RunState)
    ensures
        final(html)@ == old(html)@ + closing_tag(state),
{
    match state {
        RunState::InList => html.append("</ul>"),
        RunState::InQuote => html.append("</blockquote>"),
        RunState::Neither => {},
    }
}

fn push_escaped(html: &mut String, text: &str)
    ensures
        final(html)@ == old(html)@ + escaped(text@),
{
    let safe = html_escape(text);
    html.append(safe.as_str());
}

/// Appends the element of `node` to `html`.
fn push_node_markup(html: &mut String, node: &Node)
    ensures
        final(html)@ == old(html)@ + node_markup(node@),
{
    match node {
        Node::ListItem(body) => {
            html.append("<li>");
            push_escaped(html, body.as_str());
            html.append("</li>");
        },
        Node::Text(body) => {
            html.append("<p>");
            push_escaped(html, body.as_str());
            html.append("</p>");
        },
        Node::Preformatted(body) => {
            html.append("<pre>");
            push_escaped(html, body.as_str());
            html.append("</pre>");
        },
        Node::Heading { level, body } => {
            html.append("<h");
            push_decimal(html, *level);
            html.append(">");
            push_escaped(html, body.as_str());
            html.append("</h");
            push_decimal(html, *level);
            html.append(">");
        },
        Node::Quote(body) => {
            html.append("<blockquote>");
            push_escaped(html, body.as_str());
            html.append("</blockquote>");
        },
        Node::Link { to, name } => {
            html.append("<p><a href=\"");
            push_escaped(html, to.as_str());
            html.append("\">");
            match name {
                Some(label) => push_escaped(html, label.as_str()),
                None => push_escaped(html, to.as_str()),
            }
            html.append("</a></p>");
        },
    }
}

/// Converts the nodes of a document into HTML.
///
/// A run that is still open after the last node is closed. Where no node is
/// a list item or a quote line, the result holds no wrapper tag.
pub fn nodes2html(nodes: Vec<Node>) -> (html: String)
    ensures
        html@ == rendered(node_views(nodes@)),
        nodes@.len() >= 1 && run_of(nodes@.last()@) == RunState::InList ==> ends_with(
            html@,
            "</ul>"@,
        ),
        nodes@.len() >= 1 && run_of(nodes@.last()@) == RunState::InQuote ==> ends_with(
            html@,
            "</blockquote>"@,
        ),
        all_in_state(node_views(nodes@), RunState::Neither) ==> !occurs_in("<ul>"@, html@)
            && !occurs_in("</ul>"@, html@) && !occurs_in("<blockquote>"@, html@) && !occurs_in(
            "</blockquote>"@,
            html@,
        ),
{
    let ghost views = node_views(nodes@);
    let mut html = String::new();
    let mut state = RunState::Neither;
    for i in 0..nodes.len()
        invariant
            views == node_views(nodes@),
            html@ == rendered_open(views.take(i as int)),
            state == state_after(views.take(i as int)),
    {
        let node = &nodes[i];
        let next = node.run();
        proof {
            let upto = views.take(i + 1);
            assert(upto.drop_last() == views.take(i as int));
            assert(upto.last() == node@);
        }
        if next != state {
            push_closing_tag(&mut html, state);
            push_opening_tag(&mut html, next);
        }
        state = next;
        push_node_markup(&mut html, node);
    }
    proof {
        assert(views.take(views.len() as int) == views);
        if views.len() >= 1 {
            assert(views.last() == nodes@.last()@);
            lemma_open_run_is_closed(views);
        }
        if all_in_state(views, RunState::Neither) {
            lemma_no_runs_no_wrappers(views);
        }
    }
    push_closing_tag(&mut html, state);
    html
}

} // verus!
