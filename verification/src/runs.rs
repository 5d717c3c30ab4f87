//! Where the wrapper tags stand in rendered output.
//!
//! The facts of this module are stated over the model of the renderer:
//! what a single run looks like, where the output of a sequence splits into
//! the outputs of its parts, and which tags cannot occur.

use vstd::prelude::*;
use crate::escape::{escaped, lemma_escaped_alphabet};
use crate::node::{run_of, NodeView, RunState};
use crate::render::{
    all_in_state, closing_tag, decimal, elements, ends_with, node_markup, occurs_in, opening_tag,
    rendered, rendered_open, state_after, switch_tags,
};

verus! {

/// Nodes of one kind are rendered as their elements between the opening and
/// the closing tag of that kind: `<ul>` and `</ul>` around list items,
/// `<blockquote>` and `</blockquote>` around quote lines, and nothing around
/// nodes of the other kinds.
pub proof fn lemma_single_run_rendered(nodes: Seq<NodeView>, state: RunState)
    requires
        nodes.len() >= 1,
        all_in_state(nodes, state),
    ensures
        rendered(nodes) == opening_tag(state) + elements(nodes) + closing_tag(state),
        rendered_open(nodes) == opening_tag(state) + elements(nodes),
    decreases nodes.len(),
{
    let front = nodes.drop_last();
    assert(run_of(nodes.last()) == state);
    if front.len() == 0 {
        assert(elements(front) == Seq::<char>::empty());
        assert(rendered_open(front) == Seq::<char>::empty());
        assert(rendered_open(nodes) =~= switch_tags(RunState::Neither, state) + node_markup(
            nodes.last(),
        ));
        assert(switch_tags(RunState::Neither, state) =~= opening_tag(state));
        assert(opening_tag(state) + elements(nodes) =~= opening_tag(state) + node_markup(
            nodes.last(),
        ));
    } else {
        assert(all_in_state(front, state)) by {
            assert forall|i: int| 0 <= i < front.len() implies run_of(#[trigger] front[i])
                == state by {
                assert(front[i] == nodes[i]);
            }
        }
        lemma_single_run_rendered(front, state);
        assert(run_of(front.last()) == state);
        assert(rendered_open(nodes) == opening_tag(state) + elements(front) + Seq::<char>::empty()
            + node_markup(nodes.last()));
        assert(opening_tag(state) + elements(front) + Seq::<char>::empty() + node_markup(
            nodes.last(),
        ) == opening_tag(state) + (elements(front) + node_markup(nodes.last())));
    }
}

/// Whether two characters that follow a `<` begin one of the tags of a node
/// that is no quote line: `p`, `pre`, `h`, `a` and `li`, opening or closing.
pub open spec fn begins_inner_tag(first: char, second: char) -> bool {
    ||| first == 'p'
    ||| first == 'h'
    ||| first == 'a'
    ||| first == 'l'
    ||| first == '/' && (second == 'p' || second == 'h' || second == 'a' || second == 'l')
}

/// Whether no node of `nodes` is a quote line.
pub open spec fn no_quotes(nodes: Seq<NodeView>) -> bool {
    forall|i: int| 0 <= i < nodes.len() ==> run_of(#[trigger] nodes[i]) != RunState::InQuote
}

/// Whether every `<` in `text` begins a tag of a node that is no quote line.
pub open spec fn only_inner_tags(text: Seq<char>) -> bool {
    forall|i: int|
        0 <= i < text.len() && #[trigger] text[i] == '<' ==> i + 2 < text.len() && begins_inner_tag(
            text[i + 1],
            text[i + 2],
        )
}

proof fn lemma_only_inner_tags_concat(left: Seq<char>, right: Seq<char>)
    requires
        only_inner_tags(left),
        only_inner_tags(right),
    ensures
        only_inner_tags(left + right),
{
    let both = left + right;
    assert forall|i: int| 0 <= i < both.len() && #[trigger] both[i] == '<' implies i + 2
        < both.len() && begins_inner_tag(both[i + 1], both[i + 2]) by {
        if i < left.len() {
            assert(both[i] == left[i]);
            assert(both[i + 1] == left[i + 1]);
            assert(both[i + 2] == left[i + 2]);
        } else {
            let j = i - left.len();
            assert(both[i] == right[j]);
            assert(both[i + 1] == right[j + 1]);
            assert(both[i + 2] == right[j + 2]);
        }
    }
}

proof fn lemma_escaped_only_inner_tags(text: Seq<char>)
    ensures
        only_inner_tags(escaped(text)),
{
    lemma_escaped_alphabet(text);
}

/// A decimal numeral is made of digits, and has at least one.
proof fn lemma_decimal_digits(n: nat)
    ensures
        decimal(n).len() >= 1,
        forall|i: int| 0 <= i < decimal(n).len() ==> '0' <= #[trigger] decimal(n)[i] <= '9',
    decreases n,
{
    if n >= 10 {
        lemma_decimal_digits(n / 10);
    }
}

proof fn lemma_heading_tags(n: nat)
    ensures
        only_inner_tags("<h"@ + decimal(n) + ">"@),
        only_inner_tags("</h"@ + decimal(n) + ">"@),
{
    reveal_strlit("<h");
    reveal_strlit("</h");
    reveal_strlit(">");
    lemma_decimal_digits(n);
    let digits = decimal(n);
    let open = "<h"@ + digits + ">"@;
    assert forall|i: int| 0 <= i < open.len() && #[trigger] open[i] == '<' implies i + 2
        < open.len() && begins_inner_tag(open[i + 1], open[i + 2]) by {
        if 2 <= i < 2 + digits.len() {
            assert(open[i] == digits[i - 2]);
        }
        assert(open[1] == 'h');
    }
    let close = "</h"@ + digits + ">"@;
    assert forall|i: int| 0 <= i < close.len() && #[trigger] close[i] == '<' implies i + 2
        < close.len() && begins_inner_tag(close[i + 1], close[i + 2]) by {
        if 3 <= i < 3 + digits.len() {
            assert(close[i] == digits[i - 3]);
        }
        assert(close[1] == '/');
        assert(close[2] == 'h');
    }
}

proof fn lemma_node_only_inner_tags(node: NodeView)
    requires
        run_of(node) != RunState::InQuote,
    ensures
        only_inner_tags(node_markup(node)),
{
    match node {
        NodeView::Text(body) => {
            reveal_strlit("<p>");
            reveal_strlit("</p>");
            lemma_escaped_only_inner_tags(body);
            lemma_only_inner_tags_concat("<p>"@, escaped(body));
            lemma_only_inner_tags_concat("<p>"@ + escaped(body), "</p>"@);
        },
        NodeView::Preformatted(body) => {
            reveal_strlit("<pre>");
            reveal_strlit("</pre>");
            lemma_escaped_only_inner_tags(body);
            lemma_only_inner_tags_concat("<pre>"@, escaped(body));
            lemma_only_inner_tags_concat("<pre>"@ + escaped(body), "</pre>"@);
        },
        NodeView::Heading { level, body } => {
            let digits = decimal(level as nat);
            let open = "<h"@ + digits + ">"@;
            let close = "</h"@ + digits + ">"@;
            lemma_heading_tags(level as nat);
            lemma_escaped_only_inner_tags(body);
            lemma_only_inner_tags_concat(open, escaped(body));
            lemma_only_inner_tags_concat(open + escaped(body), close);
            assert(node_markup(node) =~= open + escaped(body) + close);
        },
        NodeView::Link { to, name } => {
            reveal_strlit("<p><a href=\"");
            reveal_strlit("\">");
            reveal_strlit("</a></p>");
            let shown = match name {
                Some(label) => label,
                None => to,
            };
            let head = "<p><a href=\""@;
            lemma_escaped_only_inner_tags(to);
            lemma_escaped_only_inner_tags(shown);
            lemma_only_inner_tags_concat(head, escaped(to));
            lemma_only_inner_tags_concat(head + escaped(to), "\">"@);
            lemma_only_inner_tags_concat(head + escaped(to) + "\">"@, escaped(shown));
            lemma_only_inner_tags_concat(
                head + escaped(to) + "\">"@ + escaped(shown),
                "</a></p>"@,
            );
        },
        NodeView::ListItem(body) => {
            reveal_strlit("<li>");
            reveal_strlit("</li>");
            lemma_escaped_only_inner_tags(body);
            lemma_only_inner_tags_concat("<li>"@, escaped(body));
            lemma_only_inner_tags_concat("<li>"@ + escaped(body), "</li>"@);
        },
        NodeView::Quote(_) => {},
    }
}

proof fn lemma_elements_only_inner_tags(nodes: Seq<NodeView>)
    requires
        no_quotes(nodes),
    ensures
        only_inner_tags(elements(nodes)),
    decreases nodes.len(),
{
    if nodes.len() > 0 {
        let front = nodes.drop_last();
        assert(no_quotes(front)) by {
            assert forall|i: int| 0 <= i < front.len() implies run_of(#[trigger] front[i])
                != RunState::InQuote by {
                assert(front[i] == nodes[i]);
            }
        }
        lemma_elements_only_inner_tags(front);
        assert(run_of(nodes.last()) != RunState::InQuote);
        lemma_node_only_inner_tags(nodes.last());
        lemma_only_inner_tags_concat(elements(front), node_markup(nodes.last()));
    }
}

/// Text in which every `<` begins a tag of a node that is no quote line
/// holds none of the wrapper tags.
proof fn lemma_inner_tags_are_no_wrappers(text: Seq<char>)
    requires
        only_inner_tags(text),
    ensures
        !occurs_in("<ul>"@, text),
        !occurs_in("</ul>"@, text),
        !occurs_in("<blockquote>"@, text),
        !occurs_in("</blockquote>"@, text),
{
    reveal_strlit("<ul>");
    reveal_strlit("</ul>");
    reveal_strlit("<blockquote>");
    reveal_strlit("</blockquote>");
    assert forall|pattern: Seq<char>|
        pattern.len() >= 3 && pattern[0] == '<' && !begins_inner_tag(
            pattern[1],
            pattern[2],
        ) implies !occurs_in(pattern, text) by {
        if occurs_in(pattern, text) {
            let i = choose|i: int|
                0 <= i && i + pattern.len() <= text.len() && #[trigger] text.subrange(
                    i,
                    i + pattern.len(),
                ) == pattern;
            let found = text.subrange(i, i + pattern.len());
            assert(found[0] == text[i]);
            assert(found[1] == text[i + 1]);
            assert(found[2] == text[i + 2]);
        }
    }
}

/// Without list items and quote lines the output has no wrapper tags at
/// all: it is the elements of the nodes and nothing else, and none of
/// `<ul>`, `</ul>`, `<blockquote>` and `</blockquote>` stands in it.
pub proof fn lemma_no_runs_no_wrappers(nodes: Seq<NodeView>)
    requires
        all_in_state(nodes, RunState::Neither),
    ensures
        rendered(nodes) == elements(nodes),
        !occurs_in("<ul>"@, rendered(nodes)),
        !occurs_in("</ul>"@, rendered(nodes)),
        !occurs_in("<blockquote>"@, rendered(nodes)),
        !occurs_in("</blockquote>"@, rendered(nodes)),
{
    if nodes.len() >= 1 {
        lemma_single_run_rendered(nodes, RunState::Neither);
    }
    lemma_elements_only_inner_tags(nodes);
    lemma_inner_tags_are_no_wrappers(elements(nodes));
}

/// Rendering splits wherever no run goes on: where `first` does not end in
/// the kind of run that `second` starts with, or ends outside any run, the
/// output for both is the output for `first` followed by the output for
/// `second`.
pub proof fn lemma_rendered_concat(first: Seq<NodeView>, second: Seq<NodeView>)
    requires
        first.len() == 0 || second.len() == 0 || state_after(first) == RunState::Neither
            || state_after(first) != run_of(second[0]),
    ensures
        rendered(first + second) == rendered(first) + rendered(second),
    decreases second.len(),
{
    if second.len() == 0 {
        assert(first + second == first);
    } else if first.len() == 0 {
        assert(first + second == second);
    } else {
        lemma_rendered_open_concat(first, second);
        assert((first + second).last() == second.last());
        assert(rendered(first) + rendered_open(second) + closing_tag(state_after(second))
            == rendered(first) + (rendered_open(second) + closing_tag(state_after(second))));
    }
}

proof fn lemma_rendered_open_concat(first: Seq<NodeView>, second: Seq<NodeView>)
    requires
        second.len() >= 1,
        state_after(first) == RunState::Neither || state_after(first) != run_of(second[0]),
    ensures
        rendered_open(first + second) == rendered(first) + rendered_open(second),
    decreases second.len(),
{
    let both = first + second;
    let front = second.drop_last();
    let kind = run_of(second.last());
    let element = node_markup(second.last());
    assert(both.last() == second.last());
    assert(both.drop_last() == first + front);
    if front.len() == 0 {
        let before = state_after(first);
        assert(first + front == first);
        assert(second.last() == second[0]);
        assert(switch_tags(before, kind) == closing_tag(before) + opening_tag(kind));
        assert(switch_tags(RunState::Neither, kind) == opening_tag(kind));
        assert(rendered_open(both) == rendered_open(first) + switch_tags(before, kind) + element);
        assert(rendered_open(front) == Seq::<char>::empty());
        assert(state_after(front) == RunState::Neither);
        assert(rendered_open(second) == Seq::<char>::empty() + switch_tags(
            RunState::Neither,
            kind,
        ) + element);
        lemma_regroup_first(
            rendered_open(first),
            closing_tag(before),
            opening_tag(kind),
            element,
        );
    } else {
        assert(front[0] == second[0]);
        lemma_rendered_open_concat(first, front);
        assert((first + front).last() == front.last());
        let tags = switch_tags(state_after(front), kind);
        assert(rendered_open(both) == rendered_open(first + front) + tags + element);
        assert(rendered_open(second) == rendered_open(front) + tags + element);
        lemma_regroup_next(rendered(first), rendered_open(front), tags, element);
    }
}

proof fn lemma_regroup_first(a: Seq<char>, b: Seq<char>, c: Seq<char>, d: Seq<char>)
    ensures
        a + (b + c) + d == (a + b) + (Seq::<char>::empty() + c + d),
{
    assert(a + (b + c) + d =~= (a + b) + (Seq::<char>::empty() + c + d));
}

proof fn lemma_regroup_next(a: Seq<char>, b: Seq<char>, c: Seq<char>, d: Seq<char>)
    ensures
        (a + b) + c + d == a + (b + c + d),
{
    assert((a + b) + c + d =~= a + (b + c + d));
}

/// A maximal run of list items, with whatever stands before and after it,
/// is rendered as one `<ul>`, the `<li>` elements of its items in order, and
/// one `</ul>`, with no wrapper tag between the two; the nodes before and
/// after are rendered as they would be without the run.
pub proof fn lemma_list_run_rendered(
    before: Seq<NodeView>,
    items: Seq<NodeView>,
    after: Seq<NodeView>,
)
    requires
        items.len() >= 1,
        all_in_state(items, RunState::InList),
        before.len() == 0 || run_of(before.last()) != RunState::InList,
        after.len() == 0 || run_of(after[0]) != RunState::InList,
    ensures
        rendered(before + items + after) == rendered(before) + "<ul>"@ + elements(items) + "</ul>"@
            + rendered(after),
        !occurs_in("<ul>"@, elements(items)),
        !occurs_in("</ul>"@, elements(items)),
        !occurs_in("<blockquote>"@, elements(items)),
        !occurs_in("</blockquote>"@, elements(items)),
{
    lemma_run_in_context(before, items, after, RunState::InList);
    lemma_elements_only_inner_tags(items);
    lemma_inner_tags_are_no_wrappers(elements(items));
}

/// A maximal run of quote lines, with whatever stands before and after it,
/// is rendered as one `<blockquote>`, the elements of its lines in order,
/// and one `</blockquote>`.
pub proof fn lemma_quote_run_rendered(
    before: Seq<NodeView>,
    lines: Seq<NodeView>,
    after: Seq<NodeView>,
)
    requires
        lines.len() >= 1,
        all_in_state(lines, RunState::InQuote),
        before.len() == 0 || run_of(before.last()) != RunState::InQuote,
        after.len() == 0 || run_of(after[0]) != RunState::InQuote,
    ensures
        rendered(before + lines + after) == rendered(before) + "<blockquote>"@ + elements(lines)
            + "</blockquote>"@ + rendered(after),
{
    lemma_run_in_context(before, lines, after, RunState::InQuote);
}

proof fn lemma_run_in_context(
    before: Seq<NodeView>,
    run: Seq<NodeView>,
    after: Seq<NodeView>,
    state: RunState,
)
    requires
        run.len() >= 1,
        all_in_state(run, state),
        before.len() == 0 || run_of(before.last()) != state,
        after.len() == 0 || run_of(after[0]) != state,
    ensures
        rendered(before + run + after) == rendered(before) + opening_tag(state) + elements(run)
            + closing_tag(state) + rendered(after),
{
    assert(run_of(run[0]) == state);
    assert(run_of(run.last()) == state);
    assert((before + run).last() == run.last());
    lemma_rendered_concat(before, run);
    lemma_rendered_concat(before + run, after);
    lemma_single_run_rendered(run, state);
    assert(rendered(before) + (opening_tag(state) + elements(run) + closing_tag(state))
        + rendered(after) == rendered(before) + opening_tag(state) + elements(run) + closing_tag(
        state,
    ) + rendered(after));
}

/// A run that is still open after the last node is closed all the same: the
/// output ends with `</ul>` after a list item and with `</blockquote>` after
/// a quote line.
pub proof fn lemma_open_run_is_closed(nodes: Seq<NodeView>)
    requires
        nodes.len() >= 1,
    ensures
        run_of(nodes.last()) == RunState::InList ==> ends_with(rendered(nodes), "</ul>"@),
        run_of(nodes.last()) == RunState::InQuote ==> ends_with(
            rendered(nodes),
            "</blockquote>"@,
        ),
{
    let tag = closing_tag(run_of(nodes.last()));
    assert((rendered_open(nodes) + tag).skip(rendered_open(nodes).len() as int) == tag);
}

} // verus!
