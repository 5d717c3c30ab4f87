//! Conversion of Gemtext source text, through the `gemtext` parser.
//!
//! The parser reads the text line by line. It cannot read a link line, one
//! that starts with `=>`, on which no target follows the marker; inside a
//! preformatted block, between two lines that start with three backticks,
//! it takes every line as it is. [`accepts`] tells whether it can read a
//! given text.

use vstd::prelude::*;
use crate::node::{node_views, Node, NodeView};
use crate::render::{nodes2html, rendered};

verus! {

/// The nodes that `gemtext::parse` reads from `text`.
pub uninterp spec fn parsed(text: Seq<char>) -> Seq<NodeView>;

/// The characters that the parser skips between the words of a link line.
pub open spec fn is_blank(c: char) -> bool {
    c == ' ' || c == '\t' || c == '\n' || c == '\x0C' || c == '\r'
}

/// Whether a line starts at position `i` of `text`.
pub open spec fn line_starts_at(text: Seq<char>, i: int) -> bool {
    0 <= i < text.len() && (i == 0 || text[i - 1] == '\n')
}

/// Whether the line that starts at `i` opens or closes a preformatted
/// block: it starts with three backticks.
pub open spec fn fence_at(text: Seq<char>, i: int) -> bool {
    line_starts_at(text, i) && i + 2 < text.len() && text[i] == '`' && text[i + 1] == '`' && text[i
        + 2] == '`'
}

/// The number of lines before position `i` that start with three backticks.
pub open spec fn fences_before(text: Seq<char>, i: int) -> nat
    decreases i,
{
    if i <= 0 {
        0
    } else if fence_at(text, i - 1) {
        fences_before(text, i - 1) + 1
    } else {
        fences_before(text, i - 1)
    }
}

/// Whether position `i` lies inside a preformatted block.
pub open spec fn in_preformatted(text: Seq<char>, i: int) -> bool {
    fences_before(text, i) % 2 == 1
}

/// Whether a link line starts at `i`: a line outside preformatted blocks
/// that begins with `=>`.
pub open spec fn link_line_at(text: Seq<char>, i: int) -> bool {
    line_starts_at(text, i) && i + 1 < text.len() && text[i] == '=' && text[i + 1] == '>'
        && !in_preformatted(text, i)
}

/// Whether a target follows the link marker that starts at `i`: some
/// character after the marker and before the end of the line is not blank.
pub open spec fn link_has_target(text: Seq<char>, i: int) -> bool {
    exists|j: int|
        i + 2 <= j < text.len() && !is_blank(#[trigger] text[j]) && forall|k: int|
            i + 2 <= k < j ==> #[trigger] text[k] != '\n'
}

/// Whether the line at `i`, if it is a link line, names a target.
pub open spec fn link_line_ok(text: Seq<char>, i: int) -> bool {
    link_line_at(text, i) ==> link_has_target(text, i)
}

/// Whether the parser can read `text`: every link line names a target.
pub open spec fn parser_accepts(text: Seq<char>) -> bool {
    forall|i: int| 0 <= i < text.len() ==> #[trigger] link_line_ok(text, i)
}

/// Calls `gemtext::parse` and hands out each node it returns as a [`Node`]
/// with the same fields. The parser reads `text` line by line and depends on
/// nothing else, so its result has a name, [`parsed`]. On a link line
/// without a target it indexes an empty list of words, so such text is left
/// out.
#[verifier::external_body]
fn parse_gemtext(text: &str) -> (nodes: Vec<Node>)
    requires
        parser_accepts(text@),
    ensures
        node_views(nodes@) == parsed(text@),
{
    let mut nodes = Vec::new();
    for node in gemtext::parse(text) {
        nodes.push(match node {
            gemtext::Node::Text(body) => Node::Text(body),
            gemtext::Node::Link { to, name } => Node::Link { to, name },
            gemtext::Node::Preformatted(body) => Node::Preformatted(body),
            gemtext::Node::Heading { level, body } => Node::Heading { level, body },
            gemtext::Node::ListItem(body) => Node::ListItem(body),
            gemtext::Node::Quote(body) => Node::Quote(body),
        });
    }
    nodes
}

/// Converts the given Gemtext to the returned HTML.
pub fn gmi2html(gemtext: &str) -> (html: String)
    requires
        parser_accepts(gemtext@),
    ensures
        html@ == rendered(parsed(gemtext@)),
{
    nodes2html(parse_gemtext(gemtext))
}

/// Converts the given Gemtext to HTML where the parser can read it, and
/// returns `None` where it cannot.
pub fn try_gmi2html(gemtext: &str) -> (html: Option<String>)
    ensures
        parser_accepts(gemtext@) ==> html.is_some() && html.unwrap()@ == rendered(
            parsed(gemtext@),
        ),
        !parser_accepts(gemtext@) ==> html.is_none(),
{
    if accepts(gemtext) {
        Some(gmi2html(gemtext))
    } else {
        None
    }
}

/// How far the scan of the current line has come.
#[derive(Clone, Copy, PartialEq, Eq, Structural)]
enum LineScan {
    /// Nothing of the line has been read.
    Start,
    /// The line so far is one backtick.
    Tick1,
    /// The line so far is two backticks.
    Tick2,
    /// The line so far is `=`.
    Equals,
    /// The line is a link line, and only blanks have followed the marker.
    BareLink,
    /// What the line is has been settled.
    Rest,
}

/// What the scan knows after the first `n` characters, where the current
/// line starts at `start`.
spec fn scan_holds(
    text: Seq<char>,
    start: int,
    n: int,
    scan: LineScan,
    pre: bool,
    fence: bool,
) -> bool {
    &&& 0 <= start <= n <= text.len()
    &&& start == 0 || text[start - 1] == '\n'
    &&& forall|k: int| start <= k < n ==> #[trigger] text[k] != '\n'
    &&& forall|i: int| 0 <= i < start ==> #[trigger] link_line_ok(text, i)
    &&& pre == in_preformatted(text, start)
    &&& match scan {
        LineScan::Start => n == start && !fence,
        LineScan::Tick1 => n == start + 1 && text[start] == '`' && !fence,
        LineScan::Tick2 => n == start + 2 && text[start] == '`' && text[start + 1] == '`' && !fence,
        LineScan::Equals => n == start + 1 && text[start] == '=' && !fence,
        LineScan::BareLink => {
            &&& n >= start + 2
            &&& link_line_at(text, start)
            &&& forall|k: int| start + 2 <= k < n ==> is_blank(#[trigger] text[k])
            &&& !fence
        },
        LineScan::Rest => n > start && link_line_ok(text, start) && fence == fence_at(text, start),
    }
}

/// Within a line, only its first position can start a fence.
proof fn lemma_fences_within_line(text: Seq<char>, start: int, m: int)
    requires
        0 <= start < m <= text.len() + 1,
        forall|k: int| start <= k < m - 1 ==> #[trigger] text[k] != '\n',
    ensures
        fences_before(text, m) == fences_before(text, start) + if fence_at(text, start) {
            1nat
        } else {
            0nat
        },
    decreases m - start,
{
    if m > start + 1 {
        lemma_fences_within_line(text, start, m - 1);
        assert(text[m - 2] != '\n');
        assert(!fence_at(text, m - 1));
    }
}

/// No position after the first of a line starts a line.
proof fn lemma_line_ok_within_line(text: Seq<char>, start: int, n: int)
    requires
        0 <= start <= n <= text.len(),
        forall|k: int| start <= k < n ==> #[trigger] text[k] != '\n',
    ensures
        forall|i: int| start < i <= n ==> #[trigger] link_line_ok(text, i),
{
    assert forall|i: int| start < i <= n implies #[trigger] link_line_ok(text, i) by {
        assert(text[i - 1] != '\n');
    }
}

/// A link line on which only blanks follow the marker, up to the end of the
/// line at `n`, has no target.
proof fn lemma_bare_link_refused(text: Seq<char>, start: int, n: int)
    requires
        0 <= start,
        start + 2 <= n <= text.len(),
        link_line_at(text, start),
        forall|k: int| start + 2 <= k < n ==> is_blank(#[trigger] text[k]),
        n == text.len() || text[n] == '\n',
    ensures
        !parser_accepts(text),
{
    if link_has_target(text, start) {
        let j = choose|j: int|
            start + 2 <= j < text.len() && !is_blank(#[trigger] text[j]) && forall|k: int|
                start + 2 <= k < j ==> #[trigger] text[k] != '\n';
        if j < n {
            assert(is_blank(text[j]));
        } else {
            assert(is_blank(text[n]));
            assert(text[n] != '\n');
        }
    }
    assert(!link_line_ok(text, start));
}

fn is_blank_char(c: char) -> (blank: bool)
    ensures
        blank == is_blank(c),
{
    c == ' ' || c == '\t' || c == '\n' || c == '\x0C' || c == '\r'
}

/// Tells whether the parser can read `text`, and so whether [`gmi2html`]
/// can be called on it.
pub fn accepts(text: &str) -> (ok: bool)
    ensures
        ok == parser_accepts(text@),
{
    broadcast use vstd::string::group_string_axioms;

    let mut scan = LineScan::Start;
    let mut pre = false;
    let mut fence = false;
    let ghost mut start: int = 0;
    for c in it: text.chars()
        invariant
            it.seq() == text@,
            scan_holds(text@, start, it.index() as int, scan, pre, fence),
    {
        let ghost n = it.index() as int;
        assert(text@[n] == c);
        if c == '\n' {
            if scan == LineScan::BareLink {
                proof {
                    lemma_bare_link_refused(text@, start, n);
                }
                return false;
            }
            proof {
                lemma_fences_within_line(text@, start, n + 1);
                lemma_line_ok_within_line(text@, start, n);
                assert(link_line_ok(text@, start));
                if scan != LineScan::Rest {
                    assert(!fence_at(text@, start));
                }
            }
            if fence {
                pre = !pre;
            }
            fence = false;
            scan = LineScan::Start;
            proof {
                start = n + 1;
            }
        } else {
            match scan {
                LineScan::Start => {
                    if c == '`' {
                        scan = LineScan::Tick1;
                    } else if c == '=' {
                        scan = LineScan::Equals;
                    } else {
                        scan = LineScan::Rest;
                    }
                },
                LineScan::Tick1 => {
                    if c == '`' {
                        scan = LineScan::Tick2;
                    } else {
                        scan = LineScan::Rest;
                    }
                },
                LineScan::Tick2 => {
                    if c == '`' {
                        fence = true;
                    }
                    scan = LineScan::Rest;
                },
                LineScan::Equals => {
                    if c == '>' && !pre {
                        scan = LineScan::BareLink;
                    } else {
                        scan = LineScan::Rest;
                    }
                },
                LineScan::BareLink => {
                    if !is_blank_char(c) {
                        scan = LineScan::Rest;
                    }
                },
                LineScan::Rest => {},
            }
        }
    }
    proof {
        let n = text@.len() as int;
        if scan == LineScan::BareLink {
            lemma_bare_link_refused(text@, start, n);
        } else {
            lemma_line_ok_within_line(text@, start, n);
        }
    }
    scan != LineScan::BareLink
}

} // verus!
