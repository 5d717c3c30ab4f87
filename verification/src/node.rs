//! The nodes of a document and their mathematical model.

use vstd::prelude::*;

verus! {

/// One block of a document. Each node stands for one line of the source
/// text, or for one preformatted block.
#[derive(Debug, PartialEq, Eq)]
pub enum Node {
    /// A paragraph of ordinary text.
    Text(String),
    /// A link to `to`, shown as `name` where there is one and as `to`
    /// where there is none.
    Link { to: String, name: Option<String> },
    /// A block of text to be shown verbatim.
    Preformatted(String),
    /// A heading of the given level.
    Heading { level: u8, body: String },
    /// One entry of an unordered list.
    ListItem(String),
    /// One quoted line.
    Quote(String),
}

/// A node with its texts taken as sequences of characters.
pub ghost enum NodeView {
    Text(Seq<char>),
    Link { to: Seq<char>, name: Option<Seq<char>> },
    Preformatted(Seq<char>),
    Heading { level: u8, body: Seq<char> },
    ListItem(Seq<char>),
    Quote(Seq<char>),
}

impl View for Node {
    type V = NodeView;

    open spec fn view(&self) -> NodeView {
        match *self {
            Node::Text(body) => NodeView::Text(body@),
            Node::Link { to, name } => NodeView::Link {
                to: to@,
                name: match name {
                    Some(label) => Some(label@),
                    None => None,
                },
            },
            Node::Preformatted(body) => NodeView::Preformatted(body@),
            Node::Heading { level, body } => NodeView::Heading { level, body: body@ },
            Node::ListItem(body) => NodeView::ListItem(body@),
            Node::Quote(body) => NodeView::Quote(body@),
        }
    }
}

impl Clone for Node {
    /// A copy of the node with the same kind and the same texts.
    fn clone(&self) -> (copy: Node)
        ensures
            copy@ == self@,
    {
        match self {
            Node::Text(body) => Node::Text(body.clone()),
            Node::Link { to, name } => {
                let label = match name {
                    Some(label) => Some(label.clone()),
                    None => None,
                };
                Node::Link { to: to.clone(), name: label }
            },
            Node::Preformatted(body) => Node::Preformatted(body.clone()),
            Node::Heading { level, body } => Node::Heading { level: *level, body: body.clone() },
            Node::ListItem(body) => Node::ListItem(body.clone()),
            Node::Quote(body) => Node::Quote(body.clone()),
        }
    }
}

/// The models of a sequence of nodes, in order.
pub open spec fn node_views(nodes: Seq<Node>) -> Seq<NodeView> {
    nodes.map_values(|node: Node| node@)
}

/// The kind of run that a node belongs to: consecutive list items form one
/// list, consecutive quote lines one quotation, and every other node stands
/// alone.
#[derive(Debug, Clone, Copy, PartialEq, Eq, Structural)]
pub enum RunState {
    InList,
    InQuote,
    Neither,
}

/// The run that `node` belongs to.
pub open spec fn run_of(node: NodeView) -> RunState {
    match node {
        NodeView::ListItem(_) => RunState::InList,
        NodeView::Quote(_) => RunState::InQuote,
        _ => RunState::Neither,
    }
}

impl Node {
    /// The run that this node belongs to.
    pub fn run(&self) -> (state: RunState)
        ensures
            state == run_of(self@),
    {
        match self {
            Node::ListItem(_) => RunState::InList,
            Node::Quote(_) => RunState::InQuote,
            _ => RunState::Neither,
        }
    }
}

} // verus!
