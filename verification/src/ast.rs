//! The document tree the renderers consume.
//!
//! A parsed Markdown document arrives as a closed set of block and inline
//! node kinds. Text is carried as a vector of characters, so every field
//! is a plain value the contracts can speak about directly. Node kinds
//! outside this set are represented by `Other`, which block renderers skip
//! and inline renderers flatten.

use vstd::prelude::*;

verus! {

/// One node of the document tree. Each node owns its children; the
/// renderers only read the tree.
#[derive(PartialEq, Eq, Debug)]
pub enum Node {
    /// A heading of depth 1 through 6.
    Heading { depth: u8, children: Vec<Node> },
    /// An ordinary paragraph of inline children.
    Paragraph { children: Vec<Node> },
    /// A list; `start` is the first ordinal of an ordered list.
    List { ordered: bool, start: Option<u32>, children: Vec<Node> },
    /// One item of a list.
    ListItem { children: Vec<Node> },
    /// A fenced code block with an optional language tag.
    Code { lang: Option<Vec<char>>, value: Vec<char> },
    /// Literal text.
    Text { value: Vec<char> },
    /// Strongly emphasized (bold) children.
    Strong { children: Vec<Node> },
    /// Emphasized (italic) children.
    Emphasis { children: Vec<Node> },
    /// A span of inline code.
    InlineCode { value: Vec<char> },
    /// A hard line break.
    Break,
    /// Any node kind the renderers do not understand.
    Other { children: Vec<Node> },
}

/// The size of a node: itself plus all nodes below it. The measure every
/// recursive walk of the tree decreases.
pub open spec fn node_size(n: Node) -> nat
    decreases n,
{
    match n {
        Node::Heading { children, .. } => 1 + nodes_size(children@),
        Node::Paragraph { children } => 1 + nodes_size(children@),
        Node::List { children, .. } => 1 + nodes_size(children@),
        Node::ListItem { children } => 1 + nodes_size(children@),
        Node::Strong { children } => 1 + nodes_size(children@),
        Node::Emphasis { children } => 1 + nodes_size(children@),
        Node::Other { children } => 1 + nodes_size(children@),
        Node::Code { .. } => 1,
        Node::Text { .. } => 1,
        Node::InlineCode { .. } => 1,
        Node::Break => 1,
    }
}

/// The summed size of a sequence of nodes.
pub open spec fn nodes_size(s: Seq<Node>) -> nat
    decreases s,
{
    if s.len() == 0 {
        0
    } else {
        node_size(s[0]) + nodes_size(s.subrange(1, s.len() as int))
    }
}

/// A node counts at least itself.
pub proof fn lemma_node_size_pos(n: Node)
    ensures
        node_size(n) >= 1,
{
}

/// Summed size of a tail: peeling the node at position `i` off the
/// remainder of a sequence.
pub proof fn lemma_nodes_size_peel(s: Seq<Node>, i: int)
    requires
        0 <= i < s.len(),
    ensures
        nodes_size(s.subrange(i, s.len() as int)) == node_size(s[i]) + nodes_size(
            s.subrange(i + 1, s.len() as int),
        ),
{
    let t = s.subrange(i, s.len() as int);
    assert(t[0] == s[i]);
    assert(t.subrange(1, t.len() as int) =~= s.subrange(i + 1, s.len() as int));
}

} // verus!
