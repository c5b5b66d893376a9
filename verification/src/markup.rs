//! Markup trees: what the body scanner reads of a parsed body.

use vstd::prelude::*;

verus! {

/// A node of a parsed body, reduced to what link extraction reads.
#[derive(Debug)]
pub enum MarkupNode {
    /// A link and its target as written.
    Link(String),
    /// Any other node, with its children in document order.
    Other(Vec<MarkupNode>),
}

#[verifier::external_type_specification]
#[verifier::external_body]
pub struct ExMdastNode(markdown::mdast::Node);

/// The tree that `markdown::to_mdast` builds for a body, with autolinks in
/// angle brackets and in running text recognised, or `None` where it
/// reports an error.
pub uninterp spec fn markup_of(body: Seq<char>) -> Option<MarkupNode>;

/// The reduced tree that stands for an mdast node.
pub uninterp spec fn node_tree(node: markdown::mdast::Node) -> MarkupNode;

/// Calls `markdown::to_mdast` with the constructs of CommonMark and, with
/// them, both kinds of autolink: the one in angle brackets and the bare
/// one in running text.
#[verifier::external_body]
fn parse_markup(body: &str) -> (r: Option<markdown::mdast::Node>)
    ensures
        match r {
            Some(node) => markup_of(body@) == Some(node_tree(node)),
            None => markup_of(body@) is None,
        },
{
    let constructs = markdown::Constructs {
        autolink: true,
        gfm_autolink_literal: true,
        ..markdown::Constructs::default()
    };
    let options = markdown::ParseOptions { constructs, ..markdown::ParseOptions::default() };
    markdown::to_mdast(body, &options).ok()
}

/// Reads an mdast node through `Node::children`: a link keeps its target,
/// any other node keeps its children.
#[verifier::external_body]
fn lower(node: &markdown::mdast::Node) -> (t: MarkupNode)
    ensures
        t == node_tree(*node),
{
    match node {
        markdown::mdast::Node::Link(link) => MarkupNode::Link(link.url.clone()),
        other => MarkupNode::Other(other.children().into_iter().flatten().map(lower).collect()),
    }
}

/// The link targets of a tree in document order. A link's own children are
/// not visited.
pub open spec fn link_targets(node: MarkupNode) -> Seq<Seq<char>>
    decreases node, 0nat,
{
    match node {
        MarkupNode::Link(url) => seq![url@],
        MarkupNode::Other(children) => targets_from(children@, 0),
    }
}

/// The link targets of `children[i..]`, in order.
pub open spec fn targets_from(children: Seq<MarkupNode>, i: int) -> Seq<Seq<char>>
    decreases children, children.len() - i,
{
    if 0 <= i < children.len() {
        link_targets(children[i]) + targets_from(children, i + 1)
    } else {
        Seq::empty()
    }
}

/// What a list of strings holds.
pub open spec fn texts(strings: Seq<String>) -> Seq<Seq<char>> {
    Seq::new(strings.len(), |i: int| strings[i]@)
}

/// Parses a body as markup: the tree, or `None` where the body is refused.
pub fn tree_of(body: &str) -> (r: Option<MarkupNode>)
    ensures
        r == markup_of(body@),
{
    match parse_markup(body) {
        Some(node) => Some(lower(&node)),
        None => None,
    }
}

/// Appends the link targets of a tree to `out`, in document order.
fn collect_link_targets(node: &MarkupNode, out: &mut Vec<String>)
    ensures
        texts(final(out)@) == texts(old(out)@) + link_targets(*node),
    decreases node,
{
    match node {
        MarkupNode::Link(url) => {
            out.push(url.clone());
            proof {
                assert(texts(out@) =~= texts(old(out)@) + link_targets(*node));
            }
        },
        MarkupNode::Other(children) => {
            let mut i: usize = 0;
            while i < children.len()
                invariant
                    i <= children.len(),
                    *node == MarkupNode::Other(*children),
                    texts(out@) + targets_from(children@, i as int) == texts(old(out)@)
                        + targets_from(children@, 0),
                decreases children.len() - i,
            {
                let ghost before = texts(out@);
                proof {
                    assert(decreases_to!(*node => node->Other_0));
                }
                collect_link_targets(&children[i], out);
                proof {
                    assert((before + link_targets(children@[i as int])) + targets_from(
                        children@,
                        i as int + 1,
                    ) =~= before + targets_from(children@, i as int));
                }
                i += 1;
            }
            proof {
                assert(texts(out@) + Seq::<Seq<char>>::empty() =~= texts(out@));
            }
        },
    }
}

/// The link targets of a tree, in document order.
pub fn link_targets_of(node: &MarkupNode) -> (r: Vec<String>)
    ensures
        texts(r@) == link_targets(*node),
{
    let mut out: Vec<String> = Vec::new();
    collect_link_targets(node, &mut out);
    proof {
        assert(texts(Seq::<String>::empty()) + link_targets(*node) =~= link_targets(*node));
    }
    out
}

} // verus!
