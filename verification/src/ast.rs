//! The node tree a pattern is parsed into, and its spec-level model.

use vstd::prelude::*;

verus! {

/// One node of a parsed pattern: raw text, or a brace-delimited group.
///
/// A well-formed `Group` (see [`gnode_wf`]) holds an odd number of
/// children that alternate literal, group, literal, ...; the leading
/// literal is the group's *header* (its name and/or explicit regex).
#[derive(Debug)]
pub enum Node {
    Literal(Vec<char>),
    Group(Vec<Node>),
}

/// Spec-level counterpart of [`Node`], over `Seq` instead of `Vec`.
pub enum GNode {
    Lit(Seq<char>),
    Grp(Seq<GNode>),
}

impl Node {
    /// The spec value this node stands for.
    pub open spec fn gview(self) -> GNode
        decreases self,
    {
        match self {
            Node::Literal(t) => GNode::Lit(t@),
            Node::Group(cs) => GNode::Grp(gviews(cs@)),
        }
    }
}

/// The spec values of a sequence of nodes.
pub open spec fn gviews(v: Seq<Node>) -> Seq<GNode>
    decreases v,
{
    if v.len() == 0 {
        Seq::empty()
    } else {
        gviews(v.drop_last()).push(v.last().gview())
    }
}

/// `gviews` is the pointwise image of `Node::gview`.
pub broadcast proof fn lemma_gviews(v: Seq<Node>)
    ensures
        (#[trigger] gviews(v)).len() == v.len(),
        forall|i: int| 0 <= i < v.len() ==> gviews(v)[i] == v[i].gview(),
    decreases v,
{
    if v.len() > 0 {
        lemma_gviews(v.drop_last());
    }
}

/// Appending a node appends its spec value.
pub broadcast proof fn lemma_gviews_push(v: Seq<Node>, n: Node)
    ensures
        #[trigger] gviews(v.push(n)) == gviews(v).push(n.gview()),
{
    assert(v.push(n).drop_last() =~= v);
    assert(v.push(n).last() == n);
}

/// Well-formedness of a parsed node: every group has an odd number of
/// children, alternating literal (even positions) and group (odd
/// positions), so its first child is always a literal -- the header.
pub open spec fn gnode_wf(n: GNode) -> bool
    decreases n,
{
    match n {
        GNode::Lit(_) => true,
        GNode::Grp(cs) => {
            &&& cs.len() % 2 == 1
            &&& forall|i: int|
                0 <= i < cs.len() ==> (if i % 2 == 0 {
                    #[trigger] cs[i] is Lit
                } else {
                    cs[i] is Grp
                }) && gnode_wf(cs[i])
        },
    }
}

/// Well-formedness of a whole level of sibling nodes: positions
/// alternate literal / group and every node is well-formed.
pub open spec fn nodes_wf(ns: Seq<GNode>) -> bool {
    forall|i: int|
        0 <= i < ns.len() ==> (if i % 2 == 0 {
            #[trigger] ns[i] is Lit
        } else {
            ns[i] is Grp
        }) && gnode_wf(ns[i])
}

} // verus!
