//! Lowering a parsed node tree to regex source text.
//!
//! A literal node contributes its text unchanged.  A group node becomes a
//! named capture group `(?P<P_name>regex...)`: the group's header (the
//! text before the first `:`) names the group, and the regex is the text
//! after the `:` if there is one, a digit class if the name is all ASCII
//! digits, and otherwise the caller-supplied default class.  The `P_`
//! marker keeps synthesized names out of the engine's own namespace.

use vstd::prelude::*;
use crate::ast::{GNode, Node, gviews, gnode_wf, lemma_gviews};
use crate::util::{extend_chars, range_chars};

verus! {

/// Whether `c` is an ASCII digit.
pub open spec fn is_digit(c: char) -> bool {
    48 <= c as u32 <= 57
}

/// Whether the header is all ASCII digits.
pub open spec fn all_digits(h: Seq<char>) -> bool {
    forall|i: int| 0 <= i < h.len() ==> is_digit(#[trigger] h[i])
}

/// Index of the first `:` in `h`, or -1 if there is none.
pub open spec fn first_colon(h: Seq<char>) -> int
    decreases h.len(),
{
    if h.len() == 0 {
        -1
    } else if h[0] == ':' {
        0
    } else {
        let r = first_colon(h.drop_first());
        if r < 0 {
            -1
        } else {
            r + 1
        }
    }
}

/// `first_colon` finds the first `:` exactly: a colon at the returned
/// index, none before it, and -1 only when the header has no colon.
pub proof fn lemma_first_colon(h: Seq<char>)
    ensures
        first_colon(h) == -1 ==> forall|i: int| 0 <= i < h.len() ==> h[i] != ':',
        first_colon(h) != -1 ==> {
            &&& 0 <= first_colon(h) < h.len()
            &&& h[first_colon(h)] == ':'
            &&& forall|m: int| 0 <= m < first_colon(h) ==> h[m] != ':'
        },
    decreases h.len(),
{
    if h.len() == 0 {
    } else if h[0] == ':' {
    } else {
        let t = h.drop_first();
        lemma_first_colon(t);
        if first_colon(t) < 0 {
            assert forall|i: int| 0 <= i < h.len() implies h[i] != ':' by {
                if i >= 1 {
                    assert(t[i - 1] == h[i]);
                }
            }
        } else {
            assert(h[first_colon(h)] == t[first_colon(t)]);
            assert forall|m: int| 0 <= m < first_colon(h) implies h[m] != ':' by {
                if m >= 1 {
                    assert(t[m - 1] == h[m]);
                }
            }
        }
    }
}

/// The group name encoded by header text `h`.
pub open spec fn header_name(h: Seq<char>) -> Seq<char> {
    if h.len() == 0 {
        Seq::empty()
    } else if first_colon(h) >= 0 {
        h.take(first_colon(h))
    } else {
        h
    }
}

/// The regex fragment the header resolves to: explicit regex after a
/// `:`, the digit class for an all-digit name, else the default class.
pub open spec fn header_rx(h: Seq<char>, default: Seq<char>) -> Seq<char> {
    if h.len() == 0 {
        default
    } else if first_colon(h) >= 0 {
        h.skip(first_colon(h) + 1)
    } else if all_digits(h) {
        seq!['\\', 'd', '*']
    } else {
        default
    }
}

/// The opening of a synthesized capture group for `name`.
pub open spec fn group_open(name: Seq<char>) -> Seq<char> {
    seq!['(', '?', 'P', '<', 'P', '_'] + name + seq!['>']
}

/// Regex text of one group, given all its children (header first).
pub open spec fn group_regex(cs: Seq<GNode>, default: Seq<char>) -> Seq<char>
    decreases cs, 1int,
{
    let h = if cs.len() >= 1 && cs[0] is Lit {
        cs[0]->Lit_0
    } else {
        Seq::empty()
    };
    let content = if cs.len() >= 1 {
        seq_regex(cs.drop_first(), default)
    } else {
        seq_regex(cs, default)
    };
    group_open(header_name(h)) + header_rx(h, default) + content + seq![')']
}

/// Regex text of a sequence of sibling nodes.
pub open spec fn seq_regex(nodes: Seq<GNode>, default: Seq<char>) -> Seq<char>
    decreases nodes, 0int,
{
    if nodes.len() == 0 {
        Seq::empty()
    } else {
        (match nodes[0] {
            GNode::Lit(t) => t,
            GNode::Grp(cs) => group_regex(cs, default),
        }) + seq_regex(nodes.drop_first(), default)
    }
}

/// Position of the first `:` in `h`, if any.
fn find_colon(h: &Vec<char>) -> (r: Option<usize>)
    ensures
        match r {
            Some(k) => first_colon(h@) == k as int,
            None => first_colon(h@) == -1,
        },
{
    let mut k: usize = 0;
    while k < h.len()
        invariant
            k <= h@.len(),
            forall|m: int| 0 <= m < k ==> h@[m] != ':',
        decreases h@.len() - k,
    {
        if h[k] == ':' {
            proof {
                lemma_first_colon(h@);
            }
            return Some(k);
        }
        k = k + 1;
    }
    proof {
        lemma_first_colon(h@);
    }
    None
}

/// Whether every character of `h` is an ASCII digit.
fn check_all_digits(h: &Vec<char>) -> (r: bool)
    ensures
        r == all_digits(h@),
{
    let mut k: usize = 0;
    while k < h.len()
        invariant
            k <= h@.len(),
            forall|m: int| 0 <= m < k ==> is_digit(#[trigger] h@[m]),
        decreases h@.len() - k,
    {
        let u = h[k] as u32;
        if u < 48 || u > 57 {
            return false;
        }
        k = k + 1;
    }
    true
}

/// Appends to `result` the regex text of the nodes of `tree` from
/// position `start` on: the content of one group when `is_group` is set
/// (the node at `start` is then the group's header literal), otherwise a
/// plain sibling sequence.
pub fn to_regex_(
    tree: &Vec<Node>,
    start: usize,
    is_group: bool,
    default: &Vec<char>,
    result: &mut Vec<char>,
)
    requires
        start <= tree@.len(),
        forall|j: int| start <= j < tree@.len() ==> gnode_wf(#[trigger] tree@[j].gview()),
        is_group ==> start < tree@.len() && tree@[start as int] is Literal,
    ensures
        final(result)@ == old(result)@ + (if is_group {
            group_regex(gviews(tree@.skip(start as int)), default@)
        } else {
            seq_regex(gviews(tree@.skip(start as int)), default@)
        }),
    decreases tree@, (if is_group { 1int } else { 0int }),
{
    broadcast use lemma_gviews;

    let ghost base = result@;
    let n: usize = tree.len();
    let mut j: usize = start;

    if is_group {
        let h = match &tree[start] {
            Node::Literal(t) => t,
            Node::Group(_) => unreached(),
        };
        let ghost hs = h@;
        assert(gviews(tree@.skip(start as int))[0] == tree@[start as int].gview());

        // opening and name: `(?P<P_` + name + `>`
        result.push('(');
        result.push('?');
        result.push('P');
        result.push('<');
        result.push('P');
        result.push('_');
        let colon = find_colon(h);
        match colon {
            Some(k) => {
                proof {
                    lemma_first_colon(hs);
                }
                let hl: usize = h.len();
                let name = range_chars(h, 0, k);
                extend_chars(result, &name);
                result.push('>');
                let rx = range_chars(h, k + 1, hl);
                extend_chars(result, &rx);
                proof {
                    lemma_first_colon(hs);
                    assert(header_name(hs) =~= hs.take(first_colon(hs)));
                    assert(header_rx(hs, default@) =~= hs.skip(first_colon(hs) + 1));
                }
            },
            None => {
                extend_chars(result, h);
                result.push('>');
                if h.len() > 0 && check_all_digits(h) {
                    result.push('\\');
                    result.push('d');
                    result.push('*');
                } else {
                    extend_chars(result, default);
                }
            },
        }
        proof {
            assert(result@ =~= base + group_open(header_name(hs)) + header_rx(hs, default@));
        }
        j = start + 1;
    }

    let ghost mid = result@;
    let ghost j0 = j as int;

    while j < tree.len()
        invariant
            j0 <= j <= tree@.len(),
            forall|m: int| j0 <= m < tree@.len() ==> gnode_wf(#[trigger] tree@[m].gview()),
            result@ + seq_regex(gviews(tree@.skip(j as int)), default@) == mid + seq_regex(
                gviews(tree@.skip(j0)),
                default@,
            ),
        decreases tree@.len() - j,
    {
        broadcast use lemma_gviews;

        let ghost before = result@;
        let ghost rem = gviews(tree@.skip(j as int));
        proof {
            assert(rem[0] == tree@[j as int].gview());
            assert(rem.drop_first() =~= gviews(tree@.skip(j + 1int)));
        }
        match &tree[j] {
            Node::Literal(t) => {
                extend_chars(result, t);
            },
            Node::Group(sub) => {
                proof {
                    assert(gnode_wf(GNode::Grp(gviews(sub@))));
                    assert(gviews(sub@)[0] is Lit);
                    assert(gviews(sub@)[0] == sub@[0].gview());
                    lemma_gview_is_lit(sub@[0]);
                    assert forall|m: int| 0 <= m < sub@.len() implies gnode_wf(
                        #[trigger] sub@[m].gview(),
                    ) by {
                        assert(gviews(sub@)[m] is Lit || gviews(sub@)[m] is Grp);
                        assert(gnode_wf(gviews(sub@)[m]));
                        assert(gviews(sub@)[m] == sub@[m].gview());
                    }
                    assert(decreases_to!(tree@ => tree@[j as int]));
                    assert(decreases_to!(tree@[j as int] => *sub));
                }
                to_regex_(sub, 0, true, default, result);
                proof {
                    assert(sub@.skip(0) =~= sub@);
                    assert(result@ == before + group_regex(gviews(sub@), default@));
                }
            },
        }
        proof {
            assert(result@ + seq_regex(gviews(tree@.skip(j + 1int)), default@) =~= before
                + seq_regex(rem, default@));
        }
        j = j + 1;
    }

    proof {
        assert(gviews(tree@.skip(tree@.len() as int)).len() == 0);
        assert(result@ =~= mid + seq_regex(gviews(tree@.skip(j0)), default@));
    }

    if is_group {
        result.push(')');
        proof {
            let cs = gviews(tree@.skip(start as int));
            assert(cs.drop_first() =~= gviews(tree@.skip(start + 1int)));
            assert(result@ =~= base + group_regex(cs, default@));
        }
    }
}

/// The spec value of a literal node is a literal, and of a group node a
/// group.
pub proof fn lemma_gview_is_lit(n: Node)
    ensures
        n.gview() is Lit <==> n is Literal,
{
    match n {
        Node::Literal(t) => {},
        Node::Group(cs) => {},
    }
}

/// The full regex text of a parsed pattern: the concatenation of its
/// sibling nodes' contributions.
pub fn to_regex(tree: &Vec<Node>, default: &Vec<char>) -> (r: Vec<char>)
    requires
        forall|j: int| 0 <= j < tree@.len() ==> gnode_wf(#[trigger] tree@[j].gview()),
    ensures
        r@ == seq_regex(gviews(tree@), default@),
{
    let mut result: Vec<char> = Vec::new();
    to_regex_(tree, 0, false, default, &mut result);
    proof {
        assert(tree@.skip(0) =~= tree@);
    }
    result
}

} // verus!
