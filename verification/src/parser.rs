//! The escape-aware tokenizing parser: a brace-delimited pattern string
//! becomes a tree of literal and group nodes.
//!
//! The whole pattern is conceptually wrapped in one implicit brace pair,
//! so the pattern itself is a capture-group context; the wrapper is
//! stripped again before the tree is returned.  A backslash escapes `{`,
//! `}` and itself; every other escape is passed through unchanged for the
//! regex engine to interpret.

use vstd::prelude::*;
use crate::ast::{GNode, Node, gviews, gnode_wf, nodes_wf, lemma_gviews, lemma_gviews_push};
use crate::util::copy_chars;

verus! {

/// Why a pattern was rejected.
#[derive(Clone, Copy, Debug, PartialEq, Eq, Structural)]
pub enum ParseErrorKind {
    /// A group was still open when the pattern ended.
    UnclosedGroup,
    /// An unescaped `}` closed a group that was never opened.
    StrayClose,
}

/// A rejected pattern: the kind of fault and the offending pattern text.
#[derive(Debug)]
pub struct ParseError {
    pub kind: ParseErrorKind,
    pub pattern: Vec<char>,
}

/// Outcome of scanning one nesting level: a parse fault, or the nodes of
/// the level together with the position the caller resumes at.
pub enum ScanOutcome {
    Fail { kind: ParseErrorKind },
    Done { next: int, nodes: Seq<GNode> },
}

/// One nesting level of the scan, one character per step.
///
/// State: position `i`, nesting level `lvl` (the implicit wrapper counts
/// one level), whether the previous character was an escaping backslash,
/// the pending literal characters `buf`, and the nodes `acc` finished so
/// far on this level.  A level ends at an unescaped `}` (recording its
/// position), or at the end of input when no group is open.
pub open spec fn scan(
    s: Seq<char>,
    i: int,
    lvl: int,
    escape: bool,
    buf: Seq<char>,
    acc: Seq<GNode>,
) -> ScanOutcome
    decreases s.len() - i, (if escape { 1int } else { 0int }),
{
    if i < 0 || i >= s.len() {
        if lvl > 0 {
            ScanOutcome::Fail { kind: ParseErrorKind::UnclosedGroup }
        } else {
            ScanOutcome::Done { next: s.len() as int, nodes: acc }
        }
    } else {
        let c = s[i];
        if escape {
            if i == s.len() - 1 {
                // a trailing backslash stays a literal backslash and the
                // final character is handled unescaped
                scan(s, i, lvl, false, buf.push('\\'), acc)
            } else if c == '{' || c == '}' {
                scan(s, i + 1, lvl, false, buf.push(c), acc)
            } else if c == '\\' {
                // the regex engine eats one backslash; supply two
                scan(s, i + 1, lvl, false, buf.push('\\').push('\\'), acc)
            } else {
                scan(s, i + 1, lvl, false, buf.push('\\').push(c), acc)
            }
        } else if c == '\\' {
            scan(s, i + 1, lvl, true, buf, acc)
        } else if c == '{' {
            match scan(s, i + 1, lvl + 1, false, Seq::empty(), Seq::empty()) {
                ScanOutcome::Fail { kind } => ScanOutcome::Fail { kind },
                ScanOutcome::Done { next, nodes } => {
                    if i < next && next < s.len() {
                        scan(
                            s,
                            next + 1,
                            lvl,
                            false,
                            Seq::empty(),
                            acc.push(GNode::Lit(buf)).push(GNode::Grp(nodes)),
                        )
                    } else {
                        // a closed level always resumes within the input;
                        // see lemma_scan_props
                        ScanOutcome::Fail { kind: ParseErrorKind::UnclosedGroup }
                    }
                },
            }
        } else if c == '}' {
            if lvl == 1 && i < s.len() - 1 {
                ScanOutcome::Fail { kind: ParseErrorKind::StrayClose }
            } else {
                ScanOutcome::Done { next: i, nodes: acc.push(GNode::Lit(buf)) }
            }
        } else {
            scan(s, i + 1, lvl, false, buf.push(c), acc)
        }
    }
}

/// What every finished level looks like: the scan resumes at or after
/// where it started and within bounds; a level above the bottom ends on a
/// `}` -- the outermost such level exactly on the final character -- and
/// yields an odd, alternating, well-formed node sequence when the nodes
/// finished so far do.
pub proof fn lemma_scan_props(
    s: Seq<char>,
    i: int,
    lvl: int,
    escape: bool,
    buf: Seq<char>,
    acc: Seq<GNode>,
)
    requires
        0 <= i <= s.len(),
        0 <= lvl,
        acc.len() % 2 == 0,
        nodes_wf(acc),
    ensures
        scan(s, i, lvl, escape, buf, acc) matches ScanOutcome::Done { next, nodes } ==> {
            &&& i <= next <= s.len()
            &&& nodes_wf(nodes)
            &&& lvl >= 1 ==> next < s.len() && s[next] == '}' && nodes.len() % 2 == 1
            &&& lvl == 1 ==> next == s.len() - 1
        },
    decreases s.len() - i, (if escape { 1int } else { 0int }),
{
    if i >= s.len() {
        // end of input: nothing to do
    } else {
        let c = s[i];
        if escape {
            if i == s.len() - 1 {
                lemma_scan_props(s, i, lvl, false, buf.push('\\'), acc);
            } else if c == '{' || c == '}' {
                lemma_scan_props(s, i + 1, lvl, false, buf.push(c), acc);
            } else if c == '\\' {
                lemma_scan_props(s, i + 1, lvl, false, buf.push('\\').push('\\'), acc);
            } else {
                lemma_scan_props(s, i + 1, lvl, false, buf.push('\\').push(c), acc);
            }
        } else if c == '\\' {
            lemma_scan_props(s, i + 1, lvl, true, buf, acc);
        } else if c == '{' {
            lemma_scan_props(s, i + 1, lvl + 1, false, Seq::empty(), Seq::empty());
            match scan(s, i + 1, lvl + 1, false, Seq::empty(), Seq::empty()) {
                ScanOutcome::Fail { kind } => {},
                ScanOutcome::Done { next, nodes } => {
                    let acc2 = acc.push(GNode::Lit(buf)).push(GNode::Grp(nodes));
                    assert(gnode_wf(GNode::Grp(nodes)));
                    assert(nodes_wf(acc2)) by {
                        assert(forall|j: int|
                            0 <= j < acc.len() ==> acc2[j] == #[trigger] acc[j]);
                    }
                    lemma_scan_props(s, next + 1, lvl, false, Seq::empty(), acc2);
                },
            }
        } else if c == '}' {
            if !(lvl == 1 && i < s.len() - 1) {
                let nodes = acc.push(GNode::Lit(buf));
                assert(nodes_wf(nodes)) by {
                    assert(forall|j: int|
                        0 <= j < acc.len() ==> nodes[j] == #[trigger] acc[j]);
                }
            }
        } else {
            lemma_scan_props(s, i + 1, lvl, false, buf.push(c), acc);
        }
    }
}

/// The implicit wrapper around a whole pattern: `{` + pattern + `}`.
pub open spec fn wrapped(p: Seq<char>) -> Seq<char> {
    seq!['{'] + p + seq!['}']
}

/// What parsing a whole pattern yields: the children of the implicit
/// wrapper group, or the fault that stopped the scan.
pub open spec fn spec_parse(p: Seq<char>) -> Result<Seq<GNode>, ParseErrorKind> {
    match scan(wrapped(p), 0, 0, false, Seq::empty(), Seq::empty()) {
        ScanOutcome::Fail { kind } => Err(kind),
        ScanOutcome::Done { next, nodes } => {
            if nodes.len() == 2 && nodes[1] is Grp {
                Ok(nodes[1]->Grp_0)
            } else {
                // a wrapped scan that succeeds always ends with exactly the
                // wrapper literal and the wrapper group; see lemma_parse_shape
                Err(ParseErrorKind::StrayClose)
            }
        },
    }
}

/// A successful scan of a wrapped pattern always yields exactly two nodes
/// -- the empty literal in front of the wrapper group, then the group --
/// and the group's children are odd in number, alternating and
/// well-formed.
pub proof fn lemma_parse_shape(p: Seq<char>)
    ensures
        scan(wrapped(p), 0, 0, false, Seq::empty(), Seq::empty()) matches ScanOutcome::Done {
            next,
            nodes,
        } ==> {
            &&& next == wrapped(p).len()
            &&& nodes =~= seq![GNode::Lit(Seq::empty()), nodes[1]]
            &&& nodes[1] is Grp
            &&& nodes_wf(nodes[1]->Grp_0)
            &&& nodes[1]->Grp_0.len() % 2 == 1
        },
        spec_parse(p) matches Ok(ns) ==> nodes_wf(ns) && ns.len() % 2 == 1,
{
    let w = wrapped(p);
    assert(w.len() == p.len() + 2);
    assert(w[0] == '{');
    lemma_scan_props(w, 1, 1, false, Seq::empty(), Seq::empty());
    match scan(w, 1, 1, false, Seq::empty(), Seq::empty()) {
        ScanOutcome::Fail { kind } => {},
        ScanOutcome::Done { next, nodes } => {
            assert(next == w.len() - 1);
            let acc2 = Seq::empty().push(GNode::Lit(Seq::empty())).push(GNode::Grp(nodes));
            assert(scan(w, 0, 0, false, Seq::empty(), Seq::empty()) == scan(
                w,
                next + 1,
                0,
                false,
                Seq::empty(),
                acc2,
            ));
            assert(scan(w, next + 1, 0, false, Seq::empty(), acc2) == (ScanOutcome::Done {
                next: w.len() as int,
                nodes: acc2,
            }));
        },
    }
}

/// Scans one nesting level of `s` from position `i`, at nesting depth
/// `lvl`, and returns the position of the `}` that closed the level (or
/// the input length at the bottom level) together with the level's nodes.
pub fn parse_(s: &Vec<char>, i: usize, lvl: usize) -> (r: Result<(usize, Vec<Node>), ParseError>)
    requires
        i <= s@.len(),
        lvl + s@.len() - i <= usize::MAX,
    ensures
        match r {
            Ok(pair) => scan(s@, i as int, lvl as int, false, Seq::empty(), Seq::empty())
                == (ScanOutcome::Done { next: pair.0 as int, nodes: gviews(pair.1@) }),
            Err(e) => {
                &&& scan(s@, i as int, lvl as int, false, Seq::empty(), Seq::empty())
                    matches ScanOutcome::Fail { kind }
                &&& e.kind == kind
                &&& e.pattern@ == s@
            },
        },
    decreases s@.len() - i,
{
    let mut pos: usize = i;
    let mut buf: Vec<char> = Vec::new();
    let mut tree: Vec<Node> = Vec::new();
    let mut escape: bool = false;

    while pos < s.len()
        invariant
            i <= pos,
            pos <= s@.len(),
            lvl + s@.len() - i <= usize::MAX,
            scan(s@, i as int, lvl as int, false, Seq::empty(), Seq::empty()) == scan(
                s@,
                pos as int,
                lvl as int,
                escape,
                buf@,
                gviews(tree@),
            ),
        decreases s@.len() - pos, (if escape { 1int } else { 0int }),
    {
        broadcast use lemma_gviews, lemma_gviews_push;

        let c = s[pos];

        if escape {
            if pos == s.len() - 1 {
                // trailing backslash: keep it literally, then handle the
                // final character unescaped
                buf.push('\\');
                escape = false;
                continue ;
            } else if c == '{' || c == '}' {
                buf.push(c);
            } else if c == '\\' {
                // the regex engine eats one backslash; supply two
                buf.push('\\');
                buf.push('\\');
            } else {
                buf.push('\\');
                buf.push(c);
            }
            pos = pos + 1;
            escape = false;
            continue ;
        }

        if c == '\\' {
            pos = pos + 1;
            escape = true;
            continue ;
        }

        if c == '{' {
            proof {
                lemma_scan_props(s@, pos + 1, lvl + 1int, false, Seq::empty(), Seq::empty());
            }
            match parse_(s, pos + 1, lvl + 1) {
                Err(e) => {
                    proof {
                        assert(scan(s@, pos as int, lvl as int, escape, buf@, gviews(tree@))
                            matches ScanOutcome::Fail { kind } && kind == e.kind);
                    }
                    return Err(e);
                },
                Ok((i_, subtree)) => {
                    tree.push(Node::Literal(buf));
                    tree.push(Node::Group(subtree));
                    buf = Vec::new();
                    pos = i_;
                },
            }
        } else if c == '}' {
            if lvl == 1 && pos < s.len() - 1 {
                return Err(
                    ParseError { kind: ParseErrorKind::StrayClose, pattern: copy_chars(s) },
                );
            }
            tree.push(Node::Literal(buf));
            return Ok((pos, tree));
        } else {
            buf.push(c);
        }

        pos = pos + 1;
    }

    if lvl > 0 {
        return Err(ParseError { kind: ParseErrorKind::UnclosedGroup, pattern: copy_chars(s) });
    }
    Ok((pos, tree))
}

/// Parses a whole pattern: the pattern is wrapped in the implicit brace
/// pair, scanned, and the wrapper is stripped from the result.  On
/// failure the error carries the offending pattern text.
pub fn parse(s: &Vec<char>) -> (r: Result<Vec<Node>, ParseError>)
    ensures
        match r {
            Ok(nodes) => {
                &&& spec_parse(s@) == Ok::<Seq<GNode>, ParseErrorKind>(gviews(nodes@))
                &&& nodes_wf(gviews(nodes@))
                &&& nodes@.len() % 2 == 1
            },
            Err(e) => {
                &&& spec_parse(s@) == Err::<Seq<GNode>, ParseErrorKind>(e.kind)
                &&& e.pattern@ == s@
            },
        },
{
    broadcast use lemma_gviews;

    let mut w: Vec<char> = Vec::new();
    w.push('{');
    let mut i: usize = 0;
    while i < s.len()
        invariant
            i <= s@.len(),
            w@ == seq!['{'] + s@.subrange(0, i as int),
        decreases s@.len() - i,
    {
        w.push(s[i]);
        assert(w@ =~= seq!['{'] + s@.subrange(0, i + 1 as int));
        i = i + 1;
    }
    w.push('}');
    let wl: usize = w.len();
    proof {
        assert(w@ =~= wrapped(s@));
        assert(w@.len() == wl as int);
        lemma_parse_shape(s@);
    }

    match parse_(&w, 0, 0) {
        Err(e) => Err(ParseError { kind: e.kind, pattern: copy_chars(s) }),
        Ok(pair) => {
            let mut nodes = pair.1;
            let ghost orig = nodes@;
            assert(orig.len() == 2);
            let nd = match nodes.pop() {
                Some(n) => n,
                None => unreached(),
            };
            proof {
                assert(orig =~= nodes@.push(nd));
                assert(nd.gview() == gviews(orig)[1]);
            }
            match nd {
                Node::Group(cs) => Ok(cs),
                Node::Literal(t) => {
                    proof {
                        assert(nd.gview() is Lit);
                    }
                    unreached()
                },
            }
        },
    }
}

} // verus!

