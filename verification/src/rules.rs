//! Building the rule set: pairing raw pattern/substitution strings,
//! compiling each pattern to regex source, compiling each substitution
//! to template tokens, and handing the regex sources to the engine.
//!
//! Compilation faults are fatal: a pattern that does not parse, or a
//! lowered regex the engine rejects, stops the whole startup; nothing is
//! compiled lazily afterwards.

use vstd::prelude::*;
use crate::ast::{GNode, Node, gviews, gnode_wf, lemma_gviews};
use crate::compile::{seq_regex, to_regex};
use crate::engine::{Rule, rule_wf, texts_view};
use crate::parser::{ParseError, parse, spec_parse};
use crate::rx::{compile_regex, regex_pattern};
use crate::util::{copy_chars, extend_chars, key3};

verus! {

/// Why the rule set could not be built.
pub enum CompileError {
    /// A pattern or substitution has unbalanced braces; carries the
    /// parser's diagnostic with the offending text.
    Pattern(ParseError),
    /// The regex engine rejected a lowered pattern; carries the engine's
    /// error and the regex source it rejected.
    Regex(regex::Error, Vec<char>),
}

/// The regex source a pattern compiles to: the lowered node tree,
/// wrapped once more so the whole pattern is itself a capture group and
/// group 0 is always addressable.
pub open spec fn compiled_src(p: Seq<char>, default: Seq<char>) -> Seq<char> {
    seq!['('] + seq_regex(spec_parse(p)->Ok_0, default) + seq![')']
}

/// The header text of a group's children (the name/regex literal).
pub open spec fn header_text_of(cs: Seq<GNode>) -> Seq<char> {
    if cs.len() >= 1 && cs[0] is Lit {
        cs[0]->Lit_0
    } else {
        Seq::empty()
    }
}

/// The template tokens a parsed substitution denotes: each literal its
/// text, each group its header text (the placeholder name).
pub open spec fn spec_template(nodes: Seq<GNode>) -> Seq<Seq<char>> {
    Seq::new(
        nodes.len(),
        |i: int|
            match nodes[i] {
                GNode::Lit(t) => t,
                GNode::Grp(cs) => header_text_of(cs),
            },
    )
}

/// The implicit substitution for an unpaired final pattern: the whole
/// match.
pub open spec fn default_sub() -> Seq<char> {
    seq!['{', '%', '}']
}

/// Compiles one pattern to regex source: parse, lower with the given
/// default class, and wrap in one more capture group.
pub fn compile_pattern(pat: &Vec<char>, default: &Vec<char>) -> (r: Result<Vec<char>, ParseError>)
    ensures
        match r {
            Ok(src) => spec_parse(pat@) is Ok && src@ == compiled_src(pat@, default@),
            Err(e) => {
                &&& spec_parse(pat@) matches Err(k)
                &&& e.kind == k
                &&& e.pattern@ == pat@
            },
        },
{
    broadcast use lemma_gviews;

    match parse(pat) {
        Err(e) => Err(e),
        Ok(nodes) => {
            assert forall|j: int| 0 <= j < nodes@.len() implies gnode_wf(
                #[trigger] nodes@[j].gview(),
            ) by {
                assert(gviews(nodes@)[j] is Lit || gviews(nodes@)[j] is Grp);
                assert(gnode_wf(gviews(nodes@)[j]));
            }
            let body = to_regex(&nodes, default);
            let mut src: Vec<char> = Vec::new();
            src.push('(');
            extend_chars(&mut src, &body);
            src.push(')');
            proof {
                assert(src@ =~= compiled_src(pat@, default@));
            }
            Ok(src)
        },
    }
}

/// Compiles one substitution string to template tokens: parse it with
/// the same escape rules, then flatten -- a literal keeps its text, a
/// group contributes its header as a placeholder name.
pub fn compile_template(sub: &Vec<char>) -> (r: Result<Vec<Vec<char>>, ParseError>)
    ensures
        match r {
            Ok(toks) => {
                &&& spec_parse(sub@) matches Ok(ns)
                &&& texts_view(toks@) == spec_template(ns)
                &&& toks@.len() % 2 == 1
            },
            Err(e) => {
                &&& spec_parse(sub@) matches Err(k)
                &&& e.kind == k
                &&& e.pattern@ == sub@
            },
        },
{
    broadcast use lemma_gviews;

    match parse(sub) {
        Err(e) => Err(e),
        Ok(nodes) => {
            let ghost ns = gviews(nodes@);
            let mut toks: Vec<Vec<char>> = Vec::new();
            let mut i: usize = 0;
            while i < nodes.len()
                invariant
                    i <= nodes@.len(),
                    ns == gviews(nodes@),
                    ns.len() == nodes@.len(),
                    crate::ast::nodes_wf(ns),
                    toks@.len() == i,
                    texts_view(toks@) =~= spec_template(ns).take(i as int),
                decreases nodes@.len() - i,
            {
                broadcast use lemma_gviews;

                match &nodes[i] {
                    Node::Literal(t) => {
                        toks.push(copy_chars(t));
                    },
                    Node::Group(cs) => {
                        proof {
                            assert(ns[i as int] == nodes@[i as int].gview());
                            assert(gnode_wf(GNode::Grp(gviews(cs@))));
                            assert(gviews(cs@)[0] is Lit);
                            assert(gviews(cs@)[0] == cs@[0].gview());
                            crate::compile::lemma_gview_is_lit(cs@[0]);
                        }
                        match &cs[0] {
                            Node::Literal(t) => {
                                toks.push(copy_chars(t));
                            },
                            Node::Group(_) => unreached(),
                        }
                    },
                }
                assert(texts_view(toks@) =~= spec_template(ns).take(i + 1 as int));
                i = i + 1;
            }
            proof {
                assert(texts_view(toks@) =~= spec_template(ns));
            }
            Ok(toks)
        },
    }
}

/// Pairs the declared pattern/substitution strings in order; an odd
/// count gives the final unpaired pattern the implicit whole-match
/// substitution `{%}`.
pub fn pair_patsubs(args: &Vec<Vec<char>>) -> (r: Vec<(Vec<char>, Vec<char>)>)
    ensures
        r@.len() == (args@.len() + 1) / 2,
        forall|i: int|
            0 <= i < r@.len() ==> {
                &&& (#[trigger] r@[i]).0@ == args@[2 * i]@
                &&& r@[i].1@ == (if 2 * i + 1 < args@.len() {
                    args@[2 * i + 1]@
                } else {
                    default_sub()
                })
            },
{
    let n: usize = args.len();
    let half: usize = n - n / 2;
    assert(half as int == (n as int + 1) / 2);
    let mut r: Vec<(Vec<char>, Vec<char>)> = Vec::new();
    let mut k: usize = 0;
    while k < half
        invariant
            n == args@.len(),
            half as int == (args@.len() + 1) / 2,
            k <= half,
            r@.len() == k,
            forall|j: int|
                0 <= j < k ==> {
                    &&& (#[trigger] r@[j]).0@ == args@[2 * j]@
                    &&& r@[j].1@ == (if 2 * j + 1 < args@.len() {
                        args@[2 * j + 1]@
                    } else {
                        default_sub()
                    })
                },
        decreases half - k,
    {
        let pat = copy_chars(&args[2 * k]);
        let sub = if 2 * k + 1 < n {
            copy_chars(&args[2 * k + 1])
        } else {
            key3('{', '%', '}')
        };
        r.push((pat, sub));
        k = k + 1;
    }
    r
}

/// Compiles the whole rule set.  Every pattern and substitution is
/// parsed first, in declaration order, and the first unbalanced one
/// aborts the build; then each lowered regex source is handed to the
/// engine, and the first source the engine rejects aborts the build.
pub fn compile_rules(pairs: &Vec<(Vec<char>, Vec<char>)>, default: &Vec<char>) -> (r: Result<
    Vec<Rule>,
    CompileError,
>)
    ensures
        match r {
            Ok(rules) => {
                &&& rules@.len() == pairs@.len()
                &&& forall|i: int|
                    0 <= i < pairs@.len() ==> {
                        &&& spec_parse((#[trigger] pairs@[i]).0@) is Ok
                        &&& spec_parse(pairs@[i].1@) matches Ok(sn)
                        &&& regex_pattern(rules@[i].re) == compiled_src(pairs@[i].0@, default@)
                        &&& texts_view(rules@[i].template@) == spec_template(sn)
                        &&& rule_wf(rules@[i])
                    }
            },
            Err(CompileError::Pattern(e)) => exists|i: int|
                {
                    &&& 0 <= i < pairs@.len()
                    &&& forall|j: int|
                        0 <= j < i ==> spec_parse((#[trigger] pairs@[j]).0@) is Ok && spec_parse(
                            pairs@[j].1@,
                        ) is Ok
                    &&& {
                        ||| {
                            &&& spec_parse((#[trigger] pairs@[i]).0@) matches Err(k)
                            &&& e.kind == k
                            &&& e.pattern@ == pairs@[i].0@
                        }
                        ||| {
                            &&& spec_parse(pairs@[i].0@) is Ok
                            &&& spec_parse(pairs@[i].1@) matches Err(k)
                            &&& e.kind == k
                            &&& e.pattern@ == pairs@[i].1@
                        }
                    }
                },
            Err(CompileError::Regex(_, src)) => {
                &&& forall|j: int|
                    0 <= j < pairs@.len() ==> spec_parse((#[trigger] pairs@[j]).0@) is Ok
                        && spec_parse(pairs@[j].1@) is Ok
                &&& exists|i: int|
                    0 <= i < pairs@.len() && src@ == compiled_src((#[trigger] pairs@[i]).0@, default@)
            },
        },
{
    let mut srcs: Vec<Vec<char>> = Vec::new();
    let mut temps: Vec<Vec<Vec<char>>> = Vec::new();
    let mut i: usize = 0;
    while i < pairs.len()
        invariant
            i <= pairs@.len(),
            srcs@.len() == i,
            temps@.len() == i,
            forall|j: int|
                0 <= j < i ==> {
                    &&& spec_parse((#[trigger] pairs@[j]).0@) is Ok
                    &&& spec_parse(pairs@[j].1@) matches Ok(sn)
                    &&& srcs@[j]@ == compiled_src(pairs@[j].0@, default@)
                    &&& texts_view(temps@[j]@) == spec_template(sn)
                    &&& temps@[j]@.len() % 2 == 1
                },
        decreases pairs@.len() - i,
    {
        let src = match compile_pattern(&pairs[i].0, default) {
            Ok(s) => s,
            Err(e) => {
                return Err(CompileError::Pattern(e));
            },
        };
        let toks = match compile_template(&pairs[i].1) {
            Ok(t) => t,
            Err(e) => {
                return Err(CompileError::Pattern(e));
            },
        };
        srcs.push(src);
        temps.push(toks);
        i = i + 1;
    }

    let ghost srcs0 = srcs@;
    let ghost temps0 = temps@;
    let mut rules: Vec<Rule> = Vec::new();
    let mut k: usize = 0;
    while k < srcs.len()
        invariant
            k <= srcs0.len(),
            srcs@ == srcs0,
            srcs0.len() == pairs@.len(),
            temps0.len() == pairs@.len(),
            temps@ =~= temps0.skip(k as int),
            rules@.len() == k,
            forall|j: int|
                0 <= j < pairs@.len() ==> {
                    &&& spec_parse((#[trigger] pairs@[j]).0@) is Ok
                    &&& spec_parse(pairs@[j].1@) matches Ok(sn)
                    &&& srcs0[j]@ == compiled_src(pairs@[j].0@, default@)
                    &&& texts_view(temps0[j]@) == spec_template(sn)
                    &&& temps0[j]@.len() % 2 == 1
                },
            forall|j: int|
                0 <= j < k ==> {
                    &&& regex_pattern((#[trigger] rules@[j]).re) == srcs0[j]@
                    &&& rules@[j].template@ == temps0[j]@
                },
        decreases srcs0.len() - k,
    {
        match compile_regex(&srcs[k]) {
            Ok(re) => {
                let t = temps.remove(0);
                proof {
                    assert(t@ == temps0[k as int]@);
                    assert(temps@ =~= temps0.skip(k + 1int));
                }
                rules.push(Rule { re, template: t });
            },
            Err(err) => {
                let src_copy = copy_chars(&srcs[k]);
                proof {
                    assert(src_copy@ == compiled_src((pairs@[k as int]).0@, default@));
                }
                return Err(CompileError::Regex(err, src_copy));
            },
        }
        k = k + 1;
    }
    Ok(rules)
}

} // verus!
