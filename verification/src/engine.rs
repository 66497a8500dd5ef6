//! Rendering templates and dispatching lines over the rule set.
//!
//! A compiled template is an alternating sequence literal, placeholder,
//! literal, ..., literal (odd length).  Rendering concatenates the
//! literals verbatim and replaces each placeholder by the context's
//! value for `P_` + name, or by nothing when the context has no such
//! binding -- referencing an unmatched or unknown group is deliberately
//! not an error.  Dispatch tries the rules strictly in order and renders
//! the first rule whose regex matches; a line no rule matches produces
//! no output.

use vstd::prelude::*;
use crate::context::{MatchContext, build_context, lemma_entries_denote, pairs_view,
    spec_context};
use crate::rx::{find_captures, regex_find, regex_pattern};
use crate::util::{copy_chars, extend_chars};

verus! {

/// The spec values of a sequence of character vectors.
pub open spec fn texts_view(v: Seq<Vec<char>>) -> Seq<Seq<char>> {
    Seq::new(v.len(), |i: int| v[i]@)
}

/// The context key a template placeholder refers to: `P_` + name.
pub open spec fn placeholder_key(name: Seq<char>) -> Seq<char> {
    seq!['P', '_'] + name
}

/// What a placeholder renders to: the context's value for its key, or
/// nothing when the context has no such binding.
pub open spec fn placeholder_value(ctx: Map<Seq<char>, Seq<char>>, name: Seq<char>) -> Seq<char> {
    if ctx.contains_key(placeholder_key(name)) {
        ctx[placeholder_key(name)]
    } else {
        Seq::empty()
    }
}

/// Rendering of the (placeholder, literal) pairs that follow the
/// leading literal of a template.
pub open spec fn assemble_rest(toks: Seq<Seq<char>>, ctx: Map<Seq<char>, Seq<char>>) -> Seq<char>
    decreases toks.len(),
{
    if toks.len() < 2 {
        Seq::empty()
    } else {
        placeholder_value(ctx, toks[0]) + toks[1] + assemble_rest(toks.skip(2), ctx)
    }
}

/// Rendering of a whole template against a context.
pub open spec fn spec_assemble(toks: Seq<Seq<char>>, ctx: Map<Seq<char>, Seq<char>>) -> Seq<char> {
    if toks.len() == 0 {
        Seq::empty()
    } else {
        toks[0] + assemble_rest(toks.drop_first(), ctx)
    }
}

/// Renders template tokens against a match context: literals at even
/// positions verbatim, placeholders at odd positions through the
/// context, an absent binding rendering as nothing.
pub fn assemble(s: &Vec<Vec<char>>, ctx: &MatchContext) -> (r: Vec<char>)
    requires
        s@.len() % 2 == 1,
    ensures
        r@ == spec_assemble(texts_view(s@), ctx@),
{
    let ghost toks = texts_view(s@);
    assert(toks.len() == s@.len());
    let mut res = copy_chars(&s[0]);
    let mut i: usize = 1;
    proof {
        assert(toks.drop_first() =~= toks.skip(1));
    }
    while i < s.len()
        invariant
            1 <= i <= toks.len(),
            i % 2 == 1,
            toks == texts_view(s@),
            toks.len() == s@.len(),
            s@.len() % 2 == 1,
            res@ + assemble_rest(toks.skip(i as int), ctx@) == spec_assemble(toks, ctx@),
        decreases s@.len() - i,
    {
        let ghost rem = toks.skip(i as int);
        proof {
            assert(rem[0] == toks[i as int]);
            assert(rem[1] == toks[i + 1int]);
            assert(rem.skip(2) =~= toks.skip(i + 2int));
        }
        let mut key: Vec<char> = Vec::new();
        key.push('P');
        key.push('_');
        extend_chars(&mut key, &s[i]);
        proof {
            assert(key@ =~= placeholder_key(toks[i as int]));
        }
        match ctx.get(&key) {
            Some(v) => {
                extend_chars(&mut res, v);
            },
            None => {},
        }
        extend_chars(&mut res, &s[i + 1]);
        i = i + 2;
    }
    proof {
        assert(toks.skip(toks.len() as int).len() == 0);
    }
    res
}

/// One compiled rule: the regex the engine matches lines with, and the
/// template tokens rendered when it does.
pub struct Rule {
    pub re: regex::Regex,
    pub template: Vec<Vec<char>>,
}

/// A rule's template always has the alternating odd shape.
pub open spec fn rule_wf(r: Rule) -> bool {
    r.template@.len() % 2 == 1
}

/// What a matching rule outputs for a line: its template rendered
/// against the context of the match.
pub open spec fn rule_output(r: Rule, x: Seq<char>) -> Seq<char> {
    match regex_find(regex_pattern(r.re), x) {
        Some(m) => spec_assemble(texts_view(r.template@), spec_context(m)),
        None => Seq::empty(),
    }
}

/// First-match dispatch: the output of the first rule whose regex
/// matches the line, or nothing when no rule matches.
pub open spec fn spec_dispatch(rules: Seq<Rule>, x: Seq<char>) -> Option<Seq<char>>
    decreases rules.len(),
{
    if rules.len() == 0 {
        None
    } else if regex_find(regex_pattern(rules[0].re), x) is Some {
        Some(rule_output(rules[0], x))
    } else {
        spec_dispatch(rules.drop_first(), x)
    }
}

/// Tries the rules strictly in declaration order against one line and
/// renders the first match; at most one rule fires, and a line no rule
/// matches yields nothing.
pub fn pat_subst(rules: &Vec<Rule>, x: &Vec<char>) -> (r: Option<Vec<char>>)
    requires
        forall|i: int| 0 <= i < rules@.len() ==> rule_wf(#[trigger] rules@[i]),
    ensures
        match r {
            Some(out) => spec_dispatch(rules@, x@) == Some(out@),
            None => spec_dispatch(rules@, x@) is None,
        },
{
    let mut i: usize = 0;
    proof {
        assert(rules@.skip(0) =~= rules@);
    }
    while i < rules.len()
        invariant
            i <= rules@.len(),
            forall|j: int| 0 <= j < rules@.len() ==> rule_wf(#[trigger] rules@[j]),
            spec_dispatch(rules@, x@) == spec_dispatch(rules@.skip(i as int), x@),
        decreases rules@.len() - i,
    {
        let ghost rem = rules@.skip(i as int);
        proof {
            assert(rem[0] == rules@[i as int]);
            assert(rem.drop_first() =~= rules@.skip(i + 1int));
        }
        let rule = &rules[i];
        match find_captures(&rule.re, x) {
            Some(c) => {
                let ghost m = regex_find(regex_pattern(rule.re), x@)->Some_0;
                proof {
                    let pv = pairs_view(c.names@);
                    assert(pv.len() == c.names@.len());
                    assert forall|idx: int| 0 <= idx < pv.len() implies m.3.contains_key(
                        (#[trigger] pv[idx]).0,
                    ) && m.3[pv[idx].0] == pv[idx].1 by {
                        assert(pv[idx] == (c.names@[idx].0@, c.names@[idx].1@));
                    }
                    assert forall|k: Seq<char>| #[trigger] m.3.contains_key(k) implies exists|idx: int|
                        0 <= idx < pv.len() && pv[idx].0 == k by {
                        let w = choose|idx: int|
                            0 <= idx < c.names@.len() && c.names@[idx].0@ == k;
                        assert(pv[w].0 == k);
                    }
                    lemma_entries_denote(pv, m.3);
                }
                let ctx = build_context(&c);
                proof {
                    assert(ctx@ == spec_context(m));
                }
                let out = assemble(&rule.template, &ctx);
                return Some(out);
            },
            None => {},
        }
        i = i + 1;
    }
    proof {
        assert(rules@.skip(rules@.len() as int).len() == 0);
    }
    None
}

} // verus!
