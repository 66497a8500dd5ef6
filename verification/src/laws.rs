//! Laws of the pattern language, stated and proved once for all inputs.

use vstd::prelude::*;
use crate::ast::GNode;
use crate::compile::{all_digits, first_colon, header_name, header_rx, lemma_first_colon,
    seq_regex};
use crate::context::spec_context;
use crate::engine::{Rule, assemble_rest, placeholder_key, rule_output, spec_assemble,
    spec_dispatch, texts_view};
use crate::parser::{ParseErrorKind, ScanOutcome, scan, spec_parse, wrapped};
use crate::rules::{compiled_src, spec_template};
use crate::rx::{regex_find, regex_pattern};

verus! {

/// The literal text an escaped pattern stands for: `\{` and `\}` become
/// plain braces, `\\` becomes two backslashes (one for the regex engine
/// to eat), any other escape passes through, and a trailing backslash
/// stays a backslash.
pub open spec fn esc_expand(p: Seq<char>) -> Seq<char>
    decreases p.len(),
{
    if p.len() == 0 {
        Seq::empty()
    } else if p[0] == '\\' {
        if p.len() == 1 {
            seq!['\\']
        } else if p[1] == '{' || p[1] == '}' {
            seq![p[1]] + esc_expand(p.skip(2))
        } else if p[1] == '\\' {
            seq!['\\', '\\'] + esc_expand(p.skip(2))
        } else {
            seq!['\\', p[1]] + esc_expand(p.skip(2))
        }
    } else {
        seq![p[0]] + esc_expand(p.skip(1))
    }
}

/// Whether every `{` and `}` in the pattern is escaped by a backslash.
pub open spec fn fully_escaped(p: Seq<char>) -> bool
    decreases p.len(),
{
    if p.len() == 0 {
        true
    } else if p[0] == '\\' {
        p.len() == 1 || fully_escaped(p.skip(2))
    } else {
        p[0] != '{' && p[0] != '}' && fully_escaped(p.skip(1))
    }
}

/// Scanning a fully escaped stretch up to the final wrapper `}` only
/// grows the pending literal: no group opens and none closes early.
proof fn lemma_scan_escaped(w: Seq<char>, i: int, buf: Seq<char>, acc: Seq<GNode>)
    requires
        2 <= w.len(),
        w[w.len() - 1] == '}',
        1 <= i <= w.len() - 1,
        fully_escaped(w.subrange(i, w.len() - 1)),
    ensures
        scan(w, i, 1, false, buf, acc) == (ScanOutcome::Done {
            next: w.len() - 1,
            nodes: acc.push(GNode::Lit(buf + esc_expand(w.subrange(i, w.len() - 1)))),
        }),
    decreases w.len() - i,
{
    let rem = w.subrange(i, w.len() - 1);
    if i == w.len() - 1 {
        assert(buf + esc_expand(rem) =~= buf);
    } else {
        assert(rem[0] == w[i]);
        if w[i] == '\\' {
            if i == w.len() - 2 {
                assert(rem.len() == 1);
                assert(scan(w, i + 1, 1, true, buf, acc) == scan(
                    w,
                    i + 1,
                    1,
                    false,
                    buf.push('\\'),
                    acc,
                ));
                assert(buf + esc_expand(rem) =~= buf.push('\\'));
            } else {
                assert(rem.len() >= 2);
                assert(rem[1] == w[i + 1]);
                assert(rem.skip(2) =~= w.subrange(i + 2, w.len() - 1));
                let c2 = w[i + 1];
                if c2 == '{' || c2 == '}' {
                    lemma_scan_escaped(w, i + 2, buf.push(c2), acc);
                    assert(buf.push(c2) + esc_expand(rem.skip(2)) =~= buf + esc_expand(rem));
                } else if c2 == '\\' {
                    lemma_scan_escaped(w, i + 2, buf.push('\\').push('\\'), acc);
                    assert(buf.push('\\').push('\\') + esc_expand(rem.skip(2)) =~= buf
                        + esc_expand(rem));
                } else {
                    lemma_scan_escaped(w, i + 2, buf.push('\\').push(c2), acc);
                    assert(buf.push('\\').push(c2) + esc_expand(rem.skip(2)) =~= buf + esc_expand(
                        rem,
                    ));
                }
            }
        } else {
            assert(rem.skip(1) =~= w.subrange(i + 1, w.len() - 1));
            lemma_scan_escaped(w, i + 1, buf.push(w[i]), acc);
            assert(buf.push(w[i]) + esc_expand(rem.skip(1)) =~= buf + esc_expand(rem));
        }
    }
}

/// Escaping law: in a fully escaped pattern no `\{` or `\}` ever opens
/// or closes a group -- the whole pattern parses to one single literal,
/// whose text is the escape expansion, and its compiled regex is that
/// literal inside the one overall capture group.
pub proof fn lemma_escaping(p: Seq<char>, d: Seq<char>)
    requires
        fully_escaped(p),
    ensures
        spec_parse(p) == Ok::<Seq<GNode>, ParseErrorKind>(seq![GNode::Lit(esc_expand(p))]),
        compiled_src(p, d) == seq!['('] + esc_expand(p) + seq![')'],
{
    let w = wrapped(p);
    assert(w.len() == p.len() + 2);
    assert(w[0] == '{');
    assert(w[w.len() - 1] == '}');
    assert(w.subrange(1, w.len() - 1) =~= p);
    lemma_scan_escaped(w, 1, Seq::empty(), Seq::empty());
    let lit = GNode::Lit(esc_expand(p));
    assert(Seq::empty() + esc_expand(p) =~= esc_expand(p));
    assert(scan(w, 1, 1, false, Seq::empty(), Seq::empty()) == (ScanOutcome::Done {
        next: w.len() - 1,
        nodes: seq![lit],
    })) by {
        assert(Seq::<GNode>::empty().push(lit) =~= seq![lit]);
    }
    let acc2 = Seq::<GNode>::empty().push(GNode::Lit(Seq::empty())).push(GNode::Grp(seq![lit]));
    assert(scan(w, 0, 0, false, Seq::empty(), Seq::empty()) == scan(
        w,
        w.len() as int,
        0,
        false,
        Seq::empty(),
        acc2,
    ));
    assert(scan(w, w.len() as int, 0, false, Seq::empty(), acc2) == (ScanOutcome::Done {
        next: w.len() as int,
        nodes: acc2,
    }));
    assert(acc2[1] is Grp);
    assert(acc2[1]->Grp_0 =~= seq![lit]);
    assert(seq_regex(seq![lit], d) =~= esc_expand(p)) by {
        assert(seq![lit].drop_first() =~= Seq::<GNode>::empty());
        assert(seq_regex(seq![lit].drop_first(), d) =~= Seq::<char>::empty());
        assert(esc_expand(p) + Seq::<char>::empty() =~= esc_expand(p));
    }
    assert(compiled_src(p, d) =~= seq!['('] + esc_expand(p) + seq![')']);
}

/// Whether a pattern mentions no brace and no backslash at all.
pub open spec fn plain_text(p: Seq<char>) -> bool {
    forall|i: int| 0 <= i < p.len() ==> p[i] != '{' && p[i] != '}' && (#[trigger] p[i]) != '\\'
}

/// Plain text is fully escaped and expands to itself.
pub proof fn lemma_plain_text(p: Seq<char>)
    requires
        plain_text(p),
    ensures
        fully_escaped(p),
        esc_expand(p) == p,
    decreases p.len(),
{
    if p.len() > 0 {
        assert(forall|i: int| 0 <= i < p.skip(1).len() ==> p.skip(1)[i] == #[trigger] p[i + 1]);
        lemma_plain_text(p.skip(1));
        assert(seq![p[0]] + esc_expand(p.skip(1)) =~= p);
    }
}

/// Round trip of literal patterns: a pattern with no braces and no
/// backslashes parses to one literal holding exactly that text, its
/// compiled regex is that text inside the one overall capture group,
/// and a rule built from it with a plain substitution renders the
/// substitution verbatim on every line its regex matches.
pub proof fn lemma_literal_round_trip(
    p: Seq<char>,
    sub: Seq<char>,
    d: Seq<char>,
    r: Rule,
    x: Seq<char>,
)
    requires
        plain_text(p),
        plain_text(sub),
        regex_pattern(r.re) == compiled_src(p, d),
        texts_view(r.template@) == spec_template(spec_parse(sub)->Ok_0),
    ensures
        spec_parse(p) == Ok::<Seq<GNode>, ParseErrorKind>(seq![GNode::Lit(p)]),
        compiled_src(p, d) == seq!['('] + p + seq![')'],
        regex_find(regex_pattern(r.re), x) is Some ==> spec_dispatch(seq![r], x) == Some(sub),
{
    lemma_plain_text(p);
    lemma_escaping(p, d);
    lemma_plain_text(sub);
    lemma_escaping(sub, d);
    let toks = spec_template(seq![GNode::Lit(sub)]);
    assert(toks =~= seq![sub]);
    if regex_find(regex_pattern(r.re), x) is Some {
        let m = regex_find(regex_pattern(r.re), x)->Some_0;
        assert(spec_assemble(toks, spec_context(m)) == sub) by {
            assert(toks.drop_first() =~= Seq::<Seq<char>>::empty());
            assert(assemble_rest(toks.drop_first(), spec_context(m)) =~= Seq::<char>::empty());
            assert(sub + Seq::<char>::empty() =~= sub);
        }
        assert(seq![r][0] == r);
        assert(spec_dispatch(seq![r], x) == Some(rule_output(r, x)));
    }
}

/// Naming rule precedence for a group header `h`: an explicit regex
/// after the first `:` wins; else an all-digit name takes the digit
/// class; else -- the name empty, alphabetic or anything else -- the
/// configured default class applies.
pub proof fn lemma_header_precedence(h: Seq<char>, d: Seq<char>)
    ensures
        first_colon(h) >= 0 ==> header_name(h) == h.take(first_colon(h)) && header_rx(h, d)
            == h.skip(first_colon(h) + 1),
        h.len() > 0 && first_colon(h) < 0 && all_digits(h) ==> header_name(h) == h && header_rx(
            h,
            d,
        ) == seq!['\\', 'd', '*'],
        h.len() > 0 && first_colon(h) < 0 && !all_digits(h) ==> header_name(h) == h && header_rx(
            h,
            d,
        ) == d,
        h.len() == 0 ==> header_name(h) == Seq::<char>::empty() && header_rx(h, d) == d,
{
    lemma_first_colon(h);
    if first_colon(h) >= 0 {
        assert(h.len() > 0);
    }
}

/// First match wins: dispatch renders the rule at `k` when every rule
/// before `k` fails to match and the rule at `k` matches.
pub proof fn lemma_dispatch_first(rules: Seq<Rule>, x: Seq<char>, k: int)
    requires
        0 <= k < rules.len(),
        forall|j: int| 0 <= j < k ==> regex_find(regex_pattern((#[trigger] rules[j]).re), x)
            is None,
        regex_find(regex_pattern(rules[k].re), x) is Some,
    ensures
        spec_dispatch(rules, x) == Some(rule_output(rules[k], x)),
    decreases k,
{
    if k == 0 {
    } else {
        assert(regex_find(regex_pattern(rules[0].re), x) is None);
        let t = rules.drop_first();
        assert(forall|j: int| 0 <= j < k - 1 ==> t[j] == #[trigger] rules[j + 1]);
        lemma_dispatch_first(t, x, k - 1);
        assert(t[k - 1] == rules[k]);
    }
}

/// First match wins, for a pair of rules that would both match: only
/// the first one's substitution is used.
pub proof fn lemma_first_of_two(a: Rule, b: Rule, x: Seq<char>)
    requires
        regex_find(regex_pattern(a.re), x) is Some,
    ensures
        spec_dispatch(seq![a, b], x) == Some(rule_output(a, x)),
{
    assert(seq![a, b][0] == a);
}

/// Drop on no match: a line no rule matches dispatches to nothing.
pub proof fn lemma_drop_on_no_match(rules: Seq<Rule>, x: Seq<char>)
    requires
        forall|j: int| 0 <= j < rules.len() ==> regex_find(
            regex_pattern((#[trigger] rules[j]).re),
            x,
        ) is None,
    ensures
        spec_dispatch(rules, x) is None,
    decreases rules.len(),
{
    if rules.len() > 0 {
        let t = rules.drop_first();
        assert(forall|j: int| 0 <= j < t.len() ==> t[j] == #[trigger] rules[j + 1]);
        lemma_drop_on_no_match(t, x);
    }
}

/// Unknown placeholder leniency: a placeholder whose key the context
/// does not bind renders as nothing -- never as an error.
pub proof fn lemma_unknown_placeholder(
    pre: Seq<char>,
    name: Seq<char>,
    post: Seq<char>,
    ctx: Map<Seq<char>, Seq<char>>,
)
    requires
        !ctx.contains_key(placeholder_key(name)),
    ensures
        spec_assemble(seq![pre, name, post], ctx) == pre + post,
{
    let toks = seq![pre, name, post];
    assert(toks.drop_first() =~= seq![name, post]);
    assert(seq![name, post].skip(2) =~= Seq::<Seq<char>>::empty());
    assert(assemble_rest(Seq::<Seq<char>>::empty(), ctx) == Seq::<char>::empty());
    assert(seq![name, post][0] == name);
    assert(seq![name, post][1] == post);
    assert(assemble_rest(seq![name, post], ctx) == Seq::<char>::empty() + post + Seq::<
        char,
    >::empty());
    assert(pre + (Seq::<char>::empty() + post + Seq::<char>::empty()) =~= pre + post);
}

} // verus!

