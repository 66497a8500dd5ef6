use patsub::compile::to_regex;
use patsub::engine::{assemble, pat_subst};
use patsub::parser::{parse, ParseErrorKind};
use patsub::context::MatchContext;
use patsub::rules::{compile_rules, pair_patsubs, CompileError};

fn chars(s: &str) -> Vec<char> {
    s.chars().collect()
}

fn string(v: &[char]) -> String {
    v.iter().collect()
}

fn compile_regex_text(pattern: &str, default: &str) -> String {
    let tree = parse(&chars(pattern)).unwrap();
    string(&to_regex(&tree, &chars(default)))
}

fn rules_of(pairs: &[(&str, &str)], default: &str) -> Vec<patsub::engine::Rule> {
    let pairs: Vec<(Vec<char>, Vec<char>)> =
        pairs.iter().map(|(p, s)| (chars(p), chars(s))).collect();
    compile_rules(&pairs, &chars(default)).ok().unwrap()
}

fn dispatch(pairs: &[(&str, &str)], default: &str, line: &str) -> Option<String> {
    let rules = rules_of(pairs, default);
    pat_subst(&rules, &chars(line)).map(|v| string(&v))
}

#[test]
fn test_parse() {
    let pattern = r"{b:batch_{1}.txt}";
    let compiled_regex = compile_regex_text(pattern, r"[^/&?=]*");
    let expected_regex = r"(?P<P_b>batch_(?P<P_1>\d*).txt)";
    assert_eq!(compiled_regex, expected_regex);
}

#[test]
fn literal_pattern_round_trip() {
    // a brace-free pattern compiles to itself and dispatch emits the
    // substitution verbatim on a matching line
    assert_eq!(compile_regex_text("abc", r"\w*"), "abc");
    assert_eq!(
        dispatch(&[("abc", "xyz")], r"\w*", "zzabczz"),
        Some("xyz".to_string())
    );
}

#[test]
fn escaped_braces_stay_literal() {
    // \{ and \} never open or close a group
    assert_eq!(compile_regex_text(r"a\{b\}c", r"\w*"), "a{b}c");
    // \\ compensates for the engine eating one backslash
    assert_eq!(compile_regex_text(r"a\\b", r"\w*"), r"a\\b");
    // any other escape passes through for the engine
    assert_eq!(compile_regex_text(r"a\d", r"\w*"), r"a\d");
    // a trailing backslash stays a literal backslash
    assert_eq!(compile_regex_text("a\\", r"\w*"), "a\\");
}

#[test]
fn header_explicit_regex() {
    assert_eq!(compile_regex_text(r"{n:\d+}", "[^/&?=]*"), r"(?P<P_n>\d+)");
}

#[test]
fn header_all_digits() {
    assert_eq!(compile_regex_text("{7}", "[^/&?=]*"), r"(?P<P_7>\d*)");
}

#[test]
fn header_empty() {
    assert_eq!(compile_regex_text("{}", "[^/&?=]*"), "(?P<P_>[^/&?=]*)");
}

#[test]
fn header_alphabetic_takes_default() {
    assert_eq!(compile_regex_text("{file}", "[^/&?=]*"), "(?P<P_file>[^/&?=]*)");
}

#[test]
fn anonymous_group_uses_configured_default() {
    // the caller-supplied default class drives what {} matches, and the
    // empty name is addressable as {} in the template
    assert_eq!(
        dispatch(&[("{}", "<{}>")], "[0-9]+", "abc123def"),
        Some("<123>".to_string())
    );
}

#[test]
fn first_match_wins() {
    // both rules would match; only the first one's substitution is used
    assert_eq!(
        dispatch(&[("a", "first"), ("a", "second")], r"\w*", "xax"),
        Some("first".to_string())
    );
}

#[test]
fn drop_on_no_match() {
    assert_eq!(dispatch(&[("zzz", "out")], r"\w*", "abc"), None);
}

#[test]
fn special_placeholders() {
    assert_eq!(
        dispatch(&[("123", "{^}-{%}-{$}")], r"\w*", "foo123bar"),
        Some("foo-123-bar".to_string())
    );
    assert_eq!(
        dispatch(&[("123", "{@}")], r"\w*", "foo123bar"),
        Some("foo123bar".to_string())
    );
}

#[test]
fn unknown_placeholder_renders_empty() {
    assert_eq!(
        dispatch(&[("abc", "<{nosuch}>")], r"\w*", "abc"),
        Some("<>".to_string())
    );
}

#[test]
fn odd_pair_gets_whole_match_substitution() {
    let args = vec![chars("123")];
    let pairs = pair_patsubs(&args);
    assert_eq!(pairs.len(), 1);
    assert_eq!(string(&pairs[0].0), "123");
    assert_eq!(string(&pairs[0].1), "{%}");
    let rules = compile_rules(&pairs, &chars(r"\w*")).ok().unwrap();
    assert_eq!(
        pat_subst(&rules, &chars("x123y")).map(|v| string(&v)),
        Some("123".to_string())
    );
}

#[test]
fn even_pairs_keep_their_order() {
    let args = vec![chars("a"), chars("1"), chars("b"), chars("2")];
    let pairs = pair_patsubs(&args);
    assert_eq!(pairs.len(), 2);
    assert_eq!(string(&pairs[0].0), "a");
    assert_eq!(string(&pairs[0].1), "1");
    assert_eq!(string(&pairs[1].0), "b");
    assert_eq!(string(&pairs[1].1), "2");
}

#[test]
fn nested_group_captures() {
    // the nested numeric group is addressable from the template
    assert_eq!(
        dispatch(&[("{b:batch_{1}.txt}", "{1}")], r"[^/&?=]*", "batch_042.txt"),
        Some("042".to_string())
    );
}

#[test]
fn named_group_capture_and_literals() {
    assert_eq!(
        dispatch(&[("/tmp/{file}", "name={file}")], r"[^/&?=]*", "/tmp/notes.txt"),
        Some("name=notes.txt".to_string())
    );
}

#[test]
fn scan_level_returns_at_unescaped_close() {
    // the scanning worker reports the position of the `}` that closed
    // its level, so the caller resumes right after it
    let (next, tree) = patsub::parser::parse_(&chars("a}b"), 0, 0).unwrap();
    assert_eq!(next, 1);
    assert_eq!(string(&to_regex(&tree, &chars(r"\w*"))), "a");
}

#[test]
fn assemble_renders_alternating_tokens() {
    let toks = vec![chars("x"), chars("a"), chars("y")];
    let ctx = MatchContext {
        entries: vec![(chars("P_a"), chars("1"))],
    };
    assert_eq!(string(&assemble(&toks, &ctx)), "x1y");
}

#[test]
fn later_context_binding_wins() {
    let ctx = MatchContext {
        entries: vec![
            (chars("P_a"), chars("old")),
            (chars("P_b"), chars("other")),
            (chars("P_a"), chars("new")),
        ],
    };
    assert_eq!(ctx.get(&chars("P_a")).map(|v| string(v)), Some("new".to_string()));
    assert_eq!(ctx.get(&chars("P_b")).map(|v| string(v)), Some("other".to_string()));
    assert_eq!(ctx.get(&chars("P_c")), None);
}

#[test]
fn unclosed_group_is_a_parse_error() {
    let e = parse(&chars("{a")).unwrap_err();
    assert_eq!(e.kind, ParseErrorKind::UnclosedGroup);
    assert_eq!(string(&e.pattern), "{a");
}

#[test]
fn stray_close_is_a_parse_error() {
    let e = parse(&chars("a}b")).unwrap_err();
    assert_eq!(e.kind, ParseErrorKind::StrayClose);
    assert_eq!(string(&e.pattern), "a}b");
}

#[test]
fn compile_rules_reports_pattern_fault() {
    let pairs = vec![(chars("{a"), chars("x"))];
    match compile_rules(&pairs, &chars(r"\w*")) {
        Err(CompileError::Pattern(e)) => {
            assert_eq!(e.kind, ParseErrorKind::UnclosedGroup);
            assert_eq!(string(&e.pattern), "{a");
        }
        _ => panic!("expected a pattern fault"),
    }
}

#[test]
fn compile_rules_reports_engine_fault() {
    // the explicit regex fragment is invalid for the engine
    let pairs = vec![(chars("{n:(}"), chars("x"))];
    match compile_rules(&pairs, &chars(r"\w*")) {
        Err(CompileError::Regex(_, src)) => {
            assert_eq!(string(&src), "((?P<P_n>())");
        }
        _ => panic!("expected an engine fault"),
    }
}

#[test]
fn empty_pattern_matches_everywhere() {
    // an empty pattern parses to one empty literal and matches at the start
    assert_eq!(
        dispatch(&[("", "<{@}>")], r"\w*", "abc"),
        Some("<abc>".to_string())
    );
}

#[test]
fn empty_capture_renders_empty() {
    // a group that captures the empty string renders as nothing
    assert_eq!(
        dispatch(&[("{n:x?}end", "[{n}]")], r"\w*", "zzend"),
        Some("[]".to_string())
    );
}
