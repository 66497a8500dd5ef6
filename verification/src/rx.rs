//! The boundary to the regex engine.
//!
//! The engine itself is an external capability: the library hands it a
//! pattern text with `(?P<name>...)`-style named groups and receives the
//! leftmost match of a line, as plain character vectors.  What the
//! engine returns is named by `regex_find`; everything the library then
//! does with a match is verified against that name.

use vstd::prelude::*;

verus! {

#[verifier::external_type_specification]
#[verifier::external_body]
pub struct ExRegex(regex::Regex);

#[verifier::external_type_specification]
#[verifier::external_body]
pub struct ExRegexError(regex::Error);

/// The pattern text a compiled regex was built from (this crate always
/// builds with the engine's default configuration).
pub uninterp spec fn regex_pattern(re: regex::Regex) -> Seq<char>;

/// What the engine finds for a pattern in a line: nothing, or the
/// leftmost match as (text before the match, matched text, text after
/// the match, participating named groups with their captured text).
/// The match depends on the pattern and the line alone.
pub uninterp spec fn regex_find(pattern: Seq<char>, line: Seq<char>) -> Option<
    (Seq<char>, Seq<char>, Seq<char>, Map<Seq<char>, Seq<char>>),
>;

/// One match of a rule's regex in a line, as plain values: the three
/// spans the match cuts the line into, and each participating named
/// capture group with its captured text.
pub struct CapturesData {
    pub prefix: Vec<char>,
    pub matched: Vec<char>,
    pub suffix: Vec<char>,
    pub names: Vec<(Vec<char>, Vec<char>)>,
}

/// Relies on regex::Regex::new: on success the compiled regex's source
/// text is exactly the given pattern (as `Regex::as_str` reports); an
/// invalid pattern yields the engine's compile error.
#[verifier::external_body]
pub(crate) fn compile_regex(src: &Vec<char>) -> (r: Result<regex::Regex, regex::Error>)
    ensures
        r matches Ok(re) ==> regex_pattern(re) == src@,
{
    let s: String = src.iter().collect();
    regex::Regex::new(&s)
}

/// Relies on regex::Regex::captures and its accessors Captures::get,
/// Captures::name and Regex::capture_names: the leftmost match, whose
/// group 0 lies inside the haystack and so splits the line into prefix,
/// match and suffix; each named group that participated reports the text
/// of its span.  The same pattern and line always yield the same match.
#[verifier::external_body]
pub(crate) fn find_captures(re: &regex::Regex, line: &Vec<char>) -> (r: Option<CapturesData>)
    ensures
        r is Some <==> regex_find(regex_pattern(*re), line@) is Some,
        r matches Some(c) ==> regex_find(regex_pattern(*re), line@) matches Some(m) && {
            &&& c.prefix@ == m.0
            &&& c.matched@ == m.1
            &&& c.suffix@ == m.2
            &&& line@ == m.0 + m.1 + m.2
            &&& forall|i: int|
                #![auto]
                0 <= i < c.names@.len() ==> m.3.contains_key(c.names@[i].0@) && m.3[c.names@[i].0@]
                    == c.names@[i].1@
            &&& forall|k: Seq<char>|
                #![auto]
                m.3.contains_key(k) ==> exists|i: int|
                    0 <= i < c.names@.len() && c.names@[i].0@ == k
        },
{
    let s: String = line.iter().collect();
    let caps = re.captures(&s)?;
    let m0 = caps.get(0).unwrap();
    let names = re.capture_names().flatten().filter_map(
        |n| caps.name(n).map(|v| (n.chars().collect(), v.as_str().chars().collect())),
    ).collect();
    Some(CapturesData {
        prefix: s[..m0.start()].chars().collect(),
        matched: s[m0.start()..m0.end()].chars().collect(),
        suffix: s[m0.end()..].chars().collect(),
        names,
    })
}

} // verus!
