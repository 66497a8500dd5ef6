//! A line-oriented text rewriter driven by a brace-delimited pattern
//! mini-language.
//!
//! A *pattern* such as `/tmp/{file}` is parsed into a tree of literal and
//! group nodes, lowered to a regular expression with synthesized named
//! capture groups, and handed to the regex engine.  A *template* such as
//! `{file}.bak` is tokenized into alternating literal and placeholder
//! spans.  At run time each input line is tried against the compiled rules
//! in order; the first rule whose regex matches renders its template
//! against the captured values (plus four special values: whole line,
//! matched span, text before the match, text after the match).

pub mod ast;
pub mod compile;
pub mod context;
pub mod engine;
pub mod laws;
pub mod parser;
pub mod rules;
pub mod rx;
pub mod util;
