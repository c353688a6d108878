//! Regular expressions, matched by the `regex` crate.

use regex::Regex;
use vstd::prelude::*;

verus! {

/// Whether the regular expression `pattern` matches somewhere in `text`;
/// `None` where `pattern` cannot be compiled: it is no regular expression, or
/// one too large.
pub uninterp spec fn pattern_match(pattern: Seq<char>, text: Seq<char>) -> Option<bool>;

/// What the capture group `group` holds in the first match of the regular
/// expression `pattern` in `text`; `None` where there is no match, where the
/// group took no part in it, or where `pattern` cannot be compiled.
pub uninterp spec fn pattern_group(pattern: Seq<char>, text: Seq<char>, group: nat) -> Option<
    Seq<char>,
>;

/// Whether `pattern` is a regular expression that matches somewhere in `text`.
pub open spec fn matched(pattern: Seq<char>, text: Seq<char>) -> bool {
    pattern_match(pattern, text) == Some(true)
}

/// Compiles `pattern` with `regex::Regex::new` and searches `text` with
/// `Regex::is_match`. Nothing is claimed of the answer but that it depends on
/// the two texts alone.
#[verifier::external_body]
pub(crate) fn is_match(pattern: &str, text: &str) -> (out: Option<bool>)
    ensures
        out == pattern_match(pattern@, text@),
{
    match Regex::new(pattern) {
        Ok(re) => Some(re.is_match(text)),
        Err(_) => None,
    }
}

/// Compiles `pattern` with `regex::Regex::new`, searches `text` with
/// `Regex::captures` and copies what `Captures::get` finds for `group`.
/// Nothing is claimed of the answer but that it depends on the arguments alone.
#[verifier::external_body]
pub(crate) fn capture(pattern: &str, text: &str, group: usize) -> (out: Option<String>)
    ensures
        match out {
            Some(found) => pattern_group(pattern@, text@, group as nat) == Some(found@),
            None => pattern_group(pattern@, text@, group as nat) is None,
        },
{
    match Regex::new(pattern) {
        Ok(re) => match re.captures(text) {
            Some(groups) => match groups.get(group) {
                Some(found) => Some(found.as_str().to_string()),
                None => None,
            },
            None => None,
        },
        Err(_) => None,
    }
}

} // verus!
