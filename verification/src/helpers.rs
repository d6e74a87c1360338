//! Splitting text on a regular expression.

use regex::Regex;
use vstd::prelude::*;
use crate::text::{trim, trimmed, views};

pub mod markers;

verus! {

/// What the `regex` crate makes of splitting `haystack` on `pattern`: the
/// parts between the matches, in order, or `None` where it does not accept
/// the pattern.
pub uninterp spec fn regex_split_parts(pattern: Seq<char>, haystack: Seq<char>) -> Option<
    Seq<Seq<char>>,
>;

/// Compiles `pattern` with `regex::Regex::new` and splits `haystack` with
/// `regex::Regex::split`.
///
/// Believed, not proved: the outcome is the one that `regex_split_parts`
/// names, it is `None` exactly when the pattern is rejected, and a split
/// yields at least one part (behind the last match the iterator always
/// hands out what is left, be it empty).
#[verifier::external_body]
fn split_by_regex(pattern: &str, haystack: &str) -> (parts: Option<Vec<String>>)
    ensures
        match parts {
            Some(v) => regex_split_parts(pattern@, haystack@) == Some(views(v@)),
            None => regex_split_parts(pattern@, haystack@) is None,
        },
        parts matches Some(v) ==> v@.len() >= 1,
{
    match Regex::new(pattern) {
        Ok(re) => Some(re.split(haystack).map(|part| part.to_string()).collect()),
        Err(_) => None,
    }
}

/// The text that `regex_split` splits: `value`, trimmed on demand.
pub open spec fn split_input(trim_first: bool, value: Seq<char>) -> Seq<char> {
    if trim_first {
        trim(value)
    } else {
        value
    }
}

/// Splits `value` on the regular expression `r`, which must be one that the
/// `regex` crate accepts; with `trim`, leading and trailing whitespace of
/// `value` is dropped first.
pub fn regex_split(r: &str, trim: bool, value: &String) -> (parts: Vec<String>)
    requires
        regex_split_parts(r@, split_input(trim, value@)) is Some,
    ensures
        regex_split_parts(r@, split_input(trim, value@)) == Some(views(parts@)),
        parts@.len() >= 1,
{
    let haystack = if trim {
        trimmed(value.as_str())
    } else {
        value.as_str()
    };
    match split_by_regex(r, haystack) {
        Some(parts) => parts,
        None => Vec::new(),
    }
}

/// As `regex_split`, for any `r`: `None` where the `regex` crate does not
/// accept it.
pub fn try_regex_split(r: &str, trim: bool, value: &String) -> (parts: Option<Vec<String>>)
    ensures
        match parts {
            Some(v) => regex_split_parts(r@, split_input(trim, value@)) == Some(views(v@)),
            None => regex_split_parts(r@, split_input(trim, value@)) is None,
        },
        parts matches Some(v) ==> v@.len() >= 1,
{
    let haystack = if trim {
        trimmed(value.as_str())
    } else {
        value.as_str()
    };
    match split_by_regex(r, haystack) {
        Some(_) => Some(regex_split(r, trim, value)),
        None => None,
    }
}

} // verus!
