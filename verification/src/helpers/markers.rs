//! The argument segment of a method header.

use vstd::prelude::*;
use super::{regex_split_parts, try_regex_split};
use crate::text::{chars_of, views};

verus! {

/// The regular expression that cuts a header at its parentheses: everything
/// up to the first `(`, or everything from a `)` on.
pub open spec fn arguments_pattern() -> Seq<char> {
    ".*?\\(|\\).*"@
}

/// The marking of `args` from position `pos` on: `current` is the text as
/// marked so far and `inside` tells whether a square bracket is open. A comma
/// inside brackets takes out the character at the position behind its own, as
/// counted in `current`, if there is one.
pub open spec fn mark_from(args: Seq<char>, pos: int, inside: bool, current: Seq<char>) -> Seq<
    char,
>
    decreases args.len() - pos,
{
    if pos < 0 || pos >= args.len() {
        current
    } else if args[pos] == '[' {
        mark_from(args, pos + 1, true, current)
    } else if args[pos] == ']' {
        mark_from(args, pos + 1, false, current)
    } else if args[pos] == ',' && inside && pos + 1 < current.len() {
        mark_from(args, pos + 1, inside, current.remove(pos + 1))
    } else {
        mark_from(args, pos + 1, inside, current)
    }
}

/// `args` with the commas inside square brackets marked: what follows such a
/// comma is taken out, so that `", "` splits the arguments and nothing else.
pub open spec fn mark_commas(args: Seq<char>) -> Seq<char> {
    mark_from(args, 0, false, args)
}

/// The first part that is not empty.
pub open spec fn first_filled(parts: Seq<Seq<char>>, from: int) -> Option<Seq<char>>
    decreases parts.len() - from,
{
    if from < 0 || from >= parts.len() {
        None
    } else if parts[from].len() > 0 {
        Some(parts[from])
    } else {
        first_filled(parts, from + 1)
    }
}

/// The marked argument segment, given the parts that the split of a header
/// at its parentheses made.
pub open spec fn arguments_from(parts: Option<Seq<Seq<char>>>) -> Option<Seq<char>> {
    match parts {
        Some(p) => match first_filled(p, 0) {
            Some(segment) => Some(mark_commas(segment)),
            None => None,
        },
        None => None,
    }
}

/// The marked argument segment of `header`.
pub open spec fn header_arguments(header: Seq<char>) -> Option<Seq<char>> {
    arguments_from(regex_split_parts(arguments_pattern(), header))
}

/// Marks the commas that do not divide the arguments of a method.
pub fn mark_commas_for_split(args: &str) -> (marked: String)
    ensures
        marked@ == mark_commas(args@),
{
    let chars = chars_of(args);
    let n: usize = chars.len();
    let mut current = String::from_str(args);
    let mut len: usize = n;
    let mut inside = false;
    let mut pos: usize = 0;
    while pos < n
        invariant
            pos <= n,
            n == chars.len(),
            chars@ == args@,
            len == current@.len(),
            mark_from(args@, pos as int, inside, current@) == mark_commas(args@),
        decreases n - pos,
    {
        let ch = chars[pos];
        if ch == '[' {
            inside = true;
        } else if ch == ']' {
            inside = false;
        } else if ch == ',' && inside && pos + 1 < len {
            let head = String::from_str(current.as_str().substring_char(0, pos + 1));
            let marked = head.concat(current.as_str().substring_char(pos + 2, len));
            assert(marked@ =~= current@.remove(pos + 1));
            current = marked;
            len = len - 1;
        }
        pos += 1;
    }
    current
}

/// The marked argument segment, given the parts that the split of a header
/// at its parentheses made.
pub fn arguments_of_parts(parts: &Vec<String>) -> (segment: Option<String>)
    ensures
        match segment {
            Some(s) => arguments_from(Some(views(parts@))) == Some(s@),
            None => arguments_from(Some(views(parts@))) is None,
        },
{
    let mut i: usize = 0;
    while i < parts.len()
        invariant
            i <= parts.len(),
            first_filled(views(parts@), i as int) == first_filled(views(parts@), 0),
        decreases parts.len() - i,
    {
        if !parts[i].as_str().is_empty() {
            return Some(mark_commas_for_split(parts[i].as_str()));
        }
        i += 1;
    }
    None
}

/// Fetches the arguments of a method from its header and marks the commas
/// that do not divide them.
pub fn get_header_arguments(header: &String) -> (segment: Option<String>)
    ensures
        match segment {
            Some(s) => header_arguments(header@) == Some(s@),
            None => header_arguments(header@) is None,
        },
{
    match try_regex_split(r".*?\(|\).*", false, header) {
        Some(parts) => arguments_of_parts(&parts),
        None => None,
    }
}

} // verus!
