//! What a single source line is, seen on its own.
//!
//! A line is matched against a keyword together with what must follow it, so
//! that a comment or a string that merely mentions `class` or `def` is never
//! taken for a header.

use vstd::prelude::*;
use crate::text::{
    char_is_whitespace, chars_of, contains, contains_chars, count_in, count_matches, is_blank,
    is_whitespace, matches_at, remove_all, skip_whitespace, starts_with, trim, trim_bounds,
    trim_start, without,
};

verus! {

/// The delimiter that opens and closes a docstring.
pub open spec fn docstring_mark() -> Seq<char> {
    "\"\"\""@
}

/// The keyword, with its blank, that opens a class header.
pub open spec fn class_keyword() -> Seq<char> {
    "class "@
}

/// The keyword, with its blank, that opens a method header.
pub open spec fn method_keyword() -> Seq<char> {
    "def "@
}

/// The name that carries a module's export list.
pub open spec fn exports_name() -> Seq<char> {
    "__all__"@
}

/// The bracket that ends an export list.
pub open spec fn exports_end() -> Seq<char> {
    "]"@
}

/// The characters of a name: ASCII letters and digits, the underscore, and
/// every character beyond ASCII that is no whitespace.
pub open spec fn is_name_char(c: char) -> bool {
    let u = c as u32;
    ||| 0x61 <= u <= 0x7A
    ||| 0x41 <= u <= 0x5A
    ||| 0x30 <= u <= 0x39
    ||| u == 0x5F
    ||| u >= 0x80 && !is_whitespace(c)
}

/// First position at or after `from` that holds no name character.
pub open spec fn name_end(s: Seq<char>, from: int) -> int
    decreases s.len() - from,
{
    if 0 <= from < s.len() && is_name_char(s[from]) {
        name_end(s, from + 1)
    } else {
        from
    }
}

/// The name declared by a header: `text` begins with `keyword`, a non-empty
/// name follows at once, and right behind the name stands `(` or, for a
/// header that may do without parentheses, `:`.
pub open spec fn header_name(text: Seq<char>, keyword: Seq<char>, bare: bool) -> Option<
    Seq<char>,
> {
    let from = keyword.len() as int;
    let to = name_end(text, from);
    if starts_with(text, keyword) && from < to && to < text.len() && (text[to] == '(' || (bare
        && text[to] == ':')) {
        Some(text.subrange(from, to))
    } else {
        None
    }
}

/// Position of the `=` of an export-list assignment in `text`.
pub open spec fn exports_assign(text: Seq<char>) -> Option<int> {
    let at = skip_whitespace(text, exports_name().len() as int);
    if starts_with(text, exports_name()) && at < text.len() && text[at] == '=' {
        Some(at)
    } else {
        None
    }
}

/// What a docstring line adds to the docstring: its trimmed text without the
/// delimiters.
pub open spec fn docstring_piece(line: Seq<char>) -> Seq<char> {
    remove_all(trim(line), docstring_mark())
}

/// Number of leading whitespace characters.
pub open spec fn indent_of(line: Seq<char>) -> nat {
    trim_start(line) as nat
}

/// A line as the scanner sees it.
pub enum LineModel {
    /// Nothing but whitespace.
    Blank,
    /// Holds the docstring delimiter; `closed` when it holds it twice.
    Docstring { piece: Seq<char>, closed: bool },
    /// A class header.
    Class { name: Seq<char> },
    /// A method header.
    Method { name: Seq<char> },
    /// Starts an export list; `closed` when the closing bracket is on it.
    Exports { piece: Seq<char>, closed: bool },
    /// Anything else.
    Other,
}

/// The kind of `line`; the first description that fits, in the order of the
/// variants of `LineModel`, decides.
pub open spec fn classify_spec(line: Seq<char>) -> LineModel {
    let text = trim(line);
    if is_blank(line) {
        LineModel::Blank
    } else if contains(line, docstring_mark()) {
        LineModel::Docstring {
            piece: docstring_piece(line),
            closed: count_matches(line, docstring_mark()) >= 2,
        }
    } else if let Some(name) = header_name(text, class_keyword(), true) {
        LineModel::Class { name }
    } else if let Some(name) = header_name(text, method_keyword(), false) {
        LineModel::Method { name }
    } else if let Some(at) = exports_assign(text) {
        LineModel::Exports {
            piece: trim(text.subrange(at + 1, text.len() as int)),
            closed: contains(line, exports_end()),
        }
    } else {
        LineModel::Other
    }
}

/// A line as the scanner sees it.
#[derive(Debug, Clone, PartialEq, Eq)]
pub enum Line {
    Blank,
    Docstring { piece: String, closed: bool },
    Class { name: String },
    Method { name: String },
    Exports { piece: String, closed: bool },
    Other,
}

impl View for Line {
    type V = LineModel;

    open spec fn view(&self) -> LineModel {
        match self {
            Line::Blank => LineModel::Blank,
            Line::Docstring { piece, closed } => LineModel::Docstring {
                piece: piece@,
                closed: *closed,
            },
            Line::Class { name } => LineModel::Class { name: name@ },
            Line::Method { name } => LineModel::Method { name: name@ },
            Line::Exports { piece, closed } => LineModel::Exports { piece: piece@, closed: *closed },
            Line::Other => LineModel::Other,
        }
    }
}

/// Whether `c` may stand in a name.
pub fn char_is_name(c: char) -> (b: bool)
    ensures
        b == is_name_char(c),
{
    let u: u32 = c as u32;
    (0x61 <= u && u <= 0x7A) || (0x41 <= u && u <= 0x5A) || (0x30 <= u && u <= 0x39) || u == 0x5F
        || (u >= 0x80 && !char_is_whitespace(c))
}

/// The name that `text` declares behind `keyword`, if it is such a header.
pub fn header_name_in(text: &str, keyword: &str, bare: bool) -> (name: Option<String>)
    ensures
        match name {
            Some(n) => header_name(text@, keyword@, bare) == Some(n@),
            None => header_name(text@, keyword@, bare) is None,
        },
{
    let chars = chars_of(text);
    let key = chars_of(keyword);
    if !matches_at(&chars, &key, 0) {
        return None;
    }
    let n: usize = chars.len();
    let from: usize = key.len();
    let mut to: usize = from;
    while to < n && char_is_name(chars[to])
        invariant
            from <= to <= n,
            n == chars.len(),
            name_end(chars@, to as int) == name_end(chars@, from as int),
        decreases n - to,
    {
        to += 1;
    }
    if from < to && to < n && (chars[to] == '(' || (bare && chars[to] == ':')) {
        Some(String::from_str(text.substring_char(from, to)))
    } else {
        None
    }
}

/// Number of leading whitespace characters of `line`.
pub fn indentation(line: &str) -> (width: usize)
    ensures
        width == indent_of(line@),
{
    let chars = chars_of(line);
    let (a, _b) = trim_bounds(&chars);
    a
}

/// What a docstring line adds to the docstring.
pub fn docstring_piece_of(line: &str) -> (piece: String)
    ensures
        piece@ == docstring_piece(line@),
{
    let chars = chars_of(line);
    let (a, b) = trim_bounds(&chars);
    without(line.substring_char(a, b), "\"\"\"")
}

/// The kind of `line`.
pub fn classify(line: &str) -> (kind: Line)
    ensures
        kind@ == classify_spec(line@),
{
    let chars = chars_of(line);
    let (a, b) = trim_bounds(&chars);
    if a == chars.len() {
        return Line::Blank;
    }
    let text = line.substring_char(a, b);
    let mark = chars_of("\"\"\"");
    if contains_chars(&chars, &mark) {
        let piece = without(text, "\"\"\"");
        let closed = count_in(&chars, &mark) >= 2;
        return Line::Docstring { piece, closed };
    }
    match header_name_in(text, "class ", true) {
        Some(name) => {
            return Line::Class { name };
        },
        None => {},
    }
    match header_name_in(text, "def ", false) {
        Some(name) => {
            return Line::Method { name };
        },
        None => {},
    }
    let inner = chars_of(text);
    let key = chars_of("__all__");
    if matches_at(&inner, &key, 0) {
        let n: usize = inner.len();
        let mut at: usize = key.len();
        while at < n && char_is_whitespace(inner[at])
            invariant
                key.len() <= at <= n,
                n == inner.len(),
                skip_whitespace(inner@, at as int) == skip_whitespace(inner@, key.len() as int),
            decreases n - at,
        {
            at += 1;
        }
        if at < n && inner[at] == '=' {
            let rest = text.substring_char(at + 1, n);
            let rest_chars = chars_of(rest);
            let (ra, rb) = trim_bounds(&rest_chars);
            let piece = String::from_str(rest.substring_char(ra, rb));
            let end = chars_of("]");
            let closed = contains_chars(&chars, &end);
            return Line::Exports { piece, closed };
        }
    }
    Line::Other
}

} // verus!
