//! The docstring of a class, from the lines of its code.

use vstd::prelude::*;
use crate::chapter::lines::{docstring_mark, docstring_piece};
use crate::text::{
    chars_of, contains, count_in, count_matches, join, join_strings, str_contains, trimmed, views,
    without,
};

verus! {

/// First line at or after `from` that holds the docstring delimiter (the
/// number of lines when none does).
pub open spec fn first_marked(lines: Seq<Seq<char>>, from: int) -> int
    decreases lines.len() - from,
{
    if from < 0 || from >= lines.len() {
        lines.len() as int
    } else if contains(lines[from], docstring_mark()) {
        from
    } else {
        first_marked(lines, from + 1)
    }
}

/// The lines of the first docstring, each trimmed and without delimiters.
/// The docstring begins on the first line that holds the delimiter. It ends
/// there if that line holds the delimiter exactly twice, and else on the next
/// line that holds it, or with the last line.
pub open spec fn docstring_lines(lines: Seq<Seq<char>>) -> Seq<Seq<char>> {
    let first = first_marked(lines, 0);
    if first >= lines.len() {
        Seq::empty()
    } else if count_matches(lines[first], docstring_mark()) == 2 {
        seq![docstring_piece(lines[first])]
    } else {
        let closing = first_marked(lines, first + 1);
        let end = if closing < lines.len() {
            closing + 1
        } else {
            lines.len() as int
        };
        Seq::new((end - first) as nat, |i: int| docstring_piece(lines[first + i]))
    }
}

/// The first docstring as one text, its lines joined by newlines.
pub open spec fn docstring_text(lines: Seq<Seq<char>>) -> Option<Seq<char>> {
    if docstring_lines(lines).len() == 0 {
        None
    } else {
        Some(join(docstring_lines(lines), "\n"@))
    }
}

/// A docstring line without its surrounding whitespace and without
/// delimiters.
pub fn format_line(line: &str) -> (text: String)
    ensures
        text@ == docstring_piece(line@),
{
    without(trimmed(line), "\"\"\"")
}

/// First line at or after `from` that holds the docstring delimiter.
pub fn find_marked(code_block: &Vec<String>, from: usize) -> (at: usize)
    ensures
        at == first_marked(views(code_block@), from as int),
        from <= at || at == code_block.len(),
        at <= code_block.len(),
{
    let mut i: usize = from;
    while i < code_block.len()
        invariant
            from <= i,
            first_marked(views(code_block@), i as int) == first_marked(
                views(code_block@),
                from as int,
            ),
        decreases code_block.len() - i,
    {
        assert(views(code_block@)[i as int] == code_block@[i as int]@);
        if str_contains(code_block[i].as_str(), "\"\"\"") {
            return i;
        }
        i += 1;
    }
    code_block.len()
}

/// The lines of the first docstring of a code block, or `None` where the
/// block holds no delimiter.
pub fn get_docstring(code_block: &Vec<String>) -> (docstring: Option<Vec<String>>)
    ensures
        match docstring {
            Some(lines) => lines@.len() > 0 && views(lines@) == docstring_lines(
                views(code_block@),
            ),
            None => docstring_lines(views(code_block@)).len() == 0,
        },
{
    let ghost lines = views(code_block@);
    let n: usize = code_block.len();
    let first = find_marked(code_block, 0);
    if first >= n {
        return None;
    }
    assert(lines[first as int] == code_block@[first as int]@);
    let mut docstring: Vec<String> = Vec::new();
    let mark = chars_of("\"\"\"");
    let opening = chars_of(code_block[first].as_str());
    if count_in(&opening, &mark) == 2 {
        docstring.push(format_line(code_block[first].as_str()));
        assert(views(docstring@) =~= docstring_lines(lines));
        return Some(docstring);
    }
    let closing = find_marked(code_block, first + 1);
    let end: usize = if closing < n {
        closing + 1
    } else {
        n
    };
    let mut i: usize = first;
    while i < end
        invariant
            first <= i <= end <= n,
            n == code_block.len(),
            lines == views(code_block@),
            docstring.len() == i - first,
            forall|k: int|
                0 <= k < i - first ==> (#[trigger] docstring@[k])@ == docstring_piece(
                    lines[first + k],
                ),
        decreases end - i,
    {
        assert(lines[i as int] == code_block@[i as int]@);
        docstring.push(format_line(code_block[i].as_str()));
        i += 1;
    }
    assert(views(docstring@) =~= docstring_lines(lines));
    Some(docstring)
}

/// The first docstring of a code block as one text.
pub fn extract_docstring(code_block: &Vec<String>) -> (docstring: Option<String>)
    ensures
        match docstring {
            Some(text) => docstring_text(views(code_block@)) == Some(text@),
            None => docstring_text(views(code_block@)) is None,
        },
{
    match get_docstring(code_block) {
        Some(lines) => Some(join_strings(&lines, "\n")),
        None => None,
    }
}

} // verus!
