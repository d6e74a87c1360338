//! A class, cut out of the lines of a file.

use vstd::prelude::*;
use super::docstring::{docstring_text, extract_docstring};
use super::method::{extract_methods, headers_of, methods_of};
use super::pyobjects::{ClassModel, PythonClass};
use crate::helpers::{regex_split_parts, try_regex_split};
use vstd::utf8::is_ascii_chars;
use crate::text::{
    byte_len, contains, lemma_byte_len, lemma_char_bytes, str_contains, str_views, trim, trimmed,
    views,
};

verus! {

/// The regular expression that cuts a class header at its parentheses and
/// commas.
pub open spec fn inheritance_separator() -> Seq<char> {
    "(\\(|\\):|,)"@
}

/// What a class without docstring reports as its docstring.
pub open spec fn no_docstring() -> Seq<char> {
    "None"@
}

/// The inherited names, given the parts of a class header: every part but
/// the first and the last, trimmed. A header of one part inherits nothing.
pub open spec fn inheritance_from(parts: Seq<Seq<char>>) -> Option<Seq<Seq<char>>> {
    if parts.len() <= 1 {
        None
    } else {
        Some(Seq::new((parts.len() - 2) as nat, |i: int| trim(parts[i + 1])))
    }
}

/// The names that the class of header `line` inherits from.
pub open spec fn inheritance_of(line: Seq<char>) -> Option<Seq<Seq<char>>> {
    match regex_split_parts(inheritance_separator(), trim(line)) {
        Some(parts) => inheritance_from(parts),
        None => None,
    }
}

/// The beginning of the header of class `name` with a list of bases.
pub open spec fn header_with_bases(name: Seq<char>) -> Seq<char> {
    "class "@ + name + "("@
}

/// The header of class `name` without bases.
pub open spec fn header_without_bases(name: Seq<char>) -> Seq<char> {
    "class "@ + name + ":"@
}

/// `line` holds the header of class `name`.
pub open spec fn is_class_header(line: Seq<char>, name: Seq<char>) -> bool {
    contains(line, header_with_bases(name)) || contains(line, header_without_bases(name))
}

/// A short line: an empty one, or one ASCII character.
pub open spec fn is_short(line: Seq<char>) -> bool {
    line.len() == 0 || (line.len() == 1 && line[0] <= '\u{7f}')
}

/// The short lines are those of at most one byte.
pub proof fn lemma_short_line(line: Seq<char>)
    ensures
        is_short(line) <==> byte_len(line) <= 1,
{
    lemma_byte_len(line);
    if line.len() == 1 {
        lemma_char_bytes(line[0]);
        assert(is_ascii_chars(line) <==> line[0] <= '\u{7f}');
    }
}

/// The code block of class `name` from line `i` on, and its header. The block
/// begins with the first line that holds the header (`started` tells whether
/// it has begun) and ends with the second of two short lines in a row, or
/// with the last line. The header is made of every line of the block that
/// holds the header, end to end.
pub open spec fn block_from(lines: Seq<Seq<char>>, name: Seq<char>, i: int, started: bool) -> (
    Seq<Seq<char>>,
    Seq<char>,
)
    decreases lines.len() - i,
{
    if i < 0 || i >= lines.len() {
        (Seq::empty(), Seq::empty())
    } else if !started && !is_class_header(lines[i], name) {
        block_from(lines, name, i + 1, false)
    } else {
        let rest = if is_short(lines[i]) && i > 0 && is_short(lines[i - 1]) {
            (Seq::empty(), Seq::empty())
        } else {
            block_from(lines, name, i + 1, true)
        };
        let header = if is_class_header(lines[i], name) {
            lines[i]
        } else {
            Seq::empty()
        };
        (seq![lines[i]] + rest.0, header + rest.1)
    }
}

/// The class `name` as found in `lines`.
pub open spec fn class_of(lines: Seq<Seq<char>>, name: Seq<char>) -> ClassModel {
    let (block, header) = block_from(lines, name, 0, false);
    ClassModel {
        name,
        methods: methods_of(headers_of(block)),
        inheritance: match inheritance_of(header) {
            Some(bases) => bases,
            None => Seq::empty(),
        },
        docstring: match docstring_text(block) {
            Some(text) => text,
            None => no_docstring(),
        },
    }
}

/// The inherited names, given the parts of a class header.
pub fn inheritance_from_parts(parts: &Vec<String>) -> (bases: Option<Vec<String>>)
    ensures
        match bases {
            Some(b) => inheritance_from(views(parts@)) == Some(views(b@)),
            None => inheritance_from(views(parts@)) is None,
        },
{
    if parts.len() <= 1 {
        return None;
    }
    let mut bases: Vec<String> = Vec::new();
    let mut i: usize = 1;
    while i < parts.len() - 1
        invariant
            1 <= i <= parts.len() - 1,
            bases.len() == i - 1,
            forall|k: int| 0 <= k < i - 1 ==> (#[trigger] bases@[k])@ == trim(parts@[k + 1]@),
        decreases parts.len() - i,
    {
        bases.push(String::from_str(trimmed(parts[i].as_str())));
        i += 1;
    }
    assert(views(bases@) =~= inheritance_from(views(parts@))->0);
    Some(bases)
}

/// Extracts the names that a class inherits from, given its header. Filters
/// and constraints are not told apart from names.
pub fn extract_class_inheritance(line: &String) -> (bases: Option<Vec<String>>)
    ensures
        match bases {
            Some(b) => inheritance_of(line@) == Some(views(b@)),
            None => inheritance_of(line@) is None,
        },
{
    match try_regex_split(r"(\(|\):|,)", true, line) {
        Some(parts) => inheritance_from_parts(&parts),
        None => None,
    }
}

/// The code block of the class and its header.
pub fn separate_code_block(code_lines: Vec<&str>, class_name: &str) -> (cut: (Vec<String>, String))
    ensures
        (views(cut.0@), cut.1@) == block_from(str_views(code_lines@), class_name@, 0, false),
{
    let ghost lines = str_views(code_lines@);
    let ghost goal = block_from(lines, class_name@, 0, false);
    let with_bases = String::from_str("class ").concat(class_name).concat("(");
    let without_bases = String::from_str("class ").concat(class_name).concat(":");
    let mut block: Vec<String> = Vec::new();
    let mut header = String::new();
    let mut started = false;
    let mut i: usize = 0;
    assert(views(block@) =~= Seq::empty());
    assert(header@ + goal.1 =~= goal.1);
    while i < code_lines.len()
        invariant
            i <= code_lines.len(),
            lines == str_views(code_lines@),
            with_bases@ == header_with_bases(class_name@),
            without_bases@ == header_without_bases(class_name@),
            goal == block_from(lines, class_name@, 0, false),
            goal == (
                views(block@) + block_from(lines, class_name@, i as int, started).0,
                header@ + block_from(lines, class_name@, i as int, started).1,
            ),
        decreases code_lines.len() - i,
    {
        let line: &str = code_lines[i];
        assert(lines[i as int] == line@);
        let ghost before = views(block@);
        let ghost head = header@;
        let ghost was = started;
        let hit = str_contains(line, with_bases.as_str()) || str_contains(
            line,
            without_bases.as_str(),
        );
        if hit {
            started = true;
            header.append(line);
        }
        if started {
            block.push(String::from_str(line));
            assert(views(block@) =~= before + seq![line@]);
            let short = line.as_bytes().len() <= 1;
            let mut stop = false;
            proof {
                lemma_short_line(line@);
            }
            if short && i > 0 {
                let previous: &str = code_lines[i - 1];
                assert(lines[i - 1] == previous@);
                proof {
                    lemma_short_line(previous@);
                }
                stop = previous.as_bytes().len() <= 1;
            }
            proof {
                let rest = if stop {
                    (Seq::<Seq<char>>::empty(), Seq::<char>::empty())
                } else {
                    block_from(lines, class_name@, i + 1, true)
                };
                let own = if hit {
                    line@
                } else {
                    Seq::<char>::empty()
                };
                assert(block_from(lines, class_name@, i as int, was) == (
                    seq![line@] + rest.0,
                    own + rest.1,
                ));
                assert(before + (seq![line@] + rest.0) =~= (before + seq![line@]) + rest.0);
                assert(head + (own + rest.1) =~= (head + own) + rest.1);
                assert(head + own =~= header@);
            }
            if stop {
                proof {
                    assert(views(block@) + Seq::<Seq<char>>::empty() =~= views(block@));
                    assert(header@ + Seq::<char>::empty() =~= header@);
                }
                return (block, header);
            }
        }
        i += 1;
    }
    proof {
        assert(views(block@) + Seq::<Seq<char>>::empty() =~= views(block@));
        assert(header@ + Seq::<char>::empty() =~= header@);
    }
    (block, header)
}

/// Extracts the class `class_name` from the lines of a file.
pub fn extract_python_class(code_lines: Vec<&str>, class_name: &str) -> (class: PythonClass)
    ensures
        class@ == class_of(str_views(code_lines@), class_name@),
{
    let (block, header) = separate_code_block(code_lines, class_name);
    let methods = extract_methods(&block);
    let inheritance = match extract_class_inheritance(&header) {
        Some(bases) => bases,
        None => {
            let none: Vec<String> = Vec::new();
            assert(views(none@) =~= Seq::empty());
            none
        },
    };
    let docstring = match extract_docstring(&block) {
        Some(text) => text,
        None => String::from_str("None"),
    };
    PythonClass::new(String::from_str(class_name), methods, inheritance, docstring)
}

} // verus!
