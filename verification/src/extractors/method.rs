//! The methods of a class, from the lines of its code.

use vstd::prelude::*;
use vstd::utf8::is_ascii_chars;
use super::parameter::{extract_parameters, header_parameters};
use super::pyobjects::{method_models, Method, MethodModel};
use crate::helpers::{regex_split_parts, try_regex_split};
use crate::text::{
    contains, lemma_byte_len, remove_all, same_text, str_contains, trim, trimmed, views, without,
};

verus! {

/// What marks the line on which a method's header begins.
pub open spec fn function_keyword() -> Seq<char> {
    " def "@
}

/// The regular expression that cuts a header into words.
pub open spec fn word_separator() -> Seq<char> {
    "\\W"@
}

/// The regular expression in front of a header's output type.
pub open spec fn output_arrow() -> Seq<char> {
    "( -> )"@
}

/// The name given to a method whose header names none.
pub open spec fn unnamed() -> Seq<char> {
    "ENL"@
}

/// The output type of a method whose header gives none.
pub open spec fn no_output() -> Seq<char> {
    "None"@
}

/// The method's name, given the words of its header: the word behind `def`,
/// which must be the first word.
pub open spec fn method_name_from(words: Seq<Seq<char>>) -> Option<Seq<char>> {
    if words.len() >= 2 && trim(words[0]) == "def"@ {
        Some(words[1])
    } else {
        None
    }
}

/// The name that `header` declares.
pub open spec fn method_name_of(header: Seq<char>) -> Option<Seq<char>> {
    match regex_split_parts(word_separator(), trim(header)) {
        Some(words) => method_name_from(words),
        None => None,
    }
}

/// The output type, given the parts of a header around its arrow: what is
/// behind the first arrow, trimmed and without colons.
pub open spec fn method_output_from(parts: Seq<Seq<char>>) -> Option<Seq<char>> {
    if parts.len() >= 2 {
        Some(remove_all(trim(parts[1]), ":"@))
    } else {
        None
    }
}

/// The output type that `header` declares.
pub open spec fn method_output_of(header: Seq<char>) -> Option<Seq<char>> {
    match regex_split_parts(output_arrow(), trim(header)) {
        Some(parts) => method_output_from(parts),
        None => None,
    }
}

/// A header is complete when it ends in a colon and all of it is ASCII. A
/// header with any wider character is never complete: what follows it is
/// gathered into it, to the last line.
pub open spec fn header_complete(header: Seq<char>) -> bool {
    is_ascii_chars(header) && header.len() > 0 && header.last() == ':'
}

/// The headers found from line `i` on. `started` tells whether a header has
/// begun, and `pending` is what was gathered of it: each of its lines,
/// trimmed, behind one blank.
pub open spec fn headers_from(lines: Seq<Seq<char>>, i: int, started: bool, pending: Seq<char>) -> Seq<
    Seq<char>,
>
    decreases lines.len() - i,
{
    if i < 0 || i >= lines.len() {
        Seq::empty()
    } else if started || contains(lines[i], function_keyword()) {
        let gathered = pending + " "@ + trim(lines[i]);
        if header_complete(gathered) {
            seq![gathered] + headers_from(lines, i + 1, false, Seq::empty())
        } else {
            headers_from(lines, i + 1, true, gathered)
        }
    } else {
        headers_from(lines, i + 1, false, pending)
    }
}

/// The method headers in the lines of a class, each joined into one line.
pub open spec fn headers_of(lines: Seq<Seq<char>>) -> Seq<Seq<char>> {
    headers_from(lines, 0, false, Seq::empty())
}

/// The method that a header declares.
pub open spec fn header_method(header: Seq<char>) -> MethodModel {
    MethodModel {
        name: match method_name_of(header) {
            Some(name) => name,
            None => unnamed(),
        },
        parameters: header_parameters(header),
        output: match method_output_of(header) {
            Some(output) => output,
            None => no_output(),
        },
    }
}

/// The methods that the headers declare, in order.
pub open spec fn methods_of(headers: Seq<Seq<char>>) -> Seq<MethodModel> {
    Seq::new(headers.len(), |i: int| header_method(headers[i]))
}

/// The method's name, given the words of its header.
pub fn method_name_from_words(words: &Vec<String>) -> (name: Result<String, &'static str>)
    ensures
        match name {
            Ok(n) => method_name_from(views(words@)) == Some(n@),
            Err(message) => method_name_from(views(words@)) is None && message@
                == "This is not a method header"@,
        },
{
    if words.len() >= 2 && same_text(trimmed(words[0].as_str()), "def") {
        Ok(words[1].clone())
    } else {
        Err("This is not a method header")
    }
}

/// Extracts the name of a method from its header.
pub fn extract_method_name(method_header: &String) -> (name: Result<String, &'static str>)
    ensures
        match name {
            Ok(n) => method_name_of(method_header@) == Some(n@),
            Err(message) => method_name_of(method_header@) is None && message@
                == "This is not a method header"@,
        },
{
    match try_regex_split(r"\W", true, method_header) {
        Some(words) => method_name_from_words(&words),
        None => Err("This is not a method header"),
    }
}

/// The output type, given the parts of a header around its arrow.
pub fn method_output_from_parts(parts: &Vec<String>) -> (output: Result<String, &'static str>)
    ensures
        match output {
            Ok(o) => method_output_from(views(parts@)) == Some(o@),
            Err(message) => method_output_from(views(parts@)) is None && message@
                == "Output type not found"@,
        },
{
    if parts.len() >= 2 {
        Ok(without(trimmed(parts[1].as_str()), ":"))
    } else {
        Err("Output type not found")
    }
}

/// Extracts the output type of a method, which its header gives behind the
/// arrow.
pub fn extract_method_output(header: &String) -> (output: Result<String, &'static str>)
    ensures
        match output {
            Ok(o) => method_output_of(header@) == Some(o@),
            Err(message) => method_output_of(header@) is None && message@
                == "Output type not found"@,
        },
{
    match try_regex_split(r"( -> )", true, header) {
        Some(parts) => method_output_from_parts(&parts),
        None => Err("Output type not found"),
    }
}

/// Whether a gathered header has reached its colon.
pub fn header_is_complete(header: &str) -> (complete: bool)
    ensures
        complete == header_complete(header@),
{
    let bytes: usize = header.as_bytes().len();
    let count: usize = header.unicode_len();
    proof {
        lemma_byte_len(header@);
    }
    bytes >= 1 && bytes - 1 < count && header.get_char(bytes - 1) == ':'
}

/// The method headers in the lines of a class, each joined into one line.
pub fn method_headers(class_code: &Vec<String>) -> (headers: Vec<String>)
    ensures
        views(headers@) == headers_of(views(class_code@)),
{
    let ghost lines = views(class_code@);
    let mut headers: Vec<String> = Vec::new();
    let mut pending = String::new();
    let mut started = false;
    let mut i: usize = 0;
    assert(views(headers@) =~= Seq::empty());
    while i < class_code.len()
        invariant
            i <= class_code.len(),
            lines == views(class_code@),
            views(headers@) + headers_from(lines, i as int, started, pending@) == headers_of(lines),
        decreases class_code.len() - i,
    {
        let line = class_code[i].as_str();
        assert(lines[i as int] == line@);
        if !started && str_contains(line, " def ") {
            started = true;
        }
        if started {
            pending.append(" ");
            pending.append(trimmed(line));
            if header_is_complete(pending.as_str()) {
                let ghost before = views(headers@);
                let ghost done = pending@;
                headers.push(pending);
                pending = String::new();
                started = false;
                proof {
                    assert(views(headers@) =~= before + seq![done]);
                    let rest = headers_from(lines, i + 1, false, Seq::empty());
                    assert(before + (seq![done] + rest) =~= (before + seq![done]) + rest);
                }
            }
        }
        i += 1;
    }
    proof {
        assert(views(headers@) + Seq::<Seq<char>>::empty() =~= views(headers@));
    }
    headers
}

/// The method that a header declares: its name (`ENL` where the header names
/// none), its parameters and its output type (`None` where it gives none).
pub fn method_from_header(header: &String) -> (method: Method)
    ensures
        method@ == header_method(header@),
{
    let name = match extract_method_name(header) {
        Ok(name) => name,
        Err(_) => String::from_str("ENL"),
    };
    let parameters = extract_parameters(header);
    let output = match extract_method_output(header) {
        Ok(output) => output,
        Err(_) => String::from_str("None"),
    };
    Method::new(name, parameters, output)
}

/// Extracts the methods found in the code of a class.
pub fn extract_methods(class_code: &Vec<String>) -> (methods: Vec<Method>)
    ensures
        method_models(methods@) == methods_of(headers_of(views(class_code@))),
{
    let headers = method_headers(class_code);
    let mut methods: Vec<Method> = Vec::new();
    let mut i: usize = 0;
    while i < headers.len()
        invariant
            i <= headers.len(),
            views(headers@) == headers_of(views(class_code@)),
            methods.len() == i,
            forall|k: int| 0 <= k < i ==> (#[trigger] methods@[k])@ == header_method(headers@[k]@),
        decreases headers.len() - i,
    {
        methods.push(method_from_header(&headers[i]));
        i += 1;
    }
    proof {
        let goal = methods_of(headers_of(views(class_code@)));
        assert forall|k: int| 0 <= k < methods.len() implies method_models(methods@)[k]
            == goal[k] by {
            assert(views(headers@)[k] == headers@[k]@);
        }
        assert(method_models(methods@) =~= goal);
    }
    methods
}

} // verus!
