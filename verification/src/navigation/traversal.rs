//! Which files are worth cutting a class out of.

use vstd::prelude::*;
use crate::extractors::class::{class_of, extract_python_class, is_class_header};
use crate::extractors::pyobjects::PythonClass;
use crate::text::{split_lines, split_spec, str_contains, views};

verus! {

/// Whether the text of a file holds the header of class `class_name`, with
/// or without bases.
pub fn content_declares_class(content: &str, class_name: &str) -> (declared: bool)
    ensures
        declared == is_class_header(content@, class_name@),
{
    let with_bases = String::from_str("class ").concat(class_name).concat("(");
    let without_bases = String::from_str("class ").concat(class_name).concat(":");
    let first_check = str_contains(content, with_bases.as_str());
    let second_check = str_contains(content, without_bases.as_str());
    first_check || second_check
}

/// The class `class_name` as found in the text of a file, or `None` where
/// the text does not hold its header.
pub fn class_in_content(content: &str, class_name: &str) -> (class: Option<PythonClass>)
    ensures
        match class {
            Some(c) => is_class_header(content@, class_name@) && c@ == class_of(
                split_spec(content@),
                class_name@,
            ),
            None => !is_class_header(content@, class_name@),
        },
{
    if !content_declares_class(content, class_name) {
        return None;
    }
    let lines = split_lines(content);
    let mut slices: Vec<&str> = Vec::new();
    let mut i: usize = 0;
    while i < lines.len()
        invariant
            i <= lines.len(),
            slices.len() == i,
            forall|k: int| 0 <= k < i ==> (#[trigger] slices@[k])@ == lines@[k]@,
        decreases lines.len() - i,
    {
        slices.push(lines[i].as_str());
        i += 1;
    }
    assert(crate::text::str_views(slices@) =~= views(lines@));
    Some(extract_python_class(slices, class_name))
}

} // verus!
