//! The parameters of a method, from its header.

use vstd::prelude::*;
use super::pyobjects::{parameter_models, Parameter, ParameterModel};
use crate::helpers::markers::{get_header_arguments, header_arguments};
use crate::helpers::{regex_split_parts, try_regex_split};
use crate::text::{trim, trimmed, views};

verus! {

/// The type of a parameter that names none.
pub open spec fn default_type() -> Seq<char> {
    "None"@
}

/// The regular expression between two parameters.
pub open spec fn parameter_separator() -> Seq<char> {
    ",\\s"@
}

/// The regular expression between a parameter's name and its type.
pub open spec fn type_separator() -> Seq<char> {
    ":\\s"@
}

/// The parameter that the parts of one entry of the argument segment stand
/// for: a name alone, or a name and a type; anything else is no parameter.
pub open spec fn parameter_from(parts: Seq<Seq<char>>) -> Option<ParameterModel> {
    if parts.len() == 1 {
        Some(ParameterModel { name: trim(parts[0]), static_type: default_type() })
    } else if parts.len() == 2 {
        Some(ParameterModel { name: trim(parts[0]), static_type: trim(parts[1]) })
    } else {
        None
    }
}

/// The parameter of one entry of the argument segment.
pub open spec fn parameter_of(entry: Seq<char>) -> Option<ParameterModel> {
    match regex_split_parts(type_separator(), entry) {
        Some(parts) => parameter_from(parts),
        None => None,
    }
}

/// The parameters of the entries, in order, entries that are no parameter
/// left out.
pub open spec fn parameters_of(entries: Seq<Seq<char>>) -> Seq<ParameterModel>
    decreases entries.len(),
{
    if entries.len() == 0 {
        Seq::empty()
    } else {
        let before = parameters_of(entries.drop_last());
        match parameter_of(entries.last()) {
            Some(p) => before.push(p),
            None => before,
        }
    }
}

/// The parameters that a header declares.
pub open spec fn header_parameters(header: Seq<char>) -> Seq<ParameterModel> {
    match header_arguments(header) {
        Some(segment) => match regex_split_parts(parameter_separator(), trim(segment)) {
            Some(entries) => parameters_of(entries),
            None => Seq::empty(),
        },
        None => Seq::empty(),
    }
}

/// The parameter that the parts of one entry of the argument segment stand
/// for.
pub fn parameter_from_parts(parts: &Vec<String>) -> (parameter: Option<Parameter>)
    ensures
        match parameter {
            Some(p) => parameter_from(views(parts@)) == Some(p@),
            None => parameter_from(views(parts@)) is None,
        },
{
    if parts.len() == 1 {
        let name = String::from_str(trimmed(parts[0].as_str()));
        Some(Parameter::new(name, String::from_str("None")))
    } else if parts.len() == 2 {
        let name = String::from_str(trimmed(parts[0].as_str()));
        let static_type = String::from_str(trimmed(parts[1].as_str()));
        Some(Parameter::new(name, static_type))
    } else {
        None
    }
}

/// The parameters of the entries of an argument segment.
pub fn parameters_from_entries(entries: &Vec<String>) -> (parameters: Vec<Parameter>)
    ensures
        parameter_models(parameters@) == parameters_of(views(entries@)),
{
    let mut parameters: Vec<Parameter> = Vec::new();
    let mut i: usize = 0;
    while i < entries.len()
        invariant
            i <= entries.len(),
            parameter_models(parameters@) == parameters_of(views(entries@).take(i as int)),
        decreases entries.len() - i,
    {
        let ghost before = parameter_models(parameters@);
        proof {
            let next = views(entries@).take(i + 1);
            assert(next.drop_last() =~= views(entries@).take(i as int));
            assert(next.last() == entries@[i as int]@);
        }
        match try_regex_split(r":\s", false, &entries[i]) {
            Some(parts) => match parameter_from_parts(&parts) {
                Some(parameter) => {
                    parameters.push(parameter);
                    assert(parameter_models(parameters@) =~= before.push(parameter@));
                },
                None => {},
            },
            None => {},
        }
        i += 1;
    }
    proof {
        assert(views(entries@).take(entries.len() as int) =~= views(entries@));
    }
    parameters
}

/// Extracts the parameters of a method, each with its type, from the
/// method's header.
pub fn extract_parameters(header: &String) -> (parameters: Vec<Parameter>)
    ensures
        parameter_models(parameters@) == header_parameters(header@),
{
    let segment = match get_header_arguments(header) {
        Some(segment) => segment,
        None => {
            let none: Vec<Parameter> = Vec::new();
            assert(parameter_models(none@) =~= Seq::empty());
            return none;
        },
    };
    match try_regex_split(r",\s", true, &segment) {
        Some(entries) => parameters_from_entries(&entries),
        None => {
            let none: Vec<Parameter> = Vec::new();
            assert(parameter_models(none@) =~= Seq::empty());
            none
        },
    }
}

} // verus!
