//! What is reported of a Python class.

use vstd::prelude::*;

verus! {

/// A parameter as mathematical values.
pub struct ParameterModel {
    pub name: Seq<char>,
    pub static_type: Seq<char>,
}

/// A method as mathematical values.
pub struct MethodModel {
    pub name: Seq<char>,
    pub parameters: Seq<ParameterModel>,
    pub output: Seq<char>,
}

/// A class as mathematical values.
pub struct ClassModel {
    pub name: Seq<char>,
    pub methods: Seq<MethodModel>,
    pub inheritance: Seq<Seq<char>>,
    pub docstring: Seq<char>,
}

/// Parameter of a Python method.
#[derive(Debug, PartialEq)]
pub struct Parameter {
    /// The name of the parameter.
    pub name: String,
    /// The type that the header gives it, `None` where it gives none.
    pub static_type: String,
}

impl View for Parameter {
    type V = ParameterModel;

    open spec fn view(&self) -> ParameterModel {
        ParameterModel { name: self.name@, static_type: self.static_type@ }
    }
}

impl Parameter {
    /// A parameter of the given name and type.
    pub fn new(name: String, static_type: String) -> (parameter: Self)
        ensures
            parameter.name == name,
            parameter.static_type == static_type,
            parameter@ == (ParameterModel { name: name@, static_type: static_type@ }),
    {
        Parameter { name, static_type }
    }
}

/// The models of a vector of parameters, one by one.
pub open spec fn parameter_models(parameters: Seq<Parameter>) -> Seq<ParameterModel> {
    Seq::new(parameters.len(), |i: int| parameters[i]@)
}

/// A method found in a class.
#[derive(Debug, PartialEq)]
pub struct Method {
    /// Method name.
    pub name: String,
    /// Parameters of the method.
    pub parameters: Vec<Parameter>,
    /// The output type of the method.
    pub output: String,
}

impl View for Method {
    type V = MethodModel;

    open spec fn view(&self) -> MethodModel {
        MethodModel {
            name: self.name@,
            parameters: parameter_models(self.parameters@),
            output: self.output@,
        }
    }
}

impl Method {
    /// A method of the given name, parameters and output type.
    pub fn new(name: String, parameters: Vec<Parameter>, output: String) -> (method: Self)
        ensures
            method.name == name,
            method.parameters == parameters,
            method.output == output,
            method@ == (MethodModel {
                name: name@,
                parameters: parameter_models(parameters@),
                output: output@,
            }),
    {
        Method { name, parameters, output }
    }
}

/// The models of a vector of methods, one by one.
pub open spec fn method_models(methods: Seq<Method>) -> Seq<MethodModel> {
    Seq::new(methods.len(), |i: int| methods[i]@)
}

/// A Python class.
#[derive(Debug, PartialEq)]
pub struct PythonClass {
    pub name: String,
    pub methods: Vec<Method>,
    pub inheritance: Vec<String>,
    pub docstring: String,
}

impl View for PythonClass {
    type V = ClassModel;

    open spec fn view(&self) -> ClassModel {
        ClassModel {
            name: self.name@,
            methods: method_models(self.methods@),
            inheritance: crate::text::views(self.inheritance@),
            docstring: self.docstring@,
        }
    }
}

impl PythonClass {
    /// A class of the given name, methods, bases and docstring.
    pub fn new(
        name: String,
        methods: Vec<Method>,
        inheritance: Vec<String>,
        docstring: String,
    ) -> (class: Self)
        ensures
            class.name == name,
            class.methods == methods,
            class.inheritance == inheritance,
            class.docstring == docstring,
            class@ == (ClassModel {
                name: name@,
                methods: method_models(methods@),
                inheritance: crate::text::views(inheritance@),
                docstring: docstring@,
            }),
    {
        PythonClass { name, methods, inheritance, docstring }
    }
}

} // verus!
