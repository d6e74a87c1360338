use jonescli::extractors::class::{
    extract_class_inheritance, extract_python_class, inheritance_from_parts, separate_code_block,
};
use jonescli::extractors::docstring::{
    extract_docstring, find_marked, format_line, get_docstring,
};
use jonescli::extractors::method::{
    extract_method_name, extract_method_output, extract_methods, header_is_complete,
    method_from_header, method_headers, method_name_from_words, method_output_from_parts,
};
use jonescli::extractors::parameter::{
    extract_parameters, parameter_from_parts, parameters_from_entries,
};
use jonescli::extractors::pyobjects::{Method, Parameter, PythonClass};

const NEWLINE: &str = "\n";

#[test]
fn test_format_line() {
    let test_string = "\"\"\"Test docstring";
    let expected = "Test docstring";

    assert_eq!(format_line(test_string), expected);
}

#[test]
fn test_get_docstring() {
    let test_code_block: Vec<String> = vec![
        "class God:".to_string(),
        "    \"\"\"DocString\"\"\"".to_string(),
        "".to_string(),
        "    def __init__(self, name: int):".to_string(),
        "        self.name = name".to_string(),
        "".to_string(),
    ];
    let expected = vec!["DocString".to_string()];

    assert_eq!(get_docstring(&test_code_block), Some(expected));
}

#[test]
fn test_get_docstring_none() {
    let test_code_block: Vec<String> =
        vec!["class God:".to_string(), "    pass".to_string(), "".to_string()];
    assert_eq!(get_docstring(&test_code_block), None);
}

#[test]
fn test_extract_docstring_some() {
    let test_code_block: Vec<String> = vec![
        "class God:".to_string(),
        "    \"\"\"".to_string(),
        "     DocString".to_string(),
        "     Some more test".to_string(),
        "    \"\"\"".to_string(),
        "".to_string(),
        "    def __init__(self, name: int):".to_string(),
        "        self.name = name".to_string(),
        "".to_string(),
    ];
    let expected = vec![
        "".to_string(),
        "DocString".to_string(),
        "Some more test".to_string(),
        "".to_string(),
    ];

    assert_eq!(extract_docstring(&test_code_block), Some(expected.join(NEWLINE)))
}

#[test]
fn lib_test_extract_method_name() {
    let test_string = String::from("def this_name(self, param2: int) -> None:");
    let expected = String::from("this_name");

    assert_eq!(extract_method_name(&test_string).unwrap(), expected);
}

#[test]
fn lib_test_extract_method_name_negative() {
    let test_string = String::from("import definition as positive");
    assert!(extract_method_name(&test_string).is_err());
}

#[test]
fn lib_test_extract_parameters_positive() {
    let test_string = String::from("def this_name(param1: str, param2: int) -> None:");
    let expected_parameters = vec![
        Parameter::new(String::from("param1"), String::from("str")),
        Parameter::new(String::from("param2"), String::from("int")),
    ];

    assert_eq!(extract_parameters(&test_string), expected_parameters);
}

#[test]
fn lib_test_extract_parameters_one_parameter() {
    let test_string = String::from("def this_name(self) -> None:");
    let expected_parameters = vec![Parameter::new(String::from("self"), String::from("None"))];

    assert_eq!(extract_parameters(&test_string), expected_parameters);
}

#[test]
fn lib_test_extract_parameters_no_parameter() {
    let test_string = String::from("def this_name() -> None:");
    let expected_parameters = Vec::new();

    assert_eq!(extract_parameters(&test_string), expected_parameters);
}

#[test]
fn lib_test_extract_methods_positive() {
    let test_codebase = vec![
        "class Test:".to_string(),
        "".to_string(),
        "    def __init__(self, name):".to_string(),
        "        self.name = name".to_string(),
        "".to_string(),
        "    def say_hi(self):".to_string(),
        "        self.name = name".to_string(),
        "".to_string(),
    ];

    let expected_methods = vec![
        Method::new(
            String::from("__init__"),
            vec![
                Parameter::new(String::from("self"), String::from("None")),
                Parameter::new(String::from("name"), String::from("None")),
            ],
            String::from("None"),
        ),
        Method::new(
            String::from("say_hi"),
            vec![Parameter::new(String::from("self"), String::from("None"))],
            String::from("None"),
        ),
    ];

    assert_eq!(extract_methods(&test_codebase), expected_methods);
}

#[test]
fn lib_test_extract_methods_multiple_lines() {
    let test_codebase = vec![
        "class Test:".to_string(),
        "".to_string(),
        "    def __init__(self, name: int,".to_string(),
        "                 param1: str,".to_string(),
        "                 param2: int) -> str:".to_string(),
        "        self.name = name".to_string(),
        "".to_string(),
        "    def say_hi(self):".to_string(),
        "        self.name = name".to_string(),
        "".to_string(),
    ];

    let expected_methods = vec![
        Method::new(
            String::from("__init__"),
            vec![
                Parameter::new(String::from("self"), String::from("None")),
                Parameter::new(String::from("name"), String::from("int")),
                Parameter::new(String::from("param1"), String::from("str")),
                Parameter::new(String::from("param2"), String::from("int")),
            ],
            String::from("str"),
        ),
        Method::new(
            String::from("say_hi"),
            vec![Parameter::new(String::from("self"), String::from("None"))],
            String::from("None"),
        ),
    ];

    assert_eq!(extract_methods(&test_codebase), expected_methods);
}

#[test]
fn lib_test_extract_method_output() {
    let test_string = String::from("def this_name(self, param2: int) -> List[int]:");
    let expected = String::from("List[int]");

    assert_eq!(extract_method_output(&test_string).unwrap(), expected);
}

#[test]
fn lib_test_extract_class_inheritance() {
    let test_header = String::from("class Human(Being, Earthling):");
    let expected = vec![String::from("Being"), String::from("Earthling")];

    assert_eq!(extract_class_inheritance(&test_header), Some(expected));
}

#[test]
fn lib_test_extract_no_inheritance() {
    let test_header = String::from("class Human:");

    assert_eq!(extract_class_inheritance(&test_header), None);
}

#[test]
fn a_header_that_is_no_method_names_its_error() {
    assert_eq!(
        extract_method_name(&"import definition as positive".to_string()),
        Err("This is not a method header")
    );
    assert_eq!(extract_method_name(&String::new()), Err("This is not a method header"));
    assert_eq!(extract_method_name(&"def".to_string()), Err("This is not a method header"));
    assert_eq!(extract_method_name(&"  def  f()".to_string()), Ok(String::new()));
}

#[test]
fn a_header_without_arrow_names_its_error() {
    assert_eq!(
        extract_method_output(&"def this_name(self):".to_string()),
        Err("Output type not found")
    );
    assert_eq!(extract_method_output(&"def f()->int:".to_string()), Err("Output type not found"));
    assert_eq!(
        extract_method_output(&"def f() -> Dict[str, int] :  ".to_string()),
        Ok("Dict[str, int] ".to_string())
    );
    assert_eq!(extract_method_output(&"def f() -> a -> b:".to_string()), Ok("a".to_string()));
}

fn strings(items: &[&str]) -> Vec<String> {
    items.iter().map(|s| s.to_string()).collect()
}

#[test]
fn words_give_the_name_behind_def() {
    assert_eq!(method_name_from_words(&strings(&["def", "f", "x"])), Ok("f".to_string()));
    assert_eq!(method_name_from_words(&strings(&[" def ", ""])), Ok(String::new()));
    assert_eq!(method_name_from_words(&strings(&["def"])), Err("This is not a method header"));
    assert_eq!(method_name_from_words(&strings(&[])), Err("This is not a method header"));
    assert_eq!(
        method_name_from_words(&strings(&["define", "f"])),
        Err("This is not a method header")
    );
}

#[test]
fn parts_give_the_output_behind_the_first_arrow() {
    assert_eq!(method_output_from_parts(&strings(&["def f()", " a:b: ", "c"])), Ok("ab".to_string()));
    assert_eq!(method_output_from_parts(&strings(&["def f()"])), Err("Output type not found"));
    assert_eq!(method_output_from_parts(&strings(&[])), Err("Output type not found"));
}

#[test]
fn a_header_is_complete_at_its_colon() {
    assert!(header_is_complete(" def f():"));
    assert!(header_is_complete(":"));
    assert!(!header_is_complete(""));
    assert!(!header_is_complete(" def f(): "));
    assert!(!header_is_complete(" def f(a,"));
    assert!(!header_is_complete(" def f(\u{e9}):"));
}

#[test]
fn headers_are_gathered_over_their_lines() {
    let code = strings(&[
        "class A:",
        "    def f(self,",
        "          b):",
        "        pass",
        "    def g(self): ",
        "x",
        "def h():",
    ]);
    assert_eq!(method_headers(&code), vec![" def f(self, b):", " def g(self):"]);
    assert_eq!(method_headers(&strings(&["def h():"])), Vec::<String>::new());
    assert_eq!(method_headers(&Vec::new()), Vec::<String>::new());
}

#[test]
fn a_header_that_never_completes_gives_no_method() {
    let code = strings(&["    def f(self,", "        pass"]);
    assert_eq!(extract_methods(&code), Vec::new());
    let wide = strings(&["    def f(\u{e9}):", "        pass", "    def g():"]);
    assert_eq!(extract_methods(&wide), Vec::new());
}

#[test]
fn a_method_without_name_is_called_enl() {
    assert_eq!(
        method_from_header(&"x = f():".to_string()),
        Method::new(String::from("ENL"), Vec::new(), String::from("None"))
    );
    assert_eq!(
        method_from_header(&" def f(a: int, b) -> str:".to_string()),
        Method::new(
            String::from("f"),
            vec![
                Parameter::new(String::from("a"), String::from("int")),
                Parameter::new(String::from("b"), String::from("None")),
            ],
            String::from("str"),
        )
    );
}

#[test]
fn an_entry_is_a_name_or_a_name_and_a_type() {
    assert_eq!(
        parameter_from_parts(&strings(&[" a "])),
        Some(Parameter::new(String::from("a"), String::from("None")))
    );
    assert_eq!(
        parameter_from_parts(&strings(&["a", " int "])),
        Some(Parameter::new(String::from("a"), String::from("int")))
    );
    assert_eq!(parameter_from_parts(&strings(&["a", "b", "c"])), None);
    assert_eq!(parameter_from_parts(&Vec::new()), None);
}

#[test]
fn entries_that_are_no_parameter_are_left_out() {
    assert_eq!(
        parameters_from_entries(&strings(&["a: int", "b: c: d", "e"])),
        vec![
            Parameter::new(String::from("a"), String::from("int")),
            Parameter::new(String::from("e"), String::from("None")),
        ]
    );
    assert_eq!(
        extract_parameters(&"def f(a: Dict[str, int], b: x: y, c)".to_string()),
        vec![
            Parameter::new(String::from("a"), String::from("Dict[str,int]")),
            Parameter::new(String::from("c"), String::from("None")),
        ]
    );
}

#[test]
fn inheritance_drops_the_first_and_the_last_part() {
    assert_eq!(inheritance_from_parts(&strings(&["class A"])), None);
    assert_eq!(inheritance_from_parts(&Vec::new()), None);
    assert_eq!(inheritance_from_parts(&strings(&["class A", ""])), Some(Vec::new()));
    assert_eq!(
        inheritance_from_parts(&strings(&["class A", " B ", "C", "x"])),
        Some(strings(&["B", "C"]))
    );
    assert_eq!(
        extract_class_inheritance(&"  class A(B):  ".to_string()),
        Some(strings(&["B"]))
    );
    assert_eq!(extract_class_inheritance(&"class A(B)".to_string()), Some(Vec::new()));
}

#[test]
fn the_block_ends_with_the_second_of_two_short_lines() {
    let (block, header) =
        separate_code_block(vec!["x", "class A:", "  a", "", "", "after"], "A");
    assert_eq!(block, vec!["class A:", "  a", "", ""]);
    assert_eq!(header, "class A:");
    let (block, header) =
        separate_code_block(vec!["class A(B):", "\u{e9}", "", "b", "", "a", "c"], "A");
    assert_eq!(block, vec!["class A(B):", "\u{e9}", "", "b"]);
    assert_eq!(header, "class A(B):");
}

#[test]
fn the_block_runs_to_the_last_line_without_two_short_lines() {
    let (block, header) =
        separate_code_block(vec!["class A:", "  # class A: again", "", "x = 1"], "A");
    assert_eq!(block, vec!["class A:", "  # class A: again", "", "x = 1"]);
    assert_eq!(header, "class A:  # class A: again");
    let (block, header) = separate_code_block(vec!["class AB:", "class B(A):"], "A");
    assert_eq!(block, Vec::<String>::new());
    assert_eq!(header, "");
}

#[test]
fn a_class_that_is_not_there_is_empty() {
    assert_eq!(
        extract_python_class(vec!["x = 1", "class B:"], "A"),
        PythonClass::new(String::from("A"), Vec::new(), Vec::new(), String::from("None"))
    );
}

#[test]
fn a_class_with_bases_docstring_and_methods() {
    let class = extract_python_class(
        vec![
            "import os",
            "class Human(Being, Earthling):",
            "    \"\"\"",
            "    A human.",
            "    \"\"\"",
            "    def walk(self, steps: int) -> None:",
            "        pass",
            "",
            "",
            "class Other:",
            "    def f(self):",
        ],
        "Human",
    );
    assert_eq!(class.name, "Human");
    assert_eq!(class.inheritance, vec!["Being", "Earthling"]);
    assert_eq!(class.docstring, "\nA human.\n");
    assert_eq!(
        class.methods,
        vec![Method::new(
            String::from("walk"),
            vec![
                Parameter::new(String::from("self"), String::from("None")),
                Parameter::new(String::from("steps"), String::from("int")),
            ],
            String::from("None"),
        )]
    );
}

#[test]
fn the_docstring_ends_on_the_next_line_with_the_delimiter() {
    let block = strings(&["a", "  \"\"\"one", "two", "three\"\"\" ", "four", "\"\"\""]);
    assert_eq!(find_marked(&block, 0), 1);
    assert_eq!(find_marked(&block, 2), 3);
    assert_eq!(find_marked(&block, 6), 6);
    assert_eq!(find_marked(&strings(&["a"]), 0), 1);
    assert_eq!(get_docstring(&block), Some(strings(&["one", "two", "three"])));
    assert_eq!(extract_docstring(&block), Some("one\ntwo\nthree".to_string()));
}

#[test]
fn a_docstring_that_never_closes_runs_to_the_last_line() {
    let block = strings(&["\"\"\"one", " two "]);
    assert_eq!(get_docstring(&block), Some(strings(&["one", "two"])));
    let thrice = strings(&["\"\"\"a\"\"\"b\"\"\"", "c"]);
    assert_eq!(get_docstring(&thrice), Some(strings(&["ab", "c"])));
    assert_eq!(extract_docstring(&Vec::new()), None);
}
