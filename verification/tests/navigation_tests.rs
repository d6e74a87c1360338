use jonescli::chapter::processor::parse_module;
use jonescli::navigation::search::{find_classes, grep_class, search_source};
use jonescli::navigation::traversal::{class_in_content, content_declares_class};

const PYTHON_CODE: &str = "
    class God:
        \"\"\"DocString\"\"\"
        def __init__(self, name: int):
            self.name == name

        def hi(self) -> None:
            print(f'My name is {self.name}')

    ";

fn lines(source: &[&str]) -> Vec<String> {
    source.iter().map(|l| l.to_string()).collect()
}

#[test]
fn it_works() {
    assert_eq!(2 + 2, 4);
}

#[test]
fn grep_class_reports_class_lines_that_hold_the_keyword() {
    let source = vec![
        "class God(Being):",
        "    god = 1",
        "  class Godlike:",
        "# class God",
        "class Other:",
        "classGod",
    ];
    let found = grep_class(source, &"God".to_string(), "./test.py");
    assert_eq!(
        found,
        Some(vec![
            ("class God(Being):".to_string(), "./test.py".to_string()),
            ("  class Godlike:".to_string(), "./test.py".to_string()),
        ])
    );
}

#[test]
fn grep_class_without_match_is_none() {
    assert_eq!(grep_class(vec!["class A:", "god"], &"God".to_string(), "a.py"), None);
    assert_eq!(grep_class(Vec::new(), &"God".to_string(), "a.py"), None);
}

#[test]
fn find_classes_reports_classes_at_the_top() {
    let tree = parse_module(lines(&[
        "class God:",
        "    class Godless:",
        "        pass",
        "def God():",
        "    pass",
        "class SemiGod(God):",
        "    pass",
        "class Other:",
        "    pass",
    ]));
    assert_eq!(
        find_classes(&tree, "God", "x.py"),
        vec![
            ("God".to_string(), "x.py".to_string()),
            ("SemiGod".to_string(), "x.py".to_string()),
        ]
    );
}

#[test]
fn searching_for_an_absent_class_yields_no_match() {
    let tree = parse_module(lines(&["class God:", "    def Zeus(self):", "        pass"]));
    assert_eq!(find_classes(&tree, "Zeus", "x.py"), Vec::new());
    assert_eq!(find_classes(&parse_module(Vec::new()), "Zeus", "x.py"), Vec::new());
    assert_eq!(search_source("class God:\n    pass\n", "Zeus", "x.py"), Vec::new());
    assert_eq!(search_source("class God:\n    Zeus = 1\n", "Zeus", "x.py"), Vec::new());
}

#[test]
fn search_source_scans_the_text() {
    assert_eq!(
        search_source("import os\n\nclass God(object):\n    pass\n", "Go", "g.py"),
        vec![("God".to_string(), "g.py".to_string())]
    );
}

#[test]
fn content_declares_class_wants_the_whole_name() {
    assert!(content_declares_class(PYTHON_CODE, "God"));
    assert!(content_declares_class("class God(Being):", "God"));
    assert!(!content_declares_class(PYTHON_CODE, "Go"));
    assert!(!content_declares_class(PYTHON_CODE, "TestCode"));
    assert!(!content_declares_class("class God", "God"));
}

#[test]
fn class_in_content_cuts_the_class_out() {
    let class = class_in_content(PYTHON_CODE, "God").unwrap();
    assert_eq!(class.name, "God");
    assert_eq!(class.docstring, "DocString");
    assert_eq!(class.inheritance, Vec::<String>::new());
    assert_eq!(class.methods.len(), 2);
    assert_eq!(class.methods[0].name, "__init__");
    assert_eq!(class.methods[1].name, "hi");
    assert_eq!(class.methods[1].output, "None");
    assert_eq!(class_in_content(PYTHON_CODE, "TestCode"), None);
}
