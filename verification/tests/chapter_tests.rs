use jonescli::chapter::node::ContextNode;
use jonescli::chapter::processor::{parse_module, ContextProcessor};
use jonescli::chapter::tree::ContextTree;
use jonescli::chapter::types::{ContextType, Indent};

fn lines(source: &[&str]) -> Vec<String> {
    source.iter().map(|l| l.to_string()).collect()
}

fn children<'a>(tree: &'a ContextTree, node: &ContextNode) -> Vec<&'a ContextNode> {
    node.children.iter().map(|id| tree.node(*id).unwrap()).collect()
}

#[test]
fn root_has_no_span_and_no_parent() {
    for source in [vec![], vec![""], vec!["class A:", "    pass"], vec!["\"\"\"open"]] {
        let tree = parse_module(lines(&source));
        let root = tree.root();
        assert_eq!(root.context_type, ContextType::ROOT);
        assert_eq!(root.name, "__root__");
        assert_eq!(root.location(), None);
        assert_eq!(root.parent, None);
    }
}

#[test]
fn docstring_over_three_lines() {
    let tree = parse_module(lines(&["class A:", "    \"\"\"", "    Hello", "    \"\"\""]));
    let class = tree.child(0, 0).unwrap();
    assert_eq!(class.name, "A");
    let doc = children(&tree, class);
    assert_eq!(doc.len(), 1);
    assert_eq!(doc[0].context_type, ContextType::DOCSTRING);
    assert_eq!(doc[0].value, Some("Hello".to_string()));
    let bare = parse_module(lines(&["\"\"\"", "Hello", "\"\"\""]));
    let doc = bare.child(0, 0).unwrap();
    assert_eq!(doc.value, Some("Hello".to_string()));
    assert_eq!(doc.location(), Some((0, 13)));
}

#[test]
fn docstring_on_one_line() {
    let tree = parse_module(lines(&["\"\"\"Hi\"\"\""]));
    assert_eq!(tree.len(), 2);
    let doc = tree.child(0, 0).unwrap();
    assert_eq!(doc.context_type, ContextType::DOCSTRING);
    assert_eq!(doc.value, Some("Hi".to_string()));
    assert_eq!(doc.location(), Some((0, 8)));
}

#[test]
fn nested_class() {
    let tree = parse_module(lines(&["class Outer:", "    class Inner:", "        pass"]));
    let root = tree.root();
    assert_eq!(root.children.len(), 1);
    let outer = tree.child(0, 0).unwrap();
    assert_eq!(outer.context_type, ContextType::CLASS);
    assert_eq!(outer.name, "Outer");
    let inner = children(&tree, outer);
    assert_eq!(inner.len(), 1);
    assert_eq!(inner[0].context_type, ContextType::CLASS);
    assert_eq!(inner[0].name, "Inner");
    assert_eq!(inner[0].parent, Some(1));
}

#[test]
fn class_with_docstring_and_two_methods() {
    let source = lines(&[
        "class God:",
        "    \"\"\"DocString\"\"\"",
        "    def __init__(self, name: int):",
        "        self.name = name",
        "",
        "    def hi(self) -> None:",
        "        print(name)",
    ]);
    let tree = ContextProcessor::load(source).parse_module();
    let root = tree.root();
    assert_eq!(root.children.len(), 1);
    let god = tree.child(0, 0).unwrap();
    assert_eq!(god.context_type, ContextType::CLASS);
    assert_eq!(god.name, "God");
    assert!(god.is_public);
    let inner = children(&tree, god);
    assert_eq!(inner.len(), 3);
    assert_eq!(inner[0].context_type, ContextType::DOCSTRING);
    assert_eq!(inner[0].value, Some("DocString".to_string()));
    assert!(inner[0].is_public);
    assert_eq!(inner[1].context_type, ContextType::METHOD);
    assert_eq!(inner[1].name, "__init__");
    assert_eq!(inner[2].context_type, ContextType::METHOD);
    assert_eq!(inner[2].name, "hi");
    assert!(!inner[1].is_public);
    assert!(inner[2].is_public);
    let spans: Vec<(usize, usize)> = inner.iter().map(|n| n.location().unwrap()).collect();
    assert_eq!(spans, vec![(15, 30), (35, 92), (96, 137)]);
    for pair in spans.windows(2) {
        assert!(pair[0].0 <= pair[0].1);
        assert!(pair[0].1 <= pair[1].0);
    }
    assert_eq!(god.location(), Some((0, 137)));
    assert_eq!(god.value, None);
}

#[test]
fn indent_moves_by_four() {
    let mut indent = Indent::new();
    assert_eq!(indent.value(), "");
    indent.decrease();
    assert_eq!(indent.value(), "");
    indent.increase();
    assert_eq!(indent.value(), "    ");
    indent.increase();
    assert_eq!(indent.value(), "        ");
    assert_eq!(indent.columns(), 8);
    indent.decrease();
    assert_eq!(indent.value(), "    ");
}

fn spans(tree: &ContextTree) -> Vec<Option<(usize, usize)>> {
    (0..tree.len()).map(|id| tree.node(id).unwrap().location()).collect()
}

fn check_invariants(tree: &ContextTree) {
    let root = tree.root();
    assert_eq!(root.context_type, ContextType::ROOT);
    assert_eq!(root.location(), None);
    assert_eq!(root.parent, None);
    for id in 1..tree.len() {
        let node = tree.node(id).unwrap();
        assert_ne!(node.context_type, ContextType::ROOT);
        assert_eq!(node.is_public, !node.name.starts_with('_'));
        let (start, end) = node.location().unwrap();
        assert!(start <= end);
        let parent = node.parent.unwrap();
        assert!(parent < id);
        let listed = tree.node(parent).unwrap().children.iter().filter(|c| **c == id).count();
        assert_eq!(listed, 1);
        if parent > 0 {
            let (outer_start, outer_end) = tree.node(parent).unwrap().location().unwrap();
            assert!(outer_start < start);
            assert!(end <= outer_end);
        }
    }
    for id in 0..tree.len() {
        let node = tree.node(id).unwrap();
        for pair in node.children.windows(2) {
            let (first_start, first_end) = tree.node(pair[0]).unwrap().location().unwrap();
            let (second_start, _) = tree.node(pair[1]).unwrap().location().unwrap();
            assert!(first_start <= second_start);
            assert!(first_end <= second_start);
        }
    }
    assert_eq!(tree.node(tree.len()), None);
}

#[test]
fn trees_keep_their_invariants() {
    let sources: Vec<Vec<&str>> = vec![
        vec![],
        vec![""],
        vec!["", "", ""],
        vec!["class A:", "    pass"],
        vec!["class _A:", "    def __init__(self):", "        pass", "    def _b(self):", "  x"],
        vec!["\"\"\"module", "doc", "\"\"\"", "__all__ = [", "  \"a\",", "]", "class A: pass"],
        vec!["class A:", "", "class B:", "  ", "    def f(self):", "", "", "def g():"],
        vec!["def f():", "    def g():", "        class H:", "            \"\"\"d\"\"\"", "x"],
        vec!["\"\"\"never closed", "class A:", "def f():"],
        vec!["__all__ = (", "class A:", "def f():"],
        vec![
            "class God:",
            "    \"\"\"DocString\"\"\"",
            "    def __init__(self, name: int):",
            "        self.name = name",
            "",
            "    def hi(self) -> None:",
            "        print(name)",
        ],
    ];
    for source in sources {
        check_invariants(&parse_module(lines(&source)));
    }
}

#[test]
fn an_empty_file_is_a_root_alone() {
    let tree = parse_module(Vec::new());
    assert_eq!(tree.len(), 1);
    assert!(tree.root().children.is_empty());
    assert_eq!(tree.child(0, 0), None);
    assert_eq!(tree.child(1, 0), None);
    let blank = parse_module(lines(&["", "   ", ""]));
    assert_eq!(blank.len(), 1);
}

#[test]
fn what_is_open_at_the_end_closes_at_the_end_of_the_text() {
    let tree = parse_module(lines(&["class A:", "    def f(self):", "        pass"]));
    assert_eq!(spans(&tree), vec![None, Some((0, 38)), Some((13, 38))]);
    let one = parse_module(lines(&["class A:"]));
    assert_eq!(spans(&one), vec![None, Some((0, 8))]);
    let open_doc = parse_module(lines(&["    \"\"\"never closed", "more  "]));
    assert_eq!(spans(&open_doc), vec![None, Some((4, 26))]);
    assert_eq!(open_doc.child(0, 0).unwrap().value, Some("never closed\nmore".to_string()));
}

#[test]
fn a_dedent_closes_at_the_start_of_the_line() {
    let tree = parse_module(lines(&[
        "class A:",
        "    def f(self):",
        "        pass",
        "x = 1",
        "class B:",
        "    pass",
    ]));
    assert_eq!(
        spans(&tree),
        vec![None, Some((0, 39)), Some((13, 39)), Some((45, 62))]
    );
    assert_eq!(tree.root().children, vec![1, 3]);
    assert_eq!(tree.node(1).unwrap().children, vec![2]);
    assert_eq!(tree.node(2).unwrap().parent, Some(1));
    assert_eq!(tree.node(3).unwrap().parent, Some(0));
}

#[test]
fn a_line_at_the_header_indentation_closes_the_context() {
    let tree = parse_module(lines(&["    class A:", "        x = 1", "    y = 2", "    def f():"]));
    let a = tree.child(0, 0).unwrap();
    assert_eq!(a.location(), Some((4, 27)));
    let f = tree.child(0, 1).unwrap();
    assert_eq!(f.context_type, ContextType::METHOD);
    assert_eq!(f.name, "f");
    assert_eq!(f.parent, Some(0));
    assert_eq!(f.location(), Some((41, 49)));
}

#[test]
fn a_blank_line_inside_a_body_closes_nothing() {
    let tree = parse_module(lines(&["class A:", "    x = 1", "", "    def f(self):", "        pass"]));
    let a = tree.child(0, 0).unwrap();
    assert_eq!(a.children.len(), 1);
    assert_eq!(tree.child(1, 0).unwrap().name, "f");
}

#[test]
fn a_blank_line_right_under_a_header_closes_an_empty_body() {
    let tree = parse_module(lines(&["class A:", "", "    def f(self):", "        pass"]));
    assert_eq!(tree.root().children, vec![1, 2]);
    assert_eq!(tree.node(1).unwrap().location(), Some((0, 9)));
    assert_eq!(tree.node(2).unwrap().name, "f");
    assert_eq!(tree.node(2).unwrap().parent, Some(0));
}

#[test]
fn a_short_blank_line_does_not_close_a_deeper_header() {
    // The header stands at column 4: an empty line is too short to end it,
    // a line of three blanks is not.
    let kept = parse_module(lines(&["class A:", "    def f(self):", "", "        pass", "x"]));
    assert_eq!(kept.node(2).unwrap().location(), Some((13, 40)));
    let ended = parse_module(lines(&["class A:", "    def f(self):", "   ", "        pass", "x"]));
    assert_eq!(ended.node(2).unwrap().location(), Some((13, 26)));
}

#[test]
fn docstring_lines_are_joined_by_newlines() {
    let tree = parse_module(lines(&[
        "def f():",
        "    \"\"\"First",
        "",
        "      second line  ",
        "    last\"\"\"",
        "    return 1",
    ]));
    let doc = tree.child(1, 0).unwrap();
    assert_eq!(doc.context_type, ContextType::DOCSTRING);
    assert_eq!(doc.name, "");
    assert_eq!(doc.value, Some("First\n\nsecond line\nlast".to_string()));
    assert_eq!(doc.location(), Some((13, 54)));
    assert_eq!(doc.parent, Some(1));
    assert!(doc.children.is_empty());
}

#[test]
fn an_empty_docstring_has_no_value() {
    let tree = parse_module(lines(&["\"\"\"\"\"\""]));
    let doc = tree.child(0, 0).unwrap();
    assert_eq!(doc.value, None);
    assert_eq!(doc.location(), Some((0, 6)));
}

#[test]
fn headers_inside_a_docstring_open_nothing() {
    let tree = parse_module(lines(&["\"\"\"", "class A:", "def f():", "\"\"\"", "class B:"]));
    assert_eq!(tree.len(), 3);
    assert_eq!(tree.node(1).unwrap().value, Some("class A:\ndef f():".to_string()));
    assert_eq!(tree.node(2).unwrap().name, "B");
}

#[test]
fn an_export_list_gathers_until_its_bracket() {
    let tree = parse_module(lines(&["__all__ = [", "    \"a\",", "    \"b\",", "]", "class A:"]));
    assert_eq!(tree.root().children, vec![1, 2]);
    let all = tree.node(1).unwrap();
    assert_eq!(all.context_type, ContextType::ALL);
    assert_eq!(all.name, "__all__");
    assert!(!all.is_public);
    assert_eq!(all.value, Some("[\n\"a\",\n\"b\",\n]".to_string()));
    assert_eq!(all.location(), Some((0, 31)));
    let single = parse_module(lines(&["__all__ = [\"a\"]", "x"]));
    assert_eq!(single.node(1).unwrap().value, Some("[\"a\"]".to_string()));
    assert_eq!(single.node(1).unwrap().location(), Some((0, 15)));
}

#[test]
fn names_with_a_leading_underscore_are_private() {
    let tree = parse_module(lines(&[
        "class _Hidden:",
        "    def __init__(self):",
        "        pass",
        "    def shown(self):",
        "        pass",
        "class Shown_:",
    ]));
    let expected = vec![("_Hidden", false), ("__init__", false), ("shown", true), ("Shown_", true)];
    for (id, (name, public)) in expected.iter().enumerate() {
        let node = tree.node(id + 1).unwrap();
        assert_eq!(node.name, *name);
        assert_eq!(node.is_public, *public);
    }
}

#[test]
fn the_method_named_init_is_private_by_its_name() {
    let tree = parse_module(lines(&["class God:", "    def __init__(self, name: int):"]));
    assert!(!tree.child(1, 0).unwrap().is_public);
}

#[test]
fn children_stand_in_the_order_of_the_source() {
    let tree = parse_module(lines(&[
        "class A:",
        "    \"\"\"doc\"\"\"",
        "    def f(self):",
        "        pass",
        "    class B:",
        "        def g(self):",
        "            pass",
        "    def h(self):",
        "        pass",
    ]));
    let a = tree.child(0, 0).unwrap();
    let starts: Vec<usize> =
        a.children.iter().map(|id| tree.node(*id).unwrap().start()).collect();
    assert_eq!(starts, vec![13, 27, 57, 108]);
    let names: Vec<&str> =
        a.children.iter().map(|id| tree.node(*id).unwrap().name.as_str()).collect();
    assert_eq!(names, vec!["", "f", "B", "h"]);
}

#[test]
fn parsing_twice_gives_the_same_tree() {
    let source = lines(&["class A:", "    def f(self):", "        \"\"\"d\"\"\"", "x"]);
    let processor = ContextProcessor::load(source.clone());
    assert_eq!(processor.parse_module(), processor.parse_module());
    assert_eq!(processor.parse_module(), parse_module(source));
}
