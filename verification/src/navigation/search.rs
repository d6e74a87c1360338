//! Classes whose name holds a keyword.

use vstd::prelude::*;
use crate::chapter::node::NodeModel;
use crate::chapter::processor::parse_module;
use crate::chapter::scan::parse;
use crate::chapter::soundness::lemma_split_length;
use crate::text::{split_lines, split_spec};
use crate::chapter::tree::ContextTree;
use crate::chapter::types::ContextType;
use crate::text::{contains, starts_with, str_contains, str_starts_with, str_views, trim, trimmed};

verus! {

/// A match: what was found, and the file it was found in.
pub type ClassMatch = (String, String);

/// The views of a vector of matches, one by one.
pub open spec fn match_views(matches: Seq<ClassMatch>) -> Seq<(Seq<char>, Seq<char>)> {
    Seq::new(matches.len(), |i: int| (matches[i].0@, matches[i].1@))
}

/// A line that begins, behind its indentation, with the keyword `class`, and
/// holds `keyword` somewhere.
pub open spec fn is_class_line(line: Seq<char>, keyword: Seq<char>) -> bool {
    starts_with(trim(line), "class "@) && contains(line, keyword)
}

/// The class lines among `lines` that hold `keyword`, in order, each with the
/// file's name.
pub open spec fn class_lines(lines: Seq<Seq<char>>, keyword: Seq<char>, file: Seq<char>) -> Seq<
    (Seq<char>, Seq<char>),
>
    decreases lines.len(),
{
    if lines.len() == 0 {
        Seq::empty()
    } else {
        let before = class_lines(lines.drop_last(), keyword, file);
        if is_class_line(lines.last(), keyword) {
            before.push((lines.last(), file))
        } else {
            before
        }
    }
}

/// A class whose name holds `keyword`.
pub open spec fn is_class_match(node: NodeModel, keyword: Seq<char>) -> bool {
    node.kind == ContextType::CLASS && contains(node.name, keyword)
}

/// The matches among the first `n` children of the root: the name of every
/// class that holds `keyword`, in order, each with the file's name.
pub open spec fn class_matches_among(
    nodes: Seq<NodeModel>,
    keyword: Seq<char>,
    file: Seq<char>,
    n: nat,
) -> Seq<(Seq<char>, Seq<char>)>
    decreases n,
{
    if n == 0 || n > nodes[0].children.len() {
        Seq::empty()
    } else {
        let before = class_matches_among(nodes, keyword, file, (n - 1) as nat);
        let child = nodes[nodes[0].children[n - 1] as int];
        if is_class_match(child, keyword) {
            before.push((child.name, file))
        } else {
            before
        }
    }
}

/// The matches among all children of the root.
pub open spec fn class_matches(nodes: Seq<NodeModel>, keyword: Seq<char>, file: Seq<char>) -> Seq<
    (Seq<char>, Seq<char>),
> {
    class_matches_among(nodes, keyword, file, nodes[0].children.len())
}

/// Finds the class lines of a file that hold the keyword; `None` where there
/// is none.
pub fn grep_class(lines: Vec<&str>, keyword: &String, file_name: &str) -> (found: Option<
    Vec<ClassMatch>,
>)
    ensures
        match found {
            Some(matches) => matches@.len() > 0 && match_views(matches@) == class_lines(
                str_views(lines@),
                keyword@,
                file_name@,
            ),
            None => class_lines(str_views(lines@), keyword@, file_name@).len() == 0,
        },
{
    let mut matches: Vec<ClassMatch> = Vec::new();
    let mut i: usize = 0;
    assert(match_views(matches@) =~= Seq::empty());
    while i < lines.len()
        invariant
            i <= lines.len(),
            match_views(matches@) == class_lines(
                str_views(lines@).take(i as int),
                keyword@,
                file_name@,
            ),
        decreases lines.len() - i,
    {
        let line: &str = lines[i];
        let ghost before = match_views(matches@);
        proof {
            let next = str_views(lines@).take(i + 1);
            assert(next.drop_last() =~= str_views(lines@).take(i as int));
            assert(next.last() == line@);
        }
        if str_starts_with(trimmed(line), "class ") && str_contains(line, keyword.as_str()) {
            matches.push((String::from_str(line), String::from_str(file_name)));
            assert(match_views(matches@) =~= before.push((line@, file_name@)));
        }
        i += 1;
    }
    proof {
        assert(str_views(lines@).take(lines.len() as int) =~= str_views(lines@));
    }
    if matches.len() == 0 {
        None
    } else {
        Some(matches)
    }
}

/// Finds, among the contexts at the top of a file, the classes whose name
/// holds the keyword. A file without such a class has no match.
pub fn find_classes(tree: &ContextTree, keyword: &str, file_name: &str) -> (matches: Vec<
    ClassMatch,
>)
    ensures
        match_views(matches@) == class_matches(tree@, keyword@, file_name@),
{
    let mut matches: Vec<ClassMatch> = Vec::new();
    let count: usize = tree.root().children().len();
    let mut i: usize = 0;
    assert(match_views(matches@) =~= Seq::empty());
    while i < count
        invariant
            i <= count,
            count == tree@[0].children.len(),
            tree@.len() >= 1,
            match_views(matches@) == class_matches_among(tree@, keyword@, file_name@, i as nat),
        decreases count - i,
    {
        let ghost before = match_views(matches@);
        match tree.child(0, i) {
            Some(child) => {
                if child.kind() == ContextType::CLASS && str_contains(
                    child.name().as_str(),
                    keyword,
                ) {
                    matches.push((child.name().clone(), String::from_str(file_name)));
                    assert(match_views(matches@) =~= before.push((child@.name, file_name@)));
                }
            },
            None => {},
        }
        i += 1;
    }
    matches
}

/// Finds the classes at the top of a file, given its text, whose name holds
/// the keyword. A text that does not hold the keyword at all is not scanned
/// and has no match.
pub fn search_source(content: &str, keyword: &str, file_name: &str) -> (matches: Vec<ClassMatch>)
    requires
        content@.len() < usize::MAX,
    ensures
        match_views(matches@) == (if contains(content@, keyword@) {
            class_matches(parse(split_spec(content@)), keyword@, file_name@)
        } else {
            Seq::empty()
        }),
{
    if !str_contains(content, keyword) {
        let none: Vec<ClassMatch> = Vec::new();
        assert(match_views(none@) =~= Seq::empty());
        return none;
    }
    let lines = split_lines(content);
    proof {
        lemma_split_length(content@, content@.len() as int);
    }
    let tree = parse_module(lines);
    find_classes(&tree, keyword, file_name)
}

/// Searching for a keyword that no class among the first `n` children of the
/// root holds in its name yields no match among them.
proof fn lemma_no_match_among(nodes: Seq<NodeModel>, keyword: Seq<char>, file: Seq<char>, n: nat)
    requires
        n <= nodes[0].children.len(),
        forall|i: int|
            0 <= i < nodes[0].children.len() ==> !is_class_match(
                #[trigger] nodes[nodes[0].children[i] as int],
                keyword,
            ),
    ensures
        class_matches_among(nodes, keyword, file, n).len() == 0,
    decreases n,
{
    if n > 0 {
        lemma_no_match_among(nodes, keyword, file, (n - 1) as nat);
    }
}

/// Searching for a keyword that no class at the top of the file holds in its
/// name yields no match.
pub proof fn lemma_absent_class_has_no_match(
    nodes: Seq<NodeModel>,
    keyword: Seq<char>,
    file: Seq<char>,
)
    requires
        forall|i: int|
            0 <= i < nodes[0].children.len() ==> !is_class_match(
                #[trigger] nodes[nodes[0].children[i] as int],
                keyword,
            ),
    ensures
        class_matches(nodes, keyword, file) == Seq::<(Seq<char>, Seq<char>)>::empty(),
{
    lemma_no_match_among(nodes, keyword, file, nodes[0].children.len());
    assert(class_matches(nodes, keyword, file) =~= Seq::empty());
}

} // verus!
