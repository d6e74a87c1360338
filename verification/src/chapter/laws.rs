//! What holds of every tree that the scanner builds.

use vstd::prelude::*;
use super::node::NodeModel;
use super::scan::{is_public_name, parse, scan, text_len, ScanState};
use super::soundness::lemma_scan_inv;
use super::tree::{children_ordered, member_ok, tree_ok};
use super::types::ContextType;

verus! {

/// Once only the root is open, the nodes of a well-formed state make a
/// finished tree.
pub proof fn lemma_finished_tree(state: ScanState, starts: nat, ends: nat)
    requires
        state.wf(starts, ends),
        state.open.len() == 1,
    ensures
        tree_ok(state.nodes),
{
    let nodes = state.nodes;
    assert forall|i: int| 1 <= i < nodes.len() implies nodes[i].end is Some by {
        assert(state.node_ok(i, starts, ends));
        if nodes[i].end is None {
            let k = choose|k: int| 0 <= k < state.open.len() && #[trigger] state.open[k].node == i;
            assert(k == 0);
        }
    }
    assert forall|i: int| 1 <= i < nodes.len() implies #[trigger] member_ok(nodes, i) by {
        assert(state.node_ok(i, starts, ends));
        let p = nodes[i].parent->0 as int;
        if p > 0 {
            assert(nodes[p].end is Some);
            assert(nodes[p].start < nodes[i].start);
        }
    }
    assert forall|i: int| 0 <= i < nodes.len() implies #[trigger] children_ordered(nodes, i) by {
        assert(state.children_ok(i));
        let c = nodes[i].children;
        assert forall|j: int, k: int| 0 <= j < k < c.len() implies c[j] < c[k] && nodes[c[j] as int].start
            <= nodes[c[k] as int].start && nodes[c[j] as int].end is Some
            && nodes[c[j] as int].end->0 <= nodes[c[k] as int].start by {
            assert(i < c[j]);
            assert(c[k] < nodes.len());
            assert(c[j] < c[k]);
            assert(nodes[c[j] as int].start < nodes[c[k] as int].start);
            assert(nodes[c[j] as int].parent == nodes[c[k] as int].parent);
        }
    }
}

/// The tree of any file is a finished tree.
pub proof fn lemma_parse_tree_ok(lines: Seq<Seq<char>>)
    ensures
        tree_ok(parse(lines)),
{
    let last = scan(lines, lines.len());
    lemma_scan_inv(lines, lines.len());
    assert(last.offset <= text_len(lines) + 1);
    last.lemma_close_all_wf(text_len(lines), last.offset, last.offset);
    lemma_finished_tree(
        last.close_all(text_len(lines)),
        last.offset,
        text_len(lines) + 1,
    );
}

/// For any input the tree has a root that is of kind `ROOT` and has neither
/// span nor parent.
pub proof fn lemma_root_has_no_span_and_no_parent(lines: Seq<Seq<char>>)
    ensures
        parse(lines).len() >= 1,
        parse(lines)[0].kind == ContextType::ROOT,
        parse(lines)[0].location() is None,
        parse(lines)[0].parent is None,
{
    lemma_parse_tree_ok(lines);
}

/// Every node of a tree but the root is closed, and its span does not end
/// before it starts.
pub proof fn lemma_spans_are_ordered(lines: Seq<Seq<char>>, i: int)
    requires
        1 <= i < parse(lines).len(),
    ensures
        parse(lines)[i].location() == Some((parse(lines)[i].start, parse(lines)[i].end->0)),
        parse(lines)[i].start <= parse(lines)[i].end->0,
{
    lemma_parse_tree_ok(lines);
    assert(member_ok(parse(lines), i));
}

/// Every span of a tree lies inside the text: no node ends behind the last
/// character.
pub proof fn lemma_spans_inside_text(lines: Seq<Seq<char>>, i: int)
    requires
        1 <= i < parse(lines).len(),
    ensures
        parse(lines)[i].end is Some,
        parse(lines)[i].start <= parse(lines)[i].end->0 <= text_len(lines),
{
    let last = scan(lines, lines.len());
    lemma_scan_inv(lines, lines.len());
    last.lemma_close_all_wf(text_len(lines), last.offset, last.offset);
    let done = last.close_all(text_len(lines));
    assert(done.node_ok(i, last.offset, text_len(lines) + 1));
    lemma_parse_tree_ok(lines);
    assert(member_ok(parse(lines), i));
}

/// Closing is final: a second close, at whatever offset, changes nothing.
pub proof fn lemma_close_is_final(node: NodeModel, first: nat, second: nat)
    ensures
        node.closed_at(first).closed_at(second) == node.closed_at(first),
        node.end is None ==> node.closed_at(first).closed_at(second).location() == Some(
            (node.start, first),
        ),
{
}

/// Every node of a tree but the root is public exactly when its name does
/// not begin with an underscore.
pub proof fn lemma_visibility_follows_name(lines: Seq<Seq<char>>, i: int)
    requires
        1 <= i < parse(lines).len(),
    ensures
        parse(lines)[i].is_public == is_public_name(parse(lines)[i].name),
        parse(lines)[i].is_public == !(parse(lines)[i].name.len() > 0 && parse(lines)[i].name[0]
            == '_'),
{
    lemma_parse_tree_ok(lines);
    assert(member_ok(parse(lines), i));
}

/// The children of any node of a tree stand in non-decreasing order of
/// their starts.
pub proof fn lemma_children_in_source_order(lines: Seq<Seq<char>>, i: int, j: int, k: int)
    requires
        0 <= i < parse(lines).len(),
        0 <= j <= k < parse(lines)[i].children.len(),
    ensures
        parse(lines)[i].children[j] < parse(lines).len(),
        parse(lines)[i].children[k] < parse(lines).len(),
        parse(lines)[parse(lines)[i].children[j] as int].start <= parse(lines)[parse(
            lines,
        )[i].children[k] as int].start,
{
    lemma_parse_tree_ok(lines);
    assert(children_ordered(parse(lines), i));
}

/// The children of any node of a tree do not overlap: each is closed where
/// the next one starts, or before.
pub proof fn lemma_children_do_not_overlap(lines: Seq<Seq<char>>, i: int, j: int, k: int)
    requires
        0 <= i < parse(lines).len(),
        0 <= j < k < parse(lines)[i].children.len(),
    ensures
        parse(lines)[i].children[j] < parse(lines).len(),
        parse(lines)[i].children[k] < parse(lines).len(),
        parse(lines)[parse(lines)[i].children[j] as int].end is Some,
        parse(lines)[parse(lines)[i].children[j] as int].end->0 <= parse(lines)[parse(
            lines,
        )[i].children[k] as int].start,
{
    lemma_parse_tree_ok(lines);
    assert(children_ordered(parse(lines), i));
}

/// The span of any node of a tree lies inside the span of its parent,
/// unless the parent is the root, which has no span.
pub proof fn lemma_child_inside_parent(lines: Seq<Seq<char>>, i: int)
    requires
        1 <= i < parse(lines).len(),
        parse(lines)[i].parent != Some(0nat),
    ensures
        parse(lines)[i].parent is Some,
        parse(lines)[i].parent->0 < i,
        parse(lines)[parse(lines)[i].parent->0 as int].start < parse(lines)[i].start,
        parse(lines)[i].end->0 <= parse(lines)[parse(lines)[i].parent->0 as int].end->0,
{
    lemma_parse_tree_ok(lines);
    assert(member_ok(parse(lines), i));
}

/// Every node of a tree but the root has exactly one parent, made before it,
/// and stands exactly once among that parent's children.
pub proof fn lemma_one_parent(lines: Seq<Seq<char>>, i: int)
    requires
        1 <= i < parse(lines).len(),
    ensures
        parse(lines)[i].parent is Some,
        parse(lines)[i].parent->0 < i,
        parse(lines)[parse(lines)[i].parent->0 as int].children.contains(i as nat),
        forall|a: int, b: int|
            0 <= a < b < parse(lines)[parse(lines)[i].parent->0 as int].children.len() ==> !(
            parse(lines)[parse(lines)[i].parent->0 as int].children[a] == i as nat && parse(
                lines,
            )[parse(lines)[i].parent->0 as int].children[b] == i as nat),
{
    lemma_parse_tree_ok(lines);
    assert(member_ok(parse(lines), i));
    assert(children_ordered(parse(lines), parse(lines)[i].parent->0 as int));
}

} // verus!
