//! Why every state of the scanner is well formed.

use vstd::prelude::*;
use super::lines::{
    classify_spec, class_keyword, docstring_mark, exports_name, header_name, indent_of,
    method_keyword, exports_assign, LineModel,
};
use super::scan::{is_leaf, line_start, scan, ScanState};
use super::types::ContextType;
use crate::text::{
    contains, lemma_skip_back_bounds, lemma_skip_bounds, occurs_at, split_upto, trim, trim_end,
    trim_start,
};

verus! {

/// The trimmed text lies inside the line.
pub proof fn lemma_trim_bounds(s: Seq<char>)
    ensures
        0 <= trim_start(s) <= trim_end(s) <= s.len(),
        trim(s).len() == trim_end(s) - trim_start(s),
        indent_of(s) <= s.len(),
{
    lemma_skip_bounds(s, 0);
    lemma_skip_back_bounds(s, s.len() as int);
}

/// A line is at least as long as anything it contains.
pub proof fn lemma_contains_len(s: Seq<char>, p: Seq<char>)
    requires
        contains(s, p),
    ensures
        p.len() <= s.len(),
{
    let i = choose|i: int| occurs_at(s, p, i);
    assert(occurs_at(s, p, i));
}

/// A line that opens a context is at least three characters long.
pub proof fn lemma_opening_line_len(line: Seq<char>)
    requires
        !(classify_spec(line) is Blank),
        !(classify_spec(line) is Other),
    ensures
        line.len() >= 3,
{
    lemma_trim_bounds(line);
    reveal_strlit("\"\"\"");
    reveal_strlit("class ");
    reveal_strlit("def ");
    reveal_strlit("__all__");
    let text = trim(line);
    if contains(line, docstring_mark()) {
        lemma_contains_len(line, docstring_mark());
    } else if header_name(text, class_keyword(), true) is Some {
    } else if header_name(text, method_keyword(), false) is Some {
    } else if exports_assign(text) is Some {
    }
}

impl ScanState {
    /// A child of the innermost open context is not in the chain.
    pub proof fn lemma_child_of_top_is_closed(self, i: int, starts: nat, ends: nat)
        requires
            self.wf(starts, ends),
            1 <= i < self.nodes.len(),
            self.nodes[i].parent == Some(self.top().node),
        ensures
            !self.on_stack(i),
            self.nodes[i].end is Some,
            self.nodes[i].end->0 < ends,
    {
        let last = self.open.len() - 1;
        assert(self.node_ok(i, starts, ends));
        if self.on_stack(i) {
            let k = choose|k: int| 0 <= k < self.open.len() && #[trigger] self.open[k].node == i;
            assert(self.open[0].node == 0);
            assert(k >= 1);
            assert(self.nodes[self.open[k].node as int].parent == Some(self.open[k - 1].node));
            if k - 1 < last {
                assert(self.open[k - 1].node < self.open[last].node);
            }
        }
    }

    /// A state that is well formed below some limits is so below any later
    /// limits.
    pub proof fn lemma_wf_weaken(self, starts: nat, ends: nat, later_starts: nat, later_ends: nat)
        requires
            self.wf(starts, ends),
            starts <= later_starts,
            ends <= later_ends,
        ensures
            self.wf(later_starts, later_ends),
    {
        assert forall|i: int| 1 <= i < self.nodes.len() implies #[trigger] self.node_ok(
            i,
            later_starts,
            later_ends,
        ) by {
            assert(self.node_ok(i, starts, ends));
        }
    }

    /// Closing the innermost context keeps the state well formed.
    pub proof fn lemma_close_top_wf(self, end: nat, starts: nat, ends: nat)
        requires
            self.wf(starts, ends),
            self.open.len() > 1,
            starts <= end + 1,
            ends <= end + 1,
        ensures
            self.close_top(end).wf(starts, end + 1),
            self.close_top(end).open.len() == self.open.len() - 1,
            self.close_top(end).nodes.len() == self.nodes.len(),
            self.close_top(end).offset == self.offset,
            self.close_top(end).line == self.line,
            !is_leaf(self.close_top(end).top_node().kind),
            self.close_top(end).nodes[self.top().node as int].end == Some(end),
            self.nodes[self.top().node as int].end is None,
    {
        let after = self.close_top(end);
        let id = self.top().node as int;
        let last = self.open.len() - 1;
        assert(self.open[last].node == id);
        assert(self.open[0].node < self.open[last].node);
        assert(id >= 1);
        assert(self.node_ok(id, starts, ends));
        assert(self.nodes[id].end is None);
        assert forall|k: int| 0 <= k < after.open.len() implies (#[trigger] after.open[k]).node
            < after.nodes.len() && after.nodes[after.open[k].node as int].end is None by {
            assert(after.open[k] == self.open[k]);
            assert(self.open[k].node < self.open[last].node);
        }
        assert forall|k: int, m: int| 0 <= k < m < after.open.len() implies (
        #[trigger] after.open[k]).node < (#[trigger] after.open[m]).node by {
            assert(after.open[k] == self.open[k]);
            assert(after.open[m] == self.open[m]);
        }
        assert forall|k: int| 1 <= k < after.open.len() implies after.nodes[(
        #[trigger] after.open[k]).node as int].parent == Some(after.open[k - 1].node) by {
            assert(after.open[k] == self.open[k]);
            assert(after.open[k - 1] == self.open[k - 1]);
            assert(self.open[k].node < self.open[last].node);
        }
        assert forall|k: int| 0 <= k < after.open.len() - 1 implies !is_leaf(
            after.nodes[(#[trigger] after.open[k]).node as int].kind,
        ) by {
            assert(after.open[k] == self.open[k]);
        }
        assert(after.chain_ok());
        assert forall|i: int| 1 <= i < after.nodes.len() implies #[trigger] after.node_ok(
            i,
            starts,
            end + 1,
        ) by {
            assert(self.node_ok(i, starts, ends));
            let n = self.nodes[i];
            let p = n.parent->0 as int;
            assert(after.nodes[p].children == self.nodes[p].children);
            assert(after.nodes[p].kind == self.nodes[p].kind);
            if p == id {
                self.lemma_child_of_top_is_closed(i, starts, ends);
            } else if i == id {
                assert(self.nodes[self.open[last].node as int].parent == Some(
                    self.open[last - 1].node,
                ));
                assert(self.nodes[self.open[last - 1].node as int].end is None);
            }
            if after.nodes[i].end is None {
                assert(i != id);
                assert(self.on_stack(i));
                let k = choose|k: int| 0 <= k < self.open.len() && #[trigger] self.open[k].node == i;
                assert(k != last);
                assert(after.open[k] == self.open[k]);
                assert(after.on_stack(i));
            }
        }
        assert forall|i: int| 0 <= i < after.nodes.len() implies #[trigger] after.children_ok(
            i,
        ) by {
            assert(self.children_ok(i));
            assert(after.nodes[i].children == self.nodes[i].children);
            let c = self.nodes[i].children;
            assert forall|j: int| 0 <= j < c.len() implies i < #[trigger] c[j] < after.nodes.len()
                && after.nodes[c[j] as int].parent == Some(i as nat) by {
                assert(after.nodes[c[j] as int].parent == self.nodes[c[j] as int].parent);
            }
        }
        assert forall|i: int, j: int| 1 <= i < j < after.nodes.len() implies (
        #[trigger] after.nodes[i]).start < (#[trigger] after.nodes[j]).start by {
            assert(self.nodes[i].start < self.nodes[j].start);
        }
        assert forall|i: int, j: int|
            1 <= i < j < after.nodes.len() && (#[trigger] after.nodes[i]).parent == (
            #[trigger] after.nodes[j]).parent implies after.nodes[i].end is Some
            && after.nodes[i].end->0 <= after.nodes[j].start by {
            assert(self.nodes[i].parent == self.nodes[j].parent);
            assert(self.nodes[i].end is Some && self.nodes[i].end->0 <= self.nodes[j].start);
        }
        assert(after.order_ok());
        assert(after.open.len() >= 1);
        assert(after.open[0] == self.open[0]);
        assert(after.open.last() == self.open[last - 1]);
    }

    /// Opening a child under a context that is no leaf keeps the state well
    /// formed, the new node being the latest to start.
    pub proof fn lemma_open_child_wf(
        self,
        name: Seq<char>,
        kind: ContextType,
        start: nat,
        indent: nat,
        starts: nat,
        ends: nat,
    )
        requires
            self.wf(starts, ends),
            starts <= start,
            ends <= start + 1,
            kind != ContextType::ROOT,
            !is_leaf(self.top_node().kind),
        ensures
            self.open_child(name, kind, start, indent).wf(start + 1, ends),
            self.open_child(name, kind, start, indent).open.len() == self.open.len() + 1,
            self.open_child(name, kind, start, indent).nodes.len() == self.nodes.len() + 1,
            self.open_child(name, kind, start, indent).top().node == self.nodes.len(),
            self.open_child(name, kind, start, indent).top_node().kind == kind,
            self.open_child(name, kind, start, indent).top_node().start == start,
            self.open_child(name, kind, start, indent).top_node().end is None,
            self.open_child(name, kind, start, indent).top_node().value is None,
            self.open_child(name, kind, start, indent).offset == self.offset,
            self.open_child(name, kind, start, indent).line == self.line,
    {
        let after = self.open_child(name, kind, start, indent);
        let id = self.nodes.len() as int;
        let parent = self.top().node as int;
        let last = self.open.len() - 1;
        assert(self.open[last].node == parent);
        assert(parent < id);
        assert(self.nodes[parent].end is None);
        assert(after.open[last + 1].node == id);
        assert forall|k: int| 0 <= k < after.open.len() implies (#[trigger] after.open[k]).node
            < after.nodes.len() && after.nodes[after.open[k].node as int].end is None by {
            if k <= last {
                assert(after.open[k] == self.open[k]);
                assert(after.nodes[self.open[k].node as int].end
                    == self.nodes[self.open[k].node as int].end);
            }
        }
        assert forall|k: int, m: int| 0 <= k < m < after.open.len() implies (
        #[trigger] after.open[k]).node < (#[trigger] after.open[m]).node by {
            assert(after.open[k] == self.open[k]);
            if m <= last {
                assert(after.open[m] == self.open[m]);
            }
        }
        assert forall|k: int| 1 <= k < after.open.len() implies after.nodes[(
        #[trigger] after.open[k]).node as int].parent == Some(after.open[k - 1].node) by {
            assert(after.open[k - 1] == self.open[k - 1]);
            if k <= last {
                assert(after.open[k] == self.open[k]);
                assert(after.nodes[self.open[k].node as int].parent
                    == self.nodes[self.open[k].node as int].parent);
            }
        }
        assert forall|k: int| 0 <= k < after.open.len() - 1 implies !is_leaf(
            after.nodes[(#[trigger] after.open[k]).node as int].kind,
        ) by {
            assert(after.open[k] == self.open[k]);
            assert(after.nodes[self.open[k].node as int].kind
                == self.nodes[self.open[k].node as int].kind);
        }
        assert(after.chain_ok());
        assert forall|i: int| 1 <= i < after.nodes.len() implies #[trigger] after.node_ok(
            i,
            start + 1,
            ends,
        ) by {
            if i < id {
                assert(self.node_ok(i, starts, ends));
                let n = self.nodes[i];
                let p = n.parent->0 as int;
                assert(after.nodes[i].parent == n.parent);
                assert(after.nodes[i].end == n.end);
                assert(after.nodes[p].end == self.nodes[p].end);
                if p == parent {
                    let j = choose|j: int|
                        0 <= j < self.nodes[p].children.len() && self.nodes[p].children[j]
                            == i as nat;
                    assert(after.nodes[p].children[j] == i as nat);
                } else {
                    assert(after.nodes[p] == self.nodes[p]);
                }
                if n.end is None {
                    let k = choose|k: int|
                        0 <= k < self.open.len() && #[trigger] self.open[k].node == i;
                    assert(after.open[k] == self.open[k]);
                    assert(after.on_stack(i));
                }
            } else {
                assert(after.nodes[id].parent == Some(parent as nat));
                let c = after.nodes[parent].children;
                assert(c[c.len() - 1] == id as nat);
                assert(after.on_stack(id));
            }
        }
        assert forall|i: int| 0 <= i < after.nodes.len() implies #[trigger] after.children_ok(
            i,
        ) by {
            if i < id {
                assert(self.children_ok(i));
                let old_c = self.nodes[i].children;
                let c = after.nodes[i].children;
                assert forall|j: int| 0 <= j < c.len() implies i < #[trigger] c[j]
                    < after.nodes.len() && after.nodes[c[j] as int].parent == Some(i as nat) by {
                    if j < old_c.len() {
                        assert(c[j] == old_c[j]);
                        assert(after.nodes[old_c[j] as int].parent
                            == self.nodes[old_c[j] as int].parent);
                    }
                }
                assert forall|j: int, k: int| 0 <= j < k < c.len() implies c[j] < c[k] by {
                    assert(c[j] == old_c[j]);
                    if k < old_c.len() {
                        assert(c[k] == old_c[k]);
                    }
                }
            }
        }
        assert forall|i: int, j: int| 1 <= i < j < after.nodes.len() implies (
        #[trigger] after.nodes[i]).start < (#[trigger] after.nodes[j]).start by {
            assert(self.node_ok(i, starts, ends));
            if j < id {
                assert(self.nodes[i].start < self.nodes[j].start);
            }
        }
        assert forall|i: int, j: int|
            1 <= i < j < after.nodes.len() && (#[trigger] after.nodes[i]).parent == (
            #[trigger] after.nodes[j]).parent implies after.nodes[i].end is Some
            && after.nodes[i].end->0 <= after.nodes[j].start by {
            assert(after.nodes[i].parent == self.nodes[i].parent);
            assert(after.nodes[i].end == self.nodes[i].end);
            if j < id {
                assert(after.nodes[j].parent == self.nodes[j].parent);
                assert(after.nodes[j].start == self.nodes[j].start);
                assert(self.nodes[i].end is Some && self.nodes[i].end->0 <= self.nodes[j].start);
            } else {
                self.lemma_child_of_top_is_closed(i, starts, ends);
            }
        }
        assert(after.order_ok());
        assert(after.open[0] == self.open[0]);
    }

    /// Gathering text in a context other than the root keeps the state well
    /// formed.
    pub proof fn lemma_accumulate_wf(self, piece: Seq<char>, starts: nat, ends: nat)
        requires
            self.wf(starts, ends),
            self.open.len() > 1,
        ensures
            self.accumulate(piece).wf(starts, ends),
            self.accumulate(piece).open == self.open,
            self.accumulate(piece).nodes.len() == self.nodes.len(),
            self.accumulate(piece).top_node().kind == self.top_node().kind,
            self.accumulate(piece).top_node().start == self.top_node().start,
            self.accumulate(piece).offset == self.offset,
            self.accumulate(piece).line == self.line,
            self.accumulate_text(piece).wf(starts, ends),
            self.accumulate_text(piece).open == self.open,
            self.accumulate_text(piece).nodes.len() == self.nodes.len(),
            self.accumulate_text(piece).top_node().kind == self.top_node().kind,
            self.accumulate_text(piece).top_node().start == self.top_node().start,
            self.accumulate_text(piece).offset == self.offset,
            self.accumulate_text(piece).line == self.line,
    {
        let after = self.accumulate(piece);
        let id = self.top().node as int;
        let last = self.open.len() - 1;
        assert(self.open[last].node == id);
        assert(self.open[0].node < self.open[last].node);
        assert forall|k: int| 0 <= k < after.open.len() implies (#[trigger] after.open[k]).node
            < after.nodes.len() && after.nodes[after.open[k].node as int].end is None by {
            assert(after.nodes[self.open[k].node as int].end
                == self.nodes[self.open[k].node as int].end);
        }
        assert forall|k: int| 1 <= k < after.open.len() implies after.nodes[(
        #[trigger] after.open[k]).node as int].parent == Some(after.open[k - 1].node) by {
            assert(after.nodes[self.open[k].node as int].parent
                == self.nodes[self.open[k].node as int].parent);
        }
        assert forall|k: int| 0 <= k < after.open.len() - 1 implies !is_leaf(
            after.nodes[(#[trigger] after.open[k]).node as int].kind,
        ) by {
            assert(after.nodes[self.open[k].node as int].kind
                == self.nodes[self.open[k].node as int].kind);
        }
        assert(after.chain_ok());
        assert forall|i: int| 1 <= i < after.nodes.len() implies #[trigger] after.node_ok(
            i,
            starts,
            ends,
        ) by {
            assert(self.node_ok(i, starts, ends));
            let p = self.nodes[i].parent->0 as int;
            assert(after.nodes[p].children == self.nodes[p].children);
            assert(after.nodes[p].kind == self.nodes[p].kind);
            assert(after.nodes[p].end == self.nodes[p].end);
            if self.nodes[i].end is None {
                let k = choose|k: int|
                    0 <= k < self.open.len() && #[trigger] self.open[k].node == i;
                assert(after.open[k].node == i);
            }
        }
        assert forall|i: int| 0 <= i < after.nodes.len() implies #[trigger] after.children_ok(
            i,
        ) by {
            assert(self.children_ok(i));
            let c = self.nodes[i].children;
            assert(after.nodes[i].children == c);
            assert forall|j: int| 0 <= j < c.len() implies i < #[trigger] c[j] < after.nodes.len()
                && after.nodes[c[j] as int].parent == Some(i as nat) by {
                assert(after.nodes[c[j] as int].parent == self.nodes[c[j] as int].parent);
            }
        }
        assert forall|i: int, j: int| 1 <= i < j < after.nodes.len() implies (
        #[trigger] after.nodes[i]).start < (#[trigger] after.nodes[j]).start by {
            assert(self.nodes[i].start < self.nodes[j].start);
        }
        assert forall|i: int, j: int|
            1 <= i < j < after.nodes.len() && (#[trigger] after.nodes[i]).parent == (
            #[trigger] after.nodes[j]).parent implies after.nodes[i].end is Some
            && after.nodes[i].end->0 <= after.nodes[j].start by {
            assert(self.nodes[i].parent == self.nodes[j].parent);
            assert(self.nodes[i].end is Some && self.nodes[i].end->0 <= self.nodes[j].start);
        }
        assert(after.order_ok());
    }

    /// Closing on a dedent keeps the state well formed and never opens
    /// anything.
    pub proof fn lemma_dedent_wf(self, indent: nat, ends: nat)
        requires
            self.wf(self.offset, ends),
            ends <= self.offset + 1,
        ensures
            self.dedent(indent).wf(self.offset, self.offset + 1),
            1 <= self.dedent(indent).open.len() <= self.open.len(),
            self.dedent(indent).nodes.len() == self.nodes.len(),
            self.dedent(indent).offset == self.offset,
            self.dedent(indent).line == self.line,
            !is_leaf(self.top_node().kind) ==> !is_leaf(self.dedent(indent).top_node().kind),
        decreases self.open.len(),
    {
        if self.open.len() > 1 && indent <= self.top().indent {
            self.lemma_close_top_wf(self.offset, self.offset, ends);
            self.close_top(self.offset).lemma_dedent_wf(indent, self.offset + 1);
        } else {
            self.lemma_wf_weaken(self.offset, ends, self.offset, self.offset + 1);
        }
    }

    /// Closing all that is open keeps the state well formed and leaves the
    /// root alone in the chain.
    pub proof fn lemma_close_all_wf(self, end: nat, starts: nat, ends: nat)
        requires
            self.wf(starts, ends),
            starts <= end + 1,
            ends <= end + 1,
        ensures
            self.close_all(end).wf(starts, end + 1),
            self.close_all(end).open.len() == 1,
            self.close_all(end).nodes.len() == self.nodes.len(),
        decreases self.open.len(),
    {
        if self.open.len() > 1 {
            self.lemma_close_top_wf(end, starts, ends);
            self.close_top(end).lemma_close_all_wf(end, starts, end + 1);
        } else {
            self.lemma_wf_weaken(starts, ends, starts, end + 1);
        }
    }

    /// Being well formed is a matter of the nodes and the chain alone.
    pub proof fn lemma_wf_frame(self, other: Self, starts: nat, ends: nat)
        requires
            self.wf(starts, ends),
            other.nodes == self.nodes,
            other.open == self.open,
        ensures
            other.wf(starts, ends),
    {
        assert forall|i: int| 1 <= i < other.nodes.len() implies #[trigger] other.node_ok(
            i,
            starts,
            ends,
        ) by {
            assert(self.node_ok(i, starts, ends));
            if self.nodes[i].end is None {
                let k = choose|k: int|
                    0 <= k < self.open.len() && #[trigger] self.open[k].node == i;
                assert(other.open[k].node == i);
            }
        }
        assert forall|i: int| 0 <= i < other.nodes.len() implies #[trigger] other.children_ok(
            i,
        ) by {
            assert(self.children_ok(i));
        }
    }

    /// The first state is well formed.
    pub proof fn lemma_initial_inv()
        ensures
            Self::initial().inv(),
    {
        let s = Self::initial();
        assert(s.nodes[0].children.len() == 0);
        assert(s.children_ok(0));
    }

    /// Every line leads from a well-formed state to a well-formed state.
    pub proof fn lemma_step_inv(self, line: Seq<char>)
        requires
            self.inv(),
        ensures
            self.step(line).inv(),
            self.step(line).offset == self.offset + line.len() + 1,
            self.step(line).line == self.line + 1,
    {
        let kind = self.top_node().kind;
        let next = self.offset + line.len() + 1;
        let moved = if kind == ContextType::DOCSTRING {
            self.inside_docstring(line)
        } else if kind == ContextType::ALL {
            self.inside_exports(line)
        } else {
            self.outside(line)
        };
        assert(moved.wf(next, next) && 4 * moved.open.len() <= next + 4) by {
            self.lemma_moved_wf(line);
        }
        moved.lemma_wf_frame(self.step(line), next, next);
    }

    /// What a line does to the nodes and the chain keeps them well formed.
    proof fn lemma_moved_wf(self, line: Seq<char>)
        requires
            self.inv(),
        ensures
            ({
                let kind = self.top_node().kind;
                let next = self.offset + line.len() + 1;
                let moved = if kind == ContextType::DOCSTRING {
                    self.inside_docstring(line)
                } else if kind == ContextType::ALL {
                    self.inside_exports(line)
                } else {
                    self.outside(line)
                };
                moved.wf(next, next) && 4 * moved.open.len() <= next + 4
            }),
    {
        let kind = self.top_node().kind;
        let at = self.offset;
        let next = self.offset + line.len() + 1;
        let end = self.line_end(line);
        let last = self.open.len() - 1;
        lemma_trim_bounds(line);
        if kind == ContextType::DOCSTRING || kind == ContextType::ALL {
            assert(self.open.len() > 1) by {
                assert(self.open[0].node == 0);
                assert(self.open[last].node == self.top().node);
            }
            if kind == ContextType::DOCSTRING {
                if contains(line, docstring_mark()) {
                    let piece = super::lines::docstring_piece(line);
                    self.lemma_accumulate_wf(piece, at, at);
                    self.accumulate_text(piece).lemma_close_top_wf(end, at, at);
                    self.accumulate_text(piece).close_top(end).lemma_wf_weaken(
                        at,
                        end + 1,
                        next,
                        next,
                    );
                } else {
                    self.lemma_accumulate_wf(trim(line), at, at);
                    self.accumulate(trim(line)).lemma_wf_weaken(at, at, next, next);
                }
            } else {
                self.lemma_accumulate_wf(trim(line), at, at);
                let gathered = self.accumulate(trim(line));
                if contains(line, super::lines::exports_end()) {
                    gathered.lemma_close_top_wf(end, at, at);
                    gathered.close_top(end).lemma_wf_weaken(at, end + 1, next, next);
                } else {
                    gathered.lemma_wf_weaken(at, at, next, next);
                }
            }
        } else {
            let indent = indent_of(line);
            let start = self.offset + indent;
            let base = self.dedent(indent);
            self.lemma_dedent_wf(indent, at);
            match classify_spec(line) {
                LineModel::Blank => {
                    if self.empty_body_ends(line) {
                        self.lemma_close_top_wf(at, at, at);
                        self.close_top(at).lemma_wf_weaken(at, at + 1, next, next);
                    } else {
                        self.lemma_wf_weaken(at, at, next, next);
                    }
                },
                LineModel::Docstring { piece, closed } => {
                    lemma_opening_line_len(line);
                    base.lemma_open_child_wf(
                        Seq::empty(),
                        ContextType::DOCSTRING,
                        start,
                        indent,
                        at,
                        at + 1,
                    );
                    let opened = base.open_child(
                        Seq::empty(),
                        ContextType::DOCSTRING,
                        start,
                        indent,
                    );
                    opened.lemma_accumulate_wf(piece, start + 1, at + 1);
                    let filled = opened.accumulate_text(piece);
                    if closed {
                        filled.lemma_close_top_wf(end, start + 1, at + 1);
                        filled.close_top(end).lemma_wf_weaken(start + 1, end + 1, next, next);
                    } else {
                        filled.lemma_wf_weaken(start + 1, at + 1, next, next);
                    }
                },
                LineModel::Class { name } => {
                    lemma_opening_line_len(line);
                    base.lemma_open_child_wf(
                        name,
                        ContextType::CLASS,
                        start,
                        indent,
                        at,
                        at + 1,
                    );
                    base.open_child(name, ContextType::CLASS, start, indent).lemma_wf_weaken(
                        start + 1,
                        at + 1,
                        next,
                        next,
                    );
                },
                LineModel::Method { name } => {
                    lemma_opening_line_len(line);
                    base.lemma_open_child_wf(
                        name,
                        ContextType::METHOD,
                        start,
                        indent,
                        at,
                        at + 1,
                    );
                    base.open_child(name, ContextType::METHOD, start, indent).lemma_wf_weaken(
                        start + 1,
                        at + 1,
                        next,
                        next,
                    );
                },
                LineModel::Exports { piece, closed } => {
                    lemma_opening_line_len(line);
                    base.lemma_open_child_wf(
                        exports_name(),
                        ContextType::ALL,
                        start,
                        indent,
                        at,
                        at + 1,
                    );
                    let opened = base.open_child(exports_name(), ContextType::ALL, start, indent);
                    opened.lemma_accumulate_wf(piece, start + 1, at + 1);
                    let filled = opened.accumulate_text(piece);
                    if closed {
                        filled.lemma_close_top_wf(end, start + 1, at + 1);
                        filled.close_top(end).lemma_wf_weaken(start + 1, end + 1, next, next);
                    } else {
                        filled.lemma_wf_weaken(start + 1, at + 1, next, next);
                    }
                },
                LineModel::Other => {
                    base.lemma_wf_weaken(at, at + 1, next, next);
                },
            }
        }
    }
}

/// Offsets of line starts never decrease.
pub proof fn lemma_line_start_monotonic(lines: Seq<Seq<char>>, i: nat, j: nat)
    requires
        i <= j <= lines.len(),
    ensures
        line_start(lines, i) <= line_start(lines, j),
    decreases j,
{
    if i < j {
        lemma_line_start_monotonic(lines, i, (j - 1) as nat);
    }
}

/// The offset of a line's start is a matter of the lines before it alone.
pub proof fn lemma_line_start_prefix(a: Seq<Seq<char>>, b: Seq<Seq<char>>, i: nat)
    requires
        i <= a.len(),
        i <= b.len(),
        forall|k: int| 0 <= k < i ==> a[k] == b[k],
    ensures
        line_start(a, i) == line_start(b, i),
    decreases i,
{
    if i > 0 {
        lemma_line_start_prefix(a, b, (i - 1) as nat);
    }
}

/// Cutting a text into lines loses nothing: behind the lines of the first
/// `to` characters the next line would start at offset `to + 1`.
pub proof fn lemma_split_length(s: Seq<char>, to: int)
    requires
        0 <= to <= s.len(),
    ensures
        split_upto(s, to).len() >= 1,
        line_start(split_upto(s, to), split_upto(s, to).len()) == to + 1,
    decreases to,
{
    let lines = split_upto(s, to);
    if to > 0 {
        let before = split_upto(s, to - 1);
        lemma_split_length(s, to - 1);
        let n = before.len();
        if s[to - 1] == '\n' {
            lemma_line_start_prefix(lines, before, n);
            assert(lines.len() == n + 1);
            assert(lines[n as int].len() == 0);
            assert(line_start(lines, n + 1) == line_start(lines, n) + lines[n as int].len() + 1);
        } else {
            lemma_line_start_prefix(lines, before, (n - 1) as nat);
            assert(lines.len() == n);
            assert(lines[n - 1].len() == before[n - 1].len() + 1);
            assert(line_start(lines, n) == line_start(lines, (n - 1) as nat) + lines[n - 1].len()
                + 1);
            assert(line_start(before, n) == line_start(before, (n - 1) as nat) + before[n
                - 1].len() + 1);
        }
    } else {
        assert(lines.len() == 1);
        assert(lines[0].len() == 0);
        assert(line_start(lines, 1) == line_start(lines, 0) + lines[0].len() + 1);
    }
}

/// After any number of lines the scanner is well formed and stands at the
/// start of the next line.
pub proof fn lemma_scan_inv(lines: Seq<Seq<char>>, n: nat)
    requires
        n <= lines.len(),
    ensures
        scan(lines, n).inv(),
        scan(lines, n).offset == line_start(lines, n),
        scan(lines, n).line == n,
    decreases n,
{
    if n == 0 {
        ScanState::lemma_initial_inv();
    } else {
        lemma_scan_inv(lines, (n - 1) as nat);
        scan(lines, (n - 1) as nat).lemma_step_inv(lines[n - 1]);
    }
}

} // verus!
