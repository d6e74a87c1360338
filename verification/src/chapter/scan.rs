//! The scanner as a mathematical state machine: what the tree of a file is.
//!
//! A state holds the nodes made so far and the chain of contexts that are
//! still open. `ScanState::step` consumes one line; `parse` folds it over a
//! file and closes what is left open.

use vstd::prelude::*;
use super::lines::{
    classify_spec, docstring_mark, docstring_piece, exports_end, exports_name, indent_of,
    LineModel,
};
use super::node::NodeModel;
use super::types::ContextType;
use crate::text::{contains, trim};

verus! {

/// An entry of the chain of open contexts.
pub struct OpenScope {
    /// Handle of the open node.
    pub node: nat,
    /// Indentation of the line that opened it.
    pub indent: nat,
    /// Index of the line that opened it.
    pub header_line: nat,
}

/// The scanner between two lines.
pub struct ScanState {
    /// All nodes made so far; a handle is an index here, and 0 is the root.
    pub nodes: Seq<NodeModel>,
    /// The open contexts, outermost first; the last one is the innermost.
    pub open: Seq<OpenScope>,
    /// Offset of the first character of the next line.
    pub offset: nat,
    /// Index of the next line.
    pub line: nat,
}

/// Classes and methods: the contexts that other contexts nest in.
pub open spec fn is_scope(kind: ContextType) -> bool {
    kind == ContextType::CLASS || kind == ContextType::METHOD
}

/// Docstrings and export lists: they gather text and hold no context.
pub open spec fn is_leaf(kind: ContextType) -> bool {
    kind == ContextType::DOCSTRING || kind == ContextType::ALL
}

/// A name is public unless it begins with an underscore.
pub open spec fn is_public_name(name: Seq<char>) -> bool {
    !(name.len() > 0 && name[0] == '_')
}

/// What separates the pieces of an accumulated value.
pub open spec fn piece_separator() -> Seq<char> {
    "\n"@
}

/// Offset of the first character of line `i`, each line being followed by
/// one terminator.
pub open spec fn line_start(lines: Seq<Seq<char>>, i: nat) -> nat
    decreases i,
{
    if i == 0 || i > lines.len() {
        0
    } else {
        line_start(lines, (i - 1) as nat) + lines[i - 1].len() + 1
    }
}

/// Length of the text that the lines make when joined by one terminator.
pub open spec fn text_len(lines: Seq<Seq<char>>) -> nat {
    if lines.len() == 0 {
        0
    } else {
        (line_start(lines, lines.len()) - 1) as nat
    }
}

impl ScanState {
    /// Before the first line: the root alone, open.
    pub open spec fn initial() -> Self {
        ScanState {
            nodes: seq![NodeModel::root()],
            open: seq![OpenScope { node: 0, indent: 0, header_line: 0 }],
            offset: 0,
            line: 0,
        }
    }

    /// The innermost open context.
    pub open spec fn top(self) -> OpenScope {
        self.open.last()
    }

    /// The node of the innermost open context.
    pub open spec fn top_node(self) -> NodeModel {
        self.nodes[self.top().node as int]
    }

    /// Number of open classes and methods.
    pub open spec fn depth(self) -> nat {
        if is_leaf(self.top_node().kind) {
            (self.open.len() - 2) as nat
        } else {
            (self.open.len() - 1) as nat
        }
    }

    /// Makes a node, attaches it to the innermost open context and opens it.
    pub open spec fn open_child(
        self,
        name: Seq<char>,
        kind: ContextType,
        start: nat,
        indent: nat,
    ) -> Self {
        let id = self.nodes.len();
        let parent = self.top().node;
        let child = NodeModel::fresh(name, kind, start, is_public_name(name)).with_parent(parent);
        ScanState {
            nodes: self.nodes.update(parent as int, self.nodes[parent as int].with_child(id)).push(
                child,
            ),
            open: self.open.push(OpenScope { node: id, indent, header_line: self.line }),
            ..self
        }
    }

    /// Closes the innermost open context at `end`.
    pub open spec fn close_top(self, end: nat) -> Self {
        let id = self.top().node as int;
        ScanState {
            nodes: self.nodes.update(id, self.nodes[id].closed_at(end)),
            open: self.open.drop_last(),
            ..self
        }
    }

    /// Adds `piece` to the value of the innermost open context, on a line of
    /// its own when there is a value already.
    pub open spec fn accumulate(self, piece: Seq<char>) -> Self {
        let id = self.top().node as int;
        let node = self.nodes[id];
        let text = if node.value is Some {
            piece_separator() + piece
        } else {
            piece
        };
        ScanState { nodes: self.nodes.update(id, node.appended(text)), ..self }
    }

    /// As `accumulate`, but an empty piece adds nothing.
    pub open spec fn accumulate_text(self, piece: Seq<char>) -> Self {
        if piece.len() > 0 {
            self.accumulate(piece)
        } else {
            self
        }
    }

    /// Closes, at the current offset, every open context that was opened at
    /// `indent` or deeper; the root stays.
    pub open spec fn dedent(self, indent: nat) -> Self
        decreases self.open.len(),
    {
        if self.open.len() > 1 && indent <= self.top().indent {
            self.close_top(self.offset).dedent(indent)
        } else {
            self
        }
    }

    /// Closes every open context but the root at `end`.
    pub open spec fn close_all(self, end: nat) -> Self
        decreases self.open.len(),
    {
        if self.open.len() > 1 {
            self.close_top(end).close_all(end)
        } else {
            self
        }
    }

    /// Offset just behind the last character of `line`, the next line.
    pub open spec fn line_end(self, line: Seq<char>) -> nat {
        self.offset + line.len()
    }

    /// A line while a docstring is open: its text goes to the docstring, and
    /// the delimiter closes it at the end of the line.
    pub open spec fn inside_docstring(self, line: Seq<char>) -> Self {
        if contains(line, docstring_mark()) {
            self.accumulate_text(docstring_piece(line)).close_top(self.line_end(line))
        } else {
            self.accumulate(trim(line))
        }
    }

    /// A line while an export list is open: its text goes to the list, and
    /// the closing bracket closes it at the end of the line.
    pub open spec fn inside_exports(self, line: Seq<char>) -> Self {
        let gathered = self.accumulate(trim(line));
        if contains(line, exports_end()) {
            gathered.close_top(self.line_end(line))
        } else {
            gathered
        }
    }

    /// A blank line ends the innermost class or method when it stands right
    /// under the header and is at most one column short of the header's
    /// indentation.
    pub open spec fn empty_body_ends(self, line: Seq<char>) -> bool {
        &&& is_scope(self.top_node().kind)
        &&& self.top().header_line + 1 == self.line
        &&& line.len() + 1 >= self.top().indent
    }

    /// A line while no docstring and no export list is open.
    pub open spec fn outside(self, line: Seq<char>) -> Self {
        let indent = indent_of(line);
        let start = self.offset + indent;
        match classify_spec(line) {
            LineModel::Blank => if self.empty_body_ends(line) {
                self.close_top(self.offset)
            } else {
                self
            },
            LineModel::Docstring { piece, closed } => {
                let opened = self.dedent(indent).open_child(
                    Seq::empty(),
                    ContextType::DOCSTRING,
                    start,
                    indent,
                ).accumulate_text(piece);
                if closed {
                    opened.close_top(self.line_end(line))
                } else {
                    opened
                }
            },
            LineModel::Class { name } => self.dedent(indent).open_child(
                name,
                ContextType::CLASS,
                start,
                indent,
            ),
            LineModel::Method { name } => self.dedent(indent).open_child(
                name,
                ContextType::METHOD,
                start,
                indent,
            ),
            LineModel::Exports { piece, closed } => {
                let opened = self.dedent(indent).open_child(
                    exports_name(),
                    ContextType::ALL,
                    start,
                    indent,
                ).accumulate_text(piece);
                if closed {
                    opened.close_top(self.line_end(line))
                } else {
                    opened
                }
            },
            LineModel::Other => self.dedent(indent),
        }
    }

    /// The state after the next line, `line`.
    pub open spec fn step(self, line: Seq<char>) -> Self {
        let kind = self.top_node().kind;
        let moved = if kind == ContextType::DOCSTRING {
            self.inside_docstring(line)
        } else if kind == ContextType::ALL {
            self.inside_exports(line)
        } else {
            self.outside(line)
        };
        ScanState { offset: self.offset + line.len() + 1, line: self.line + 1, ..moved }
    }

    /// Node `i` is in the chain of open contexts.
    pub open spec fn on_stack(self, i: int) -> bool {
        exists|k: int| 0 <= k < self.open.len() && #[trigger] self.open[k].node == i
    }

    /// What holds of every node but the root: it is no root, its visibility
    /// follows from its name, its span is ordered, starts before `starts`
    /// and ends before `ends`, its parent was made before it, lists it, is
    /// no leaf and does not close before it, and while it has no end it is
    /// in the chain of open contexts.
    pub open spec fn node_ok(self, i: int, starts: nat, ends: nat) -> bool {
        let n = self.nodes[i];
        &&& n.kind != ContextType::ROOT
        &&& n.is_public == is_public_name(n.name)
        &&& n.span_ordered()
        &&& n.start < starts
        &&& (n.end matches Some(end) ==> end < ends)
        &&& n.parent is Some
        &&& n.parent->0 < i
        &&& self.nodes[n.parent->0 as int].children.contains(i as nat)
        &&& !is_leaf(self.nodes[n.parent->0 as int].kind)
        &&& (self.nodes[n.parent->0 as int].end matches Some(outer) ==> n.end is Some && n.end->0
            <= outer)
        &&& (n.end is None ==> self.on_stack(i))
    }

    /// What holds of the children of every node: each was made after the
    /// node and names it as its parent, and they stand in the order in which
    /// they were made.
    pub open spec fn children_ok(self, i: int) -> bool {
        let c = self.nodes[i].children;
        &&& forall|j: int|
            0 <= j < c.len() ==> i < #[trigger] c[j] < self.nodes.len() && self.nodes[c[j] as int].parent
                == Some(i as nat)
        &&& forall|j: int, k: int| 0 <= j < k < c.len() ==> c[j] < c[k]
    }

    /// The root is node 0: open, without parent, and first in the chain.
    pub open spec fn root_ok(self) -> bool {
        &&& self.nodes.len() >= 1
        &&& self.open.len() >= 1
        &&& self.open[0].node == 0
        &&& self.nodes[0].kind == ContextType::ROOT
        &&& self.nodes[0].name == NodeModel::root().name
        &&& self.nodes[0].end is None
        &&& self.nodes[0].parent is None
        &&& self.nodes[0].value is None
    }

    /// The chain of open contexts runs from the root inwards, each entry an
    /// open node and the child of the one before, and only its last entry
    /// may be a leaf.
    pub open spec fn chain_ok(self) -> bool {
        &&& forall|k: int|
            0 <= k < self.open.len() ==> (#[trigger] self.open[k]).node < self.nodes.len()
                && self.nodes[self.open[k].node as int].end is None
        &&& forall|k: int, m: int|
            0 <= k < m < self.open.len() ==> (#[trigger] self.open[k]).node < (
            #[trigger] self.open[m]).node
        &&& forall|k: int|
            1 <= k < self.open.len() ==> self.nodes[(#[trigger] self.open[k]).node as int].parent
                == Some(self.open[k - 1].node)
        &&& forall|k: int|
            0 <= k < self.open.len() - 1 ==> !is_leaf(
                self.nodes[(#[trigger] self.open[k]).node as int].kind,
            )
    }

    /// Nodes start in the order in which they were made, and a node is
    /// closed before a later child of the same parent starts.
    pub open spec fn order_ok(self) -> bool {
        &&& forall|i: int, j: int|
            1 <= i < j < self.nodes.len() ==> (#[trigger] self.nodes[i]).start < (
            #[trigger] self.nodes[j]).start
        &&& forall|i: int, j: int|
            1 <= i < j < self.nodes.len() && (#[trigger] self.nodes[i]).parent == (
            #[trigger] self.nodes[j]).parent ==> self.nodes[i].end is Some && self.nodes[i].end->0
                <= self.nodes[j].start
    }

    /// The invariant of the scanner, for nodes that start before `starts`
    /// and, if closed, end before `ends`.
    pub open spec fn wf(self, starts: nat, ends: nat) -> bool {
        &&& self.root_ok()
        &&& self.chain_ok()
        &&& self.order_ok()
        &&& forall|i: int| 1 <= i < self.nodes.len() ==> #[trigger] self.node_ok(i, starts, ends)
        &&& forall|i: int| 0 <= i < self.nodes.len() ==> #[trigger] self.children_ok(i)
    }

    /// The invariant between two lines.
    pub open spec fn inv(self) -> bool {
        &&& self.wf(self.offset, self.offset)
        &&& 4 * self.open.len() <= self.offset + 4
    }
}

/// The state after the first `n` lines.
pub open spec fn scan(lines: Seq<Seq<char>>, n: nat) -> ScanState
    decreases n,
{
    if n == 0 || n > lines.len() {
        ScanState::initial()
    } else {
        scan(lines, (n - 1) as nat).step(lines[n - 1])
    }
}

/// The nodes of the tree of a file: every line scanned, and what is still
/// open closed at the end of the text.
pub open spec fn parse(lines: Seq<Seq<char>>) -> Seq<NodeModel> {
    scan(lines, lines.len()).close_all(text_len(lines)).nodes
}

} // verus!
