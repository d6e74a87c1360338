//! The scanner that builds the context tree of a file, line by line.

use vstd::prelude::*;
use super::lines::{classify, docstring_piece_of, indentation, Line};
use super::node::ContextNode;
use super::scan::{
    is_leaf, is_public_name, is_scope, line_start, parse, scan, OpenScope, ScanState,
};
use super::soundness::{
    lemma_line_start_monotonic, lemma_opening_line_len, lemma_scan_inv, lemma_trim_bounds,
};
use super::laws::lemma_finished_tree;
use super::tree::{node_models, tree_ok, ContextTree};
use super::types::{ContextType, Indent, NodeId, INDENT_STEP};
use crate::text::{chars_of, str_contains, trimmed, views};

verus! {

/// An open context as the scanner keeps it.
#[derive(Debug, Clone, Copy)]
pub struct OpenContext {
    pub node: NodeId,
    pub indent: usize,
    pub header_line: usize,
}

impl View for OpenContext {
    type V = OpenScope;

    open spec fn view(&self) -> OpenScope {
        OpenScope {
            node: self.node as nat,
            indent: self.indent as nat,
            header_line: self.header_line as nat,
        }
    }
}

/// The state of a scan: the nodes made so far, the chain of open contexts,
/// and the indentation tracker, which is one unit deep for every open class
/// or method.
pub struct Scanner {
    nodes: Vec<ContextNode>,
    stack: Vec<OpenContext>,
    indent: Indent,
    offset: usize,
    cursor: usize,
}

impl View for Scanner {
    type V = ScanState;

    closed spec fn view(&self) -> ScanState {
        ScanState {
            nodes: node_models(self.nodes@),
            open: Seq::new(self.stack@.len(), |k: int| self.stack@[k]@),
            offset: self.offset as nat,
            line: self.cursor as nat,
        }
    }
}

/// Whether `name` is public: it does not begin with an underscore.
pub fn name_is_public(name: &str) -> (public: bool)
    ensures
        public == is_public_name(name@),
{
    let chars = chars_of(name);
    !(chars.len() > 0 && chars[0] == '_')
}

impl Scanner {
    /// The tracker is one unit deep for every open class or method.
    pub closed spec fn aligned(&self) -> bool {
        self.indent.width() == INDENT_STEP * self@.depth()
    }

    /// The scanner stands between two lines, in a well-formed state.
    pub closed spec fn ready(&self) -> bool {
        &&& self@.inv()
        &&& self.aligned()
        &&& self.cursor <= self.offset
    }

    /// The scanner is inside a line: well formed for nodes that start before
    /// `starts` and end before `ends`, with the tracker in step.
    spec fn steady(&self, starts: nat, ends: nat) -> bool {
        &&& self@.wf(starts, ends)
        &&& self.aligned()
    }

    /// A scanner before the first line.
    pub fn new() -> (scanner: Self)
        ensures
            scanner@ == ScanState::initial(),
            scanner.ready(),
    {
        let mut nodes: Vec<ContextNode> = Vec::new();
        nodes.push(ContextNode::root());
        let mut stack: Vec<OpenContext> = Vec::new();
        stack.push(OpenContext { node: 0, indent: 0, header_line: 0 });
        let scanner = Scanner { nodes, stack, indent: Indent::new(), offset: 0, cursor: 0 };
        proof {
            assert(scanner@.nodes =~= ScanState::initial().nodes);
            assert(scanner@.open =~= ScanState::initial().open);
            ScanState::lemma_initial_inv();
        }
        scanner
    }

    /// Offset of the first character of the next line.
    pub fn offset(&self) -> (offset: usize)
        ensures
            offset == self@.offset,
    {
        self.offset
    }

    /// The indentation tracker: one unit deep for every open class or
    /// method.
    pub fn indent(&self) -> (indent: &Indent)
        requires
            self.ready(),
        ensures
            indent.width() == INDENT_STEP * self@.depth(),
    {
        &self.indent
    }

    fn top(&self) -> (top: OpenContext)
        requires
            self@.root_ok(),
            self@.chain_ok(),
        ensures
            top@ == self@.top(),
            top.node < self.nodes.len(),
            self.nodes[top.node as int]@ == self@.top_node(),
    {
        let top = self.stack[self.stack.len() - 1];
        assert(self@.open[self.stack.len() - 1] == top@);
        top
    }

    fn close_top(&mut self, end: usize, Ghost(starts): Ghost<nat>, Ghost(ends): Ghost<nat>)
        requires
            old(self).steady(starts, ends),
            old(self)@.open.len() > 1,
            starts <= end + 1,
            ends <= end + 1,
        ensures
            final(self)@ == old(self)@.close_top(end as nat),
            final(self).steady(starts, (end + 1) as nat),
            final(self).offset == old(self).offset,
            final(self).cursor == old(self).cursor,
    {
        let ghost before = self@;
        proof {
            before.lemma_close_top_wf(end as nat, starts, ends);
        }
        let top = self.top();
        let kind = self.nodes[top.node].kind();
        proof {
            assert(before.open[0].node < before.open[before.open.len() - 1].node);
            assert(before.node_ok(top.node as int, starts, ends));
        }
        self.stack.pop();
        self.nodes[top.node].set_location(end);
        proof {
            assert(self@.nodes =~= before.close_top(end as nat).nodes);
            assert(self@.open =~= before.close_top(end as nat).open);
        }
        if kind == ContextType::CLASS || kind == ContextType::METHOD {
            self.indent.decrease();
        }
    }

    fn open_child(
        &mut self,
        name: String,
        kind: ContextType,
        start: usize,
        indent: usize,
        Ghost(starts): Ghost<nat>,
        Ghost(ends): Ghost<nat>,
    )
        requires
            old(self).steady(starts, ends),
            starts <= start,
            ends <= start + 1,
            kind != ContextType::ROOT,
            !is_leaf(old(self)@.top_node().kind),
            start < usize::MAX,
            INDENT_STEP * old(self)@.open.len() <= usize::MAX,
        ensures
            final(self)@ == old(self)@.open_child(name@, kind, start as nat, indent as nat),
            final(self).steady((start + 1) as nat, ends),
            final(self).offset == old(self).offset,
            final(self).cursor == old(self).cursor,
    {
        let ghost before = self@;
        proof {
            before.lemma_open_child_wf(name@, kind, start as nat, indent as nat, starts, ends);
        }
        let id: NodeId = self.nodes.len();
        let parent = self.top().node;
        let public = name_is_public(name.as_str());
        let mut node = ContextNode::new(name, kind, start, public);
        node.set_parent(parent);
        self.nodes[parent].add_node(id);
        self.nodes.push(node);
        self.stack.push(OpenContext { node: id, indent, header_line: self.cursor });
        proof {
            let after = before.open_child(name@, kind, start as nat, indent as nat);
            assert(self@.nodes =~= after.nodes);
            assert(self@.open =~= after.open);
        }
        if kind == ContextType::CLASS || kind == ContextType::METHOD {
            self.indent.increase();
        }
    }

    fn accumulate(&mut self, piece: &str, Ghost(starts): Ghost<nat>, Ghost(ends): Ghost<nat>)
        requires
            old(self)@.open.len() > 1,
            old(self).steady(starts, ends),
        ensures
            final(self)@ == old(self)@.accumulate(piece@),
            final(self).steady(starts, ends),
            final(self).offset == old(self).offset,
            final(self).cursor == old(self).cursor,
    {
        let ghost before = self@;
        let top = self.top();
        let text = if self.nodes[top.node].value().is_some() {
            String::from_str("\n").concat(piece)
        } else {
            String::from_str(piece)
        };
        self.nodes[top.node].append_value(&text);
        proof {
            assert(self@.nodes =~= before.accumulate(piece@).nodes);
            assert(self@.open =~= before.open);
            before.lemma_accumulate_wf(piece@, starts, ends);
        }
    }

    fn accumulate_text(&mut self, piece: &str, Ghost(starts): Ghost<nat>, Ghost(ends): Ghost<nat>)
        requires
            old(self)@.open.len() > 1,
            old(self).steady(starts, ends),
        ensures
            final(self)@ == old(self)@.accumulate_text(piece@),
            final(self).steady(starts, ends),
            final(self).offset == old(self).offset,
            final(self).cursor == old(self).cursor,
    {
        if !piece.is_empty() {
            self.accumulate(piece, Ghost(starts), Ghost(ends));
        }
    }

    fn dedent(&mut self, indent: usize)
        requires
            old(self).steady(old(self)@.offset, old(self)@.offset),
            old(self).offset < usize::MAX,
        ensures
            final(self)@ == old(self)@.dedent(indent as nat),
            final(self).steady(old(self)@.offset, old(self)@.offset + 1),
            final(self).offset == old(self).offset,
            final(self).cursor == old(self).cursor,
    {
        let ghost goal = self@.dedent(indent as nat);
        let ghost offset = self@.offset;
        proof {
            self@.lemma_wf_weaken(offset, offset, offset, offset + 1);
        }
        while self.stack.len() > 1 && indent <= self.stack[self.stack.len() - 1].indent
            invariant
                self.steady(offset, offset + 1),
                self@.dedent(indent as nat) == goal,
                self@.offset == offset,
                self.offset == old(self).offset,
                self.cursor == old(self).cursor,
                self.offset < usize::MAX,
                self.stack.len() >= 1,
            decreases self.stack.len(),
        {
            proof {
                assert(self@.open[self.stack.len() - 1] == self.stack[self.stack.len() - 1]@);
                self@.lemma_close_top_wf(offset, offset, offset + 1);
            }
            let at = self.offset;
            self.close_top(at, Ghost(offset), Ghost(offset + 1));
        }
        proof {
            assert(self@.open.len() == self.stack.len());
            if self.stack.len() > 1 {
                assert(self@.open[self.stack.len() - 1] == self.stack[self.stack.len() - 1]@);
            }
        }
    }

    /// A line while a docstring is open.
    fn inside_docstring(&mut self, line: &str, end: usize)
        requires
            old(self).steady(old(self)@.offset, old(self)@.offset),
            old(self)@.open.len() > 1,
            end == old(self)@.offset + line@.len(),
            end < usize::MAX,
        ensures
            final(self)@ == old(self)@.inside_docstring(line@),
            final(self).steady((end + 1) as nat, (end + 1) as nat),
            final(self).offset == old(self).offset,
            final(self).cursor == old(self).cursor,
    {
        let ghost at = self@.offset;
        if str_contains(line, "\"\"\"") {
            let piece = docstring_piece_of(line);
            self.accumulate_text(piece.as_str(), Ghost(at), Ghost(at));
            self.close_top(end, Ghost(at), Ghost(at));
            proof {
                self@.lemma_wf_weaken(at, (end + 1) as nat, (end + 1) as nat, (end + 1) as nat);
            }
        } else {
            self.accumulate(trimmed(line), Ghost(at), Ghost(at));
            proof {
                self@.lemma_wf_weaken(at, at, (end + 1) as nat, (end + 1) as nat);
            }
        }
    }

    /// A line while an export list is open.
    fn inside_exports(&mut self, line: &str, end: usize)
        requires
            old(self).steady(old(self)@.offset, old(self)@.offset),
            old(self)@.open.len() > 1,
            end == old(self)@.offset + line@.len(),
            end < usize::MAX,
        ensures
            final(self)@ == old(self)@.inside_exports(line@),
            final(self).steady((end + 1) as nat, (end + 1) as nat),
            final(self).offset == old(self).offset,
            final(self).cursor == old(self).cursor,
    {
        let ghost at = self@.offset;
        self.accumulate(trimmed(line), Ghost(at), Ghost(at));
        if str_contains(line, "]") {
            self.close_top(end, Ghost(at), Ghost(at));
            proof {
                self@.lemma_wf_weaken(at, (end + 1) as nat, (end + 1) as nat, (end + 1) as nat);
            }
        } else {
            proof {
                self@.lemma_wf_weaken(at, at, (end + 1) as nat, (end + 1) as nat);
            }
        }
    }

    /// Closes what a dedent to `indent` ends, then opens a class or method
    /// there.
    fn enter_scope(&mut self, name: String, kind: ContextType, indent: usize, end: usize)
        requires
            old(self).steady(old(self)@.offset, old(self)@.offset),
            is_scope(kind),
            !is_leaf(old(self)@.top_node().kind),
            old(self)@.offset + indent <= end < usize::MAX,
            INDENT_STEP * old(self)@.open.len() <= usize::MAX,
        ensures
            final(self)@ == old(self)@.dedent(indent as nat).open_child(
                name@,
                kind,
                old(self)@.offset + indent as nat,
                indent as nat,
            ),
            final(self).steady((end + 1) as nat, (end + 1) as nat),
            final(self).offset == old(self).offset,
            final(self).cursor == old(self).cursor,
    {
        let ghost before = self@;
        let ghost at = before.offset;
        let start: usize = self.offset + indent;
        proof {
            before.lemma_dedent_wf(indent as nat, at);
        }
        self.dedent(indent);
        self.open_child(name, kind, start, indent, Ghost(at), Ghost(at + 1));
        proof {
            self@.lemma_wf_weaken((start + 1) as nat, at + 1, (end + 1) as nat, (end + 1) as nat);
        }
    }

    /// Closes what a dedent to `indent` ends, then opens a docstring or an
    /// export list there, with the text that its first line brings.
    fn enter_leaf(
        &mut self,
        name: String,
        kind: ContextType,
        piece: &str,
        closed: bool,
        indent: usize,
        end: usize,
    )
        requires
            old(self).steady(old(self)@.offset, old(self)@.offset),
            is_leaf(kind),
            !is_leaf(old(self)@.top_node().kind),
            old(self)@.offset + indent <= end < usize::MAX,
            INDENT_STEP * old(self)@.open.len() <= usize::MAX,
        ensures
            final(self)@ == ({
                let opened = old(self)@.dedent(indent as nat).open_child(
                    name@,
                    kind,
                    old(self)@.offset + indent as nat,
                    indent as nat,
                ).accumulate_text(piece@);
                if closed {
                    opened.close_top(end as nat)
                } else {
                    opened
                }
            }),
            final(self).steady((end + 1) as nat, (end + 1) as nat),
            final(self).offset == old(self).offset,
            final(self).cursor == old(self).cursor,
    {
        let ghost before = self@;
        let ghost at = before.offset;
        let start: usize = self.offset + indent;
        proof {
            before.lemma_dedent_wf(indent as nat, at);
        }
        self.dedent(indent);
        self.open_child(name, kind, start, indent, Ghost(at), Ghost(at + 1));
        self.accumulate_text(piece, Ghost((start + 1) as nat), Ghost(at + 1));
        if closed {
            self.close_top(end, Ghost((start + 1) as nat), Ghost(at + 1));
            proof {
                self@.lemma_wf_weaken(
                    (start + 1) as nat,
                    (end + 1) as nat,
                    (end + 1) as nat,
                    (end + 1) as nat,
                );
            }
        } else {
            proof {
                self@.lemma_wf_weaken(
                    (start + 1) as nat,
                    at + 1,
                    (end + 1) as nat,
                    (end + 1) as nat,
                );
            }
        }
    }

    /// A blank line while no docstring and no export list is open.
    fn blank_line(&mut self, Ghost(line): Ghost<Seq<char>>, len: usize)
        requires
            old(self).steady(old(self)@.offset, old(self)@.offset),
            !is_leaf(old(self)@.top_node().kind),
            len == line.len(),
            old(self)@.offset + len < usize::MAX,
        ensures
            final(self)@ == (if old(self)@.empty_body_ends(line) {
                old(self)@.close_top(old(self)@.offset)
            } else {
                old(self)@
            }),
            final(self).steady(
                (old(self)@.offset + len + 1) as nat,
                (old(self)@.offset + len + 1) as nat,
            ),
            final(self).offset == old(self).offset,
            final(self).cursor == old(self).cursor,
    {
        let ghost at = self@.offset;
        let ghost next = (at + len + 1) as nat;
        let top = self.top();
        let kind = self.nodes[top.node].kind();
        if (kind == ContextType::CLASS || kind == ContextType::METHOD) && self.cursor > 0
            && top.header_line == self.cursor - 1 && len + 1 >= top.indent {
            proof {
                assert(self@.open[0].node == 0);
                assert(self@.open[self@.open.len() - 1].node == top.node);
            }
            let end = self.offset;
            self.close_top(end, Ghost(at), Ghost(at));
            proof {
                self@.lemma_wf_weaken(at, at + 1, next, next);
            }
        } else {
            proof {
                self@.lemma_wf_weaken(at, at, next, next);
            }
        }
    }

    /// A line while no docstring and no export list is open.
    fn outside(&mut self, line: &str, len: usize)
        requires
            old(self).steady(old(self)@.offset, old(self)@.offset),
            !is_leaf(old(self)@.top_node().kind),
            len == line@.len(),
            old(self)@.offset + len < usize::MAX,
            INDENT_STEP * old(self)@.open.len() <= old(self)@.offset + INDENT_STEP,
        ensures
            final(self)@ == old(self)@.outside(line@),
            final(self).steady(
                (old(self)@.offset + len + 1) as nat,
                (old(self)@.offset + len + 1) as nat,
            ),
            final(self).offset == old(self).offset,
            final(self).cursor == old(self).cursor,
    {
        let ghost before = self@;
        let end: usize = self.offset + len;
        let indent = indentation(line);
        let class = classify(line);
        proof {
            lemma_trim_bounds(line@);
            if !(class@ is Blank) && !(class@ is Other) {
                lemma_opening_line_len(line@);
            }
        }
        match class {
            Line::Blank => {
                self.blank_line(Ghost(line@), len);
            },
            Line::Docstring { piece, closed } => {
                self.enter_leaf(
                    String::new(),
                    ContextType::DOCSTRING,
                    piece.as_str(),
                    closed,
                    indent,
                    end,
                );
            },
            Line::Class { name } => {
                self.enter_scope(name, ContextType::CLASS, indent, end);
            },
            Line::Method { name } => {
                self.enter_scope(name, ContextType::METHOD, indent, end);
            },
            Line::Exports { piece, closed } => {
                self.enter_leaf(
                    String::from_str("__all__"),
                    ContextType::ALL,
                    piece.as_str(),
                    closed,
                    indent,
                    end,
                );
            },
            Line::Other => {
                proof {
                    before.lemma_dedent_wf(indent as nat, before.offset);
                }
                self.dedent(indent);
                proof {
                    self@.lemma_wf_weaken(
                        before.offset,
                        before.offset + 1,
                        (end + 1) as nat,
                        (end + 1) as nat,
                    );
                }
            },
        }
    }

    /// Takes the next line.
    pub fn step(&mut self, line: &str)
        requires
            old(self).ready(),
            old(self)@.offset + line@.len() + 1 <= usize::MAX,
        ensures
            final(self)@ == old(self)@.step(line@),
            final(self).ready(),
    {
        let ghost before = self@;
        proof {
            before.lemma_step_inv(line@);
        }
        let chars = chars_of(line);
        let len: usize = chars.len();
        let end: usize = self.offset + len;
        let top = self.top();
        let kind = self.nodes[top.node].kind();
        proof {
            assert(before.open[0].node == 0);
            assert(before.open[before.open.len() - 1].node == top.node);
        }
        if kind == ContextType::DOCSTRING {
            self.inside_docstring(line, end);
        } else if kind == ContextType::ALL {
            self.inside_exports(line, end);
        } else {
            self.outside(line, len);
        }
        self.offset = end + 1;
        self.cursor = self.cursor + 1;
    }

    /// Closes everything that is still open at `end` and hands the tree
    /// over.
    pub fn finish(self, end: usize) -> (tree: ContextTree)
        requires
            self.ready(),
            self@.offset <= end + 1,
        ensures
            tree@ == self@.close_all(end as nat).nodes,
            tree_ok(tree@),
    {
        let mut scanner = self;
        let ghost goal = scanner@.close_all(end as nat);
        let ghost limit = scanner@.offset;
        proof {
            scanner@.lemma_close_all_wf(end as nat, limit, limit);
            lemma_finished_tree(goal, limit, (end + 1) as nat);
            scanner@.lemma_wf_weaken(limit, limit, limit, (end + 1) as nat);
        }
        while scanner.stack.len() > 1
            invariant
                scanner.steady(limit, (end + 1) as nat),
                limit <= end + 1,
                scanner@.close_all(end as nat) == goal,
                scanner.stack.len() >= 1,
            decreases scanner.stack.len(),
        {
            scanner.close_top(end, Ghost(limit), Ghost((end + 1) as nat));
        }
        ContextTree::from_nodes(scanner.nodes)
    }
}

/// Holds the lines of one file, ready to be scanned.
pub struct ContextProcessor {
    lines: Vec<String>,
}

impl ContextProcessor {
    /// The lines that were loaded.
    pub closed spec fn source(&self) -> Seq<Seq<char>> {
        views(self.lines@)
    }

    /// Takes the lines of a file.
    pub fn load(lines: Vec<String>) -> (processor: Self)
        ensures
            processor.source() == views(lines@),
    {
        ContextProcessor { lines }
    }

    /// Scans the lines and returns the tree of the file. Offsets count
    /// characters, each line being followed by one terminator but the last.
    pub fn parse_module(&self) -> (tree: ContextTree)
        requires
            line_start(self.source(), self.source().len()) <= usize::MAX,
        ensures
            tree@ == parse(self.source()),
            tree_ok(tree@),
    {
        let ghost source = self.source();
        let mut scanner = Scanner::new();
        let mut i: usize = 0;
        while i < self.lines.len()
            invariant
                i <= self.lines.len(),
                source == views(self.lines@),
                scanner.ready(),
                scanner@ == scan(source, i as nat),
                line_start(source, source.len()) <= usize::MAX,
            decreases self.lines.len() - i,
        {
            proof {
                lemma_scan_inv(source, i as nat);
                lemma_line_start_monotonic(source, (i + 1) as nat, source.len());
                assert(source[i as int] == self.lines@[i as int]@);
            }
            scanner.step(self.lines[i].as_str());
            i += 1;
        }
        proof {
            lemma_scan_inv(source, source.len());
        }
        let end: usize = if scanner.offset() == 0 {
            0
        } else {
            scanner.offset() - 1
        };
        scanner.finish(end)
    }
}

/// The tree of the file whose lines are `lines`.
pub fn parse_module(lines: Vec<String>) -> (tree: ContextTree)
    requires
        line_start(views(lines@), lines.len() as nat) <= usize::MAX,
    ensures
        tree@ == parse(views(lines@)),
        tree_ok(tree@),
{
    ContextProcessor::load(lines).parse_module()
}

} // verus!
