//! The nodes of a context tree.

use vstd::prelude::*;
use super::types::{CodeLocation, ContextType, NodeId};

verus! {

/// What a node holds, as mathematical values.
pub struct NodeModel {
    pub name: Seq<char>,
    pub kind: ContextType,
    pub start: nat,
    pub end: Option<nat>,
    pub is_public: bool,
    pub value: Option<Seq<char>>,
    pub children: Seq<nat>,
    pub parent: Option<nat>,
}

impl NodeModel {
    /// A fresh open node.
    pub open spec fn fresh(name: Seq<char>, kind: ContextType, start: nat, is_public: bool) -> Self {
        NodeModel {
            name,
            kind,
            start,
            end: None,
            is_public,
            value: None,
            children: Seq::empty(),
            parent: None,
        }
    }

    /// The root of a file.
    pub open spec fn root() -> Self {
        Self::fresh("__root__"@, ContextType::ROOT, 0, false)
    }

    /// The span once closed.
    pub open spec fn location(self) -> Option<(nat, nat)> {
        match self.end {
            Some(end) => Some((self.start, end)),
            None => None,
        }
    }

    /// Closing is final: only an open node takes the new end.
    pub open spec fn closed_at(self, end: nat) -> Self {
        if self.end is None {
            NodeModel { end: Some(end), ..self }
        } else {
            self
        }
    }

    /// The accumulated text with `text` behind it.
    pub open spec fn appended(self, text: Seq<char>) -> Self {
        NodeModel {
            value: Some(
                match self.value {
                    Some(v) => v + text,
                    None => text,
                },
            ),
            ..self
        }
    }

    /// The node with `child` behind its children.
    pub open spec fn with_child(self, child: nat) -> Self {
        NodeModel { children: self.children.push(child), ..self }
    }

    /// The node with `parent` as its parent.
    pub open spec fn with_parent(self, parent: nat) -> Self {
        NodeModel { parent: Some(parent), ..self }
    }

    /// A closed span never ends before it starts.
    pub open spec fn span_ordered(self) -> bool {
        self.end matches Some(end) ==> self.start <= end
    }
}

/// One lexical scope of a source file: a class, a method, a docstring, an
/// export list, or the file itself.
#[derive(Debug, Clone, PartialEq, Eq)]
pub struct ContextNode {
    pub name: String,
    pub context_type: ContextType,
    start: usize,
    end: Option<usize>,
    pub is_public: bool,
    pub value: Option<String>,
    pub children: Vec<NodeId>,
    pub parent: Option<NodeId>,
}

impl View for ContextNode {
    type V = NodeModel;

    closed spec fn view(&self) -> NodeModel {
        NodeModel {
            name: self.name@,
            kind: self.context_type,
            start: self.start as nat,
            end: match self.end {
                Some(end) => Some(end as nat),
                None => None,
            },
            is_public: self.is_public,
            value: match self.value {
                Some(v) => Some(v@),
                None => None,
            },
            children: Seq::new(self.children@.len(), |i: int| self.children@[i] as nat),
            parent: match self.parent {
                Some(p) => Some(p as nat),
                None => None,
            },
        }
    }
}

impl ContextNode {
    /// The name: of the class or method, or the synthetic one of the other kinds.
    pub fn name(&self) -> (name: &String)
        ensures
            name@ == self@.name,
    {
        &self.name
    }

    /// The kind of context.
    pub fn kind(&self) -> (kind: ContextType)
        ensures
            kind == self@.kind,
    {
        self.context_type
    }

    /// Whether the context is public.
    pub fn is_public(&self) -> (public: bool)
        ensures
            public == self@.is_public,
    {
        self.is_public
    }

    /// The text gathered by a docstring or an export list.
    pub fn value(&self) -> (value: &Option<String>)
        ensures
            match value {
                Some(v) => self@.value == Some(v@),
                None => self@.value is None,
            },
    {
        &self.value
    }

    /// Handles of the children, in the order of the source.
    pub fn children(&self) -> (children: &Vec<NodeId>)
        ensures
            children@.len() == self@.children.len(),
            forall|i: int| 0 <= i < children@.len() ==> children@[i] == self@.children[i],
    {
        &self.children
    }

    /// Handle of the enclosing node.
    pub fn parent(&self) -> (parent: Option<NodeId>)
        ensures
            match parent {
                Some(p) => self@.parent == Some(p as nat),
                None => self@.parent is None,
            },
    {
        self.parent
    }

    /// Attaches `child_node` behind the children already there.
    pub fn add_node(&mut self, child_node: NodeId)
        ensures
            final(self)@ == old(self)@.with_child(child_node as nat),
    {
        self.children.push(child_node);
        assert(self@.children =~= old(self)@.children.push(child_node as nat));
    }

    /// Sets the accumulated text when there is none yet, and lengthens it
    /// otherwise.
    pub fn append_value(&mut self, new_value: &String)
        ensures
            final(self)@ == old(self)@.appended(new_value@),
    {
        let longer = match &self.value {
            Some(v) => {
                let mut text = v.clone();
                text.append(new_value.as_str());
                text
            },
            None => new_value.clone(),
        };
        self.value = Some(longer);
    }

    /// The span once the node is closed, `None` while it is open.
    pub fn location(&self) -> (span: Option<CodeLocation>)
        ensures
            match span {
                Some((start, end)) => self@.location() == Some((start as nat, end as nat)),
                None => self@.location() is None,
            },
    {
        match self.end {
            Some(end) => Some((self.start, end)),
            None => None,
        }
    }

    /// Offset of the node's first character.
    pub fn start(&self) -> (start: usize)
        ensures
            start == self@.start,
    {
        self.start
    }

    /// An open node: no end, no value, no children, no parent.
    pub fn new(name: String, context_type: ContextType, start: usize, is_public: bool) -> (node:
        Self)
        ensures
            node@ == NodeModel::fresh(name@, context_type, start as nat, is_public),
    {
        let node = ContextNode {
            name,
            context_type,
            start,
            end: None,
            is_public,
            value: None,
            children: Vec::new(),
            parent: None,
        };
        assert(node@.children =~= Seq::empty());
        node
    }

    /// The root of a file: named `__root__`, of kind `ROOT`, without span.
    pub fn root() -> (node: Self)
        ensures
            node@ == NodeModel::root(),
    {
        Self::new(String::from_str("__root__"), ContextType::ROOT, 0, false)
    }

    /// Closes the span at `end`. A node that is closed already stays as it is.
    pub fn set_location(&mut self, end: usize)
        requires
            old(self)@.end is None ==> old(self)@.start <= end,
        ensures
            final(self)@ == old(self)@.closed_at(end as nat),
            old(self)@.span_ordered() ==> final(self)@.span_ordered(),
    {
        if self.end.is_none() {
            self.end = Some(end);
        }
    }

    /// Records the enclosing node.
    pub fn set_parent(&mut self, parent_node: NodeId)
        ensures
            final(self)@ == old(self)@.with_parent(parent_node as nat),
    {
        self.parent = Some(parent_node);
    }
}

} // verus!
