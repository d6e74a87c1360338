//! The finished tree of a file.

use vstd::prelude::*;
use super::node::{ContextNode, NodeModel};
use super::scan::is_public_name;
use super::types::{ContextType, NodeId};

verus! {

/// The models of a vector of nodes, handle by handle.
pub open spec fn node_models(nodes: Seq<ContextNode>) -> Seq<NodeModel> {
    Seq::new(nodes.len(), |i: int| nodes[i]@)
}

/// Node `i`, which is not the root, is sound: it is no root, its
/// visibility follows from its name, it is closed with an ordered span, its
/// parent was made before it and lists it, and its span lies inside its
/// parent's.
pub open spec fn member_ok(nodes: Seq<NodeModel>, i: int) -> bool {
    let n = nodes[i];
    &&& n.kind != ContextType::ROOT
    &&& n.is_public == is_public_name(n.name)
    &&& n.end is Some
    &&& n.start <= n.end->0
    &&& n.parent is Some
    &&& n.parent->0 < i
    &&& nodes[n.parent->0 as int].children.contains(i as nat)
    &&& (n.parent->0 > 0 ==> nodes[n.parent->0 as int].start < n.start && n.end->0
        <= nodes[n.parent->0 as int].end->0)
}

/// The children of node `i` are nodes made after it that name it as their
/// parent, and they stand in the order of the source, none overlapping the
/// next: each ends where the next starts or before.
pub open spec fn children_ordered(nodes: Seq<NodeModel>, i: int) -> bool {
    let c = nodes[i].children;
    &&& forall|j: int|
        0 <= j < c.len() ==> i < #[trigger] c[j] < nodes.len() && nodes[c[j] as int].parent == Some(
            i as nat,
        )
    &&& forall|j: int, k: int|
        0 <= j < k < c.len() ==> c[j] < c[k] && nodes[c[j] as int].start <= nodes[c[k] as int].start
            && nodes[c[j] as int].end is Some && nodes[c[j] as int].end->0
            <= nodes[c[k] as int].start
}

/// A finished tree: node 0 is the root, without span and without parent;
/// every other node is sound, and all children are in order.
pub open spec fn tree_ok(nodes: Seq<NodeModel>) -> bool {
    &&& nodes.len() >= 1
    &&& nodes[0].kind == ContextType::ROOT
    &&& nodes[0].name == NodeModel::root().name
    &&& nodes[0].location() is None
    &&& nodes[0].parent is None
    &&& forall|i: int| 1 <= i < nodes.len() ==> #[trigger] member_ok(nodes, i)
    &&& forall|i: int| 0 <= i < nodes.len() ==> #[trigger] children_ordered(nodes, i)
}

/// The context tree of one file. Nodes are held in the order in which the
/// scanner made them; a handle is a position in that order, and handle 0 is
/// the root.
#[derive(Debug, PartialEq, Eq)]
pub struct ContextTree {
    nodes: Vec<ContextNode>,
}

impl View for ContextTree {
    type V = Seq<NodeModel>;

    closed spec fn view(&self) -> Seq<NodeModel> {
        node_models(self.nodes@)
    }
}

impl ContextTree {
    #[verifier::type_invariant]
    spec fn sound(&self) -> bool {
        tree_ok(node_models(self.nodes@))
    }

    /// A tree of the given nodes.
    pub fn from_nodes(nodes: Vec<ContextNode>) -> (tree: Self)
        requires
            tree_ok(node_models(nodes@)),
        ensures
            tree@ == node_models(nodes@),
    {
        ContextTree { nodes }
    }

    /// Number of nodes, the root included.
    pub fn len(&self) -> (n: usize)
        ensures
            n == self@.len(),
            n >= 1,
            tree_ok(self@),
    {
        proof {
            use_type_invariant(self);
        }
        self.nodes.len()
    }

    /// The root of the file.
    pub fn root(&self) -> (node: &ContextNode)
        ensures
            node@ == self@[0],
            node@.kind == ContextType::ROOT,
            node@.location() is None,
            node@.parent is None,
            tree_ok(self@),
    {
        proof {
            use_type_invariant(self);
        }
        &self.nodes[0]
    }

    /// The node behind a handle, if the tree has one.
    pub fn node(&self, id: NodeId) -> (node: Option<&ContextNode>)
        ensures
            match node {
                Some(n) => id < self@.len() && n@ == self@[id as int],
                None => id >= self@.len(),
            },
            tree_ok(self@),
    {
        proof {
            use_type_invariant(self);
        }
        if id < self.nodes.len() {
            Some(&self.nodes[id])
        } else {
            None
        }
    }

    /// The `index`-th child of node `parent`, if there is one.
    pub fn child(&self, parent: NodeId, index: usize) -> (node: Option<&ContextNode>)
        ensures
            match node {
                Some(n) => parent < self@.len() && index < self@[parent as int].children.len()
                    && n@ == self@[self@[parent as int].children[index as int] as int],
                None => parent >= self@.len() || index >= self@[parent as int].children.len(),
            },
    {
        proof {
            use_type_invariant(self);
        }
        if parent >= self.nodes.len() {
            return None;
        }
        let children = self.nodes[parent].children();
        if index >= children.len() {
            return None;
        }
        let id: NodeId = children[index];
        assert(children_ordered(self@, parent as int));
        assert(self@[parent as int].children[index as int] == id);
        Some(&self.nodes[id])
    }
}

} // verus!
