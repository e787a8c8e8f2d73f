//! The tree-shaped stack: a node-labelled tree with one distinguished
//! "current" node. Nodes live in an arena and refer to their parents by
//! index; navigation ascends and descends without raw pointers, and each
//! search item owns its own tree value (purely functional mutation).

use vstd::prelude::*;

verus! {

/// One node of the tree: its parent's index and its label. The root is the
/// node at index `0` and is its own parent.
#[derive(Debug)]
pub struct TsNode<L> {
    pub parent: usize,
    pub label: L,
}

/// A tree stack: an arena of nodes and the index of the current node.
#[derive(Debug)]
pub struct TreeStack<L> {
    pub nodes: Vec<TsNode<L>>,
    pub pointer: usize,
}

/// Structural well-formedness: the arena is non-empty, the current node and
/// every parent reference are in bounds, the root is its own parent, and
/// every other node's parent was allocated before it — so walking parents
/// always descends and terminates.
pub open spec fn ts_wf<L>(t: TreeStack<L>) -> bool {
    &&& t.nodes@.len() >= 1
    &&& (t.pointer as int) < t.nodes@.len()
    &&& t.nodes@[0].parent == 0
    &&& forall|i: int|
        0 <= i < t.nodes@.len() ==> ((#[trigger] t.nodes@[i]).parent as int) < t.nodes@.len()
    &&& forall|i: int|
        1 <= i < t.nodes@.len() ==> ((#[trigger] t.nodes@[i]).parent as int) < i
}

impl<L> TreeStack<L> {
    /// A tree with a single root node labelled `label`, which is current.
    pub fn new(label: L) -> (r: TreeStack<L>)
        ensures
            r.nodes@.len() == 1,
            r.nodes@[0].parent == 0,
            r.nodes@[0].label == label,
            r.pointer == 0,
            ts_wf(r),
    {
        let mut nodes: Vec<TsNode<L>> = Vec::new();
        nodes.push(TsNode { parent: 0, label });
        TreeStack { nodes, pointer: 0 }
    }

    /// Whether the current node is the root.
    pub fn is_at_bottom(&self) -> (r: bool)
        ensures
            r == (self.pointer == 0),
    {
        self.pointer == 0
    }

    /// The label of the current node.
    pub fn current_label(&self) -> (r: &L)
        requires
            ts_wf(*self),
        ensures
            *r == self.nodes@[self.pointer as int].label,
    {
        &self.nodes[self.pointer].label
    }
}

} // verus!
