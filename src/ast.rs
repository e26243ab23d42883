//! A slot arena for intermediate-representation nodes.
//!
//! Handles are indices into a growable sequence of optional nodes. Removing a
//! node empties its slot and pushes the index onto a free list, which `add_node`
//! consults before growing the sequence. No operation moves a live node.
use vstd::prelude::*;

use crate::error::VmError;

verus! {

/// The kinds of node.
#[derive(Clone, Copy, PartialEq, Eq, Debug, Structural)]
pub enum NodeType {
    Module,
}

/// The value of a node: its kind and its ordered children, if it has any.
pub ghost struct NodeView {
    pub n_type: NodeType,
    pub children: Option<Seq<usize>>,
}

/// An IR node.
#[derive(Debug, Clone)]
pub struct Node {
    n_type: NodeType,
    children: Option<Vec<usize>>,
}

impl View for Node {
    type V = NodeView;

    closed spec fn view(&self) -> NodeView {
        NodeView {
            n_type: self.n_type,
            children: match self.children {
                Some(c) => Some(c@),
                None => None,
            },
        }
    }
}

impl Node {
    /// A node of the given kind, without children.
    pub fn new(n_type: NodeType) -> (r: Node)
        ensures
            r@ == (NodeView { n_type, children: None }),
    {
        Node { n_type, children: None }
    }

    /// The kind of this node.
    pub fn node_type(&self) -> (r: NodeType)
        ensures
            r == self@.n_type,
    {
        self.n_type
    }

    /// A copy of this node.
    pub fn duplicate(&self) -> (r: Node)
        ensures
            r@ == self@,
    {
        let children = match &self.children {
            Some(c) => Some(c.clone()),
            None => None,
        };
        Node { n_type: self.n_type, children }
    }
}

/// The state of an arena: its slots and its stack of freed indices.
pub ghost struct AstView {
    pub slots: Seq<Option<NodeView>>,
    pub free: Seq<usize>,
}

impl AstView {
    /// An index is on the free list exactly when its slot is empty, and the
    /// free list holds each such index once.
    pub open spec fn wf(self) -> bool {
        &&& forall|k: int| 0 <= k < self.free.len() ==> #[trigger] self.free[k] < self.slots.len()
        &&& forall|k: int|
            0 <= k < self.free.len() ==> self.slots[#[trigger] self.free[k] as int] is None
        &&& forall|i: int|
            0 <= i < self.slots.len() && self.slots[i] is None ==> self.free.contains(i as usize)
        &&& self.free.no_duplicates()
    }

    /// The node at handle `h`, if `h` is in range and its slot is occupied.
    pub open spec fn get(self, h: int) -> Option<NodeView> {
        if 0 <= h < self.slots.len() {
            self.slots[h]
        } else {
            None
        }
    }

    /// The handle that the next `add_node` hands out: the most recently
    /// freed index, or a fresh one at the end.
    pub open spec fn next_handle(self) -> int {
        if self.free.len() > 0 {
            self.free.last() as int
        } else {
            self.slots.len() as int
        }
    }

    /// The arena after adding `n`.
    pub open spec fn added(self, n: NodeView) -> AstView {
        if self.free.len() > 0 {
            AstView {
                slots: self.slots.update(self.free.last() as int, Some(n)),
                free: self.free.drop_last(),
            }
        } else {
            AstView { slots: self.slots.push(Some(n)), free: self.free }
        }
    }

    /// The arena after emptying slot `h`.
    pub open spec fn removed(self, h: int) -> AstView {
        AstView { slots: self.slots.update(h, None), free: self.free.push(h as usize) }
    }
}

/// An arena of nodes; the root node is the first, at handle 0.
pub struct Ast {
    nodes: Vec<Option<Node>>,
    freed_indexes: Vec<usize>,
}

impl View for Ast {
    type V = AstView;

    closed spec fn view(&self) -> AstView {
        AstView {
            slots: Seq::new(
                self.nodes@.len(),
                |i: int|
                    match self.nodes@[i] {
                        Some(n) => Some(n@),
                        None => None,
                    },
            ),
            free: self.freed_indexes@,
        }
    }
}

impl Ast {
    /// An arena that holds only the root node.
    pub fn new(root_node: Node) -> (r: Ast)
        ensures
            r@.wf(),
            r@.slots == seq![Some(root_node@)],
            r@.free == Seq::<usize>::empty(),
    {
        let r = Ast { nodes: vec![Some(root_node)], freed_indexes: Vec::new() };
        assert(r@.slots =~= seq![Some(root_node@)]);
        r
    }

    /// Adds a node and returns its handle, reusing the most recently freed
    /// handle when there is one.
    pub fn add_node(&mut self, node: Node) -> (r: usize)
        requires
            old(self)@.wf(),
            old(self)@.slots.len() < usize::MAX,
        ensures
            final(self)@.wf(),
            r == old(self)@.next_handle(),
            final(self)@ == old(self)@.added(node@),
    {
        let ghost n = node@;
        let ghost v = self@;
        if let Some(index) = self.freed_indexes.pop() {
            self.nodes.set(index, Some(node));
            proof {
                assert(self@.slots =~= v.slots.update(index as int, Some(n)));
                assert(self@.free =~= v.free.drop_last());
                assert(v.free.drop_last().no_duplicates());
                assert forall|i: int|
                    0 <= i < self@.slots.len() && self@.slots[i] is None implies self@.free.contains(
                    i as usize) by {
                    assert(i != index);
                    assert(v.free.contains(i as usize));
                    let k = choose|k: int| 0 <= k < v.free.len() && v.free[k] == i as usize;
                    assert(k != v.free.len() - 1);
                    assert(self@.free[k] == i as usize);
                }
                assert forall|k: int| 0 <= k < self@.free.len() implies self@.slots[
                #[trigger] self@.free[k] as int] is None by {
                    assert(self@.free[k] == v.free[k]);
                    assert(v.free[k] != v.free[v.free.len() - 1]);
                }
            }
            index
        } else {
            self.nodes.push(Some(node));
            proof {
                assert(self@.slots =~= v.slots.push(Some(n)));
            }
            self.nodes.len() - 1
        }
    }

    /// Empties the slot of `index`. Fails with `NotFound` when `index` is out
    /// of range or its slot is already empty.
    pub fn remove_node(&mut self, index: usize) -> (r: Result<(), VmError>)
        requires
            old(self)@.wf(),
        ensures
            final(self)@.wf(),
            old(self)@.get(index as int) is Some ==> r is Ok && final(self)@ == old(self)@.removed(
                index as int,
            ),
            old(self)@.get(index as int) is None ==> r == Err::<(), VmError>(VmError::NotFound)
                && final(self)@ == old(self)@,
    {
        if index >= self.nodes.len() || self.nodes[index].is_none() {
            return Err(VmError::NotFound);
        }
        let ghost v = self@;
        self.nodes.set(index, None);
        self.freed_indexes.push(index);
        proof {
            assert(self@.slots =~= v.slots.update(index as int, None));
            assert(!v.free.contains(index));
            assert forall|i: int|
                0 <= i < self@.slots.len() && self@.slots[i] is None implies self@.free.contains(
                i as usize) by {
                if i == index {
                    assert(self@.free[self@.free.len() - 1] == index);
                } else {
                    let k = choose|k: int| 0 <= k < v.free.len() && v.free[k] == i as usize;
                    assert(self@.free[k] == i as usize);
                }
            }
            assert(self@.free.no_duplicates()) by {
                assert forall|a: int, b: int|
                    0 <= a < self@.free.len() && 0 <= b < self@.free.len() && a != b implies self@.free[a]
                    != self@.free[b] by {
                    if a == v.free.len() as int {
                        assert(self@.free[b] == v.free[b]);
                        assert(v.free.contains(v.free[b]));
                    } else if b == v.free.len() as int {
                        assert(self@.free[a] == v.free[a]);
                        assert(v.free.contains(v.free[a]));
                    }
                }
            }
        }
        Ok(())
    }

    /// A copy of the node at `index`. Fails with `NotFound` when `index` is
    /// out of range or its slot is empty.
    pub fn get_node(&self, index: usize) -> (r: Result<Node, VmError>)
        ensures
            match self@.get(index as int) {
                Some(n) => r is Ok && r->Ok_0@ == n,
                None => r == Err::<Node, VmError>(VmError::NotFound),
            },
    {
        if index >= self.nodes.len() {
            return Err(VmError::NotFound);
        }
        match &self.nodes[index] {
            Some(n) => Ok(n.duplicate()),
            None => Err(VmError::NotFound),
        }
    }
}

/// Handles behave as the arena promises: a node just added is found under
/// its handle; once removed it is not found; the next add reuses that handle
/// and the handle then finds the new node, never the old one.
pub proof fn lemma_arena_handles(v: AstView, n: NodeView, m: NodeView)
    requires
        v.wf(),
        v.slots.len() < usize::MAX,
    ensures
        ({
            let h = v.next_handle();
            let v1 = v.added(n);
            let v2 = v1.removed(h);
            let v3 = v2.added(m);
            &&& v1.get(h) == Some(n)
            &&& v2.get(h) is None
            &&& v2.next_handle() == h
            &&& v3.get(h) == Some(m)
        }),
{
    let h = v.next_handle();
    if v.free.len() > 0 {
        assert(v.free[v.free.len() - 1] < v.slots.len());
    }
    let v1 = v.added(n);
    let v2 = v1.removed(h);
    assert(v1.slots.len() == v2.slots.len());
    assert(0 <= h < v1.slots.len());
    assert(v2.free.last() == h as usize);
}

} // verus!
