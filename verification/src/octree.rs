//! Octree nodes: a box, a leaf flag, an optional brick index and up to eight
//! exclusively owned children.

use vstd::prelude::*;
use crate::bounds::BoundingBox;

verus! {

/// The mathematical value of a subtree: what `OctreeNode` holds, with the child
/// slots as a sequence.
pub struct NodeModel {
    pub children: Seq<Option<NodeModel>>,
    pub brick_index: Option<u32>,
    pub is_leaf: bool,
    pub bounds: BoundingBox,
}

/// Eight absent children.
pub open spec fn no_children() -> Seq<Option<NodeModel>> {
    Seq::new(8, |i: int| None::<NodeModel>)
}

impl NodeModel {
    /// A node over `bounds` without brick or children that is not a leaf.
    pub open spec fn empty(bounds: BoundingBox) -> NodeModel {
        NodeModel { children: no_children(), brick_index: None, is_leaf: false, bounds }
    }

    /// A leaf over `bounds` with the given brick index.
    pub open spec fn leaf(bounds: BoundingBox, brick_index: Option<u32>) -> NodeModel {
        NodeModel { children: no_children(), brick_index, is_leaf: true, bounds }
    }

    /// Whether slot `i` holds a child.
    pub open spec fn has_child(&self, i: int) -> bool {
        0 <= i < self.children.len() && self.children[i] is Some
    }

    /// No brick and no children.
    pub open spec fn is_empty(&self) -> bool {
        &&& self.brick_index is None
        &&& forall|i: int| 0 <= i < self.children.len() ==> !self.has_child(i)
    }

    /// Every node of the subtree has exactly eight child slots.
    pub open spec fn shaped(&self) -> bool
        decreases self,
    {
        &&& self.children.len() == 8
        &&& forall|i: int|
            0 <= i < self.children.len() && (#[trigger] self.children[i]) is Some
                ==> self.children[i]->Some_0.shaped()
    }

    /// The invariant of a tree: eight slots per node, a leaf has no children, a
    /// node that is not a leaf has no brick, and no child is empty.
    pub open spec fn wf(&self) -> bool
        decreases self,
    {
        &&& self.children.len() == 8
        &&& self.is_leaf ==> forall|i: int| 0 <= i < self.children.len() ==> !self.has_child(i)
        &&& !self.is_leaf ==> self.brick_index is None
        &&& forall|i: int|
            0 <= i < self.children.len() && (#[trigger] self.children[i]) is Some ==> {
                &&& self.children[i]->Some_0.wf()
                &&& !self.children[i]->Some_0.is_empty()
            }
    }

    /// The number of nodes in the subtrees of the first `n` child slots.
    pub open spec fn count_children(&self, n: int) -> nat
        decreases self, n,
    {
        if 0 < n <= self.children.len() {
            self.count_children(n - 1) + (if self.children[n - 1] is Some {
                self.children[n - 1]->Some_0.count_nodes()
            } else {
                0
            })
        } else {
            0
        }
    }

    /// The number of nodes in the subtree: one for the node itself and the sum
    /// over the children that are present.
    pub open spec fn count_nodes(&self) -> nat
        decreases self, self.children.len() + 1,
    {
        1 + self.count_children(self.children.len() as int)
    }

    /// Every brick index in the subtree is below `limit`.
    pub open spec fn indices_below(&self, limit: int) -> bool
        decreases self,
    {
        &&& self.brick_index is Some ==> self.brick_index->Some_0 < limit
        &&& forall|i: int|
            0 <= i < self.children.len() && (#[trigger] self.children[i]) is Some
                ==> self.children[i]->Some_0.indices_below(limit)
    }

    /// Every child in the subtree lies over the octant of its parent's box
    /// that its slot names.
    pub open spec fn bounds_consistent(&self) -> bool
        decreases self,
    {
        forall|i: int|
            0 <= i < self.children.len() && (#[trigger] self.children[i]) is Some ==> {
                &&& self.children[i]->Some_0.bounds == self.bounds.spec_child_bounds(i)
                &&& self.children[i]->Some_0.bounds_consistent()
            }
    }

    /// The subtree laid over `bounds`: the same leaves, bricks and children,
    /// with every node's box derived from `bounds` by octant splits.
    pub open spec fn rebound(&self, bounds: BoundingBox) -> NodeModel
        decreases self, self.children.len() + 1,
    {
        NodeModel {
            children: self.rebound_children(bounds, self.children.len() as int),
            brick_index: self.brick_index,
            is_leaf: self.is_leaf,
            bounds,
        }
    }

    /// The first `n` child slots of the subtree laid over `bounds`.
    pub open spec fn rebound_children(&self, bounds: BoundingBox, n: int) -> Seq<Option<NodeModel>>
        decreases self, n,
    {
        if 0 < n <= self.children.len() {
            self.rebound_children(bounds, n - 1).push(
                match self.children[n - 1] {
                    Some(child) => Some(child.rebound(bounds.spec_child_bounds(n - 1))),
                    None => None,
                },
            )
        } else {
            Seq::empty()
        }
    }

    /// A well-formed subtree has eight slots in every node.
    pub proof fn lemma_wf_shaped(&self)
        requires
            self.wf(),
        ensures
            self.shaped(),
        decreases self,
    {
        assert forall|i: int|
            0 <= i < self.children.len() && (#[trigger] self.children[i]) is Some implies self.children[i]->Some_0.shaped() by {
            self.children[i]->Some_0.lemma_wf_shaped();
        }
    }

    /// Brick indices below a limit are below every larger limit.
    pub proof fn lemma_indices_below_larger(&self, limit: int, larger: int)
        requires
            self.indices_below(limit),
            limit <= larger,
        ensures
            self.indices_below(larger),
        decreases self,
    {
        assert forall|i: int|
            0 <= i < self.children.len() && (#[trigger] self.children[i]) is Some implies self.children[i]->Some_0.indices_below(
            larger,
        ) by {
            self.children[i]->Some_0.lemma_indices_below_larger(limit, larger);
        }
    }

    /// The slots of a subtree laid over a box mirror the slots of the subtree.
    pub proof fn lemma_rebound_children(&self, bounds: BoundingBox, n: int)
        requires
            0 <= n <= self.children.len(),
        ensures
            self.rebound_children(bounds, n).len() == n,
            forall|i: int|
                0 <= i < n ==> (#[trigger] self.rebound_children(bounds, n)[i]) == (
                match self.children[i] {
                    Some(child) => Some(child.rebound(bounds.spec_child_bounds(i))),
                    None => None,
                }),
        decreases n,
    {
        if n > 0 {
            self.lemma_rebound_children(bounds, n - 1);
        }
    }

    /// Laying a subtree whose boxes are consistent over its own box changes
    /// nothing.
    pub proof fn lemma_rebound_same(&self)
        requires
            self.bounds_consistent(),
        ensures
            self.rebound(self.bounds) == *self,
        decreases self,
    {
        self.lemma_rebound_children(self.bounds, self.children.len() as int);
        let slots = self.rebound_children(self.bounds, self.children.len() as int);
        assert forall|i: int| 0 <= i < self.children.len() implies slots[i] == self.children[i] by {
            if self.children[i] is Some {
                self.children[i]->Some_0.lemma_rebound_same();
            }
        }
        assert(slots =~= self.children);
    }
}

/// The models of a sequence of child slots.
pub open spec fn slot_models(children: Seq<Option<Box<OctreeNode>>>) -> Seq<Option<NodeModel>> {
    Seq::new(
        children.len(),
        |i: int|
            match children[i] {
                Some(child) => Some(child@),
                None => None,
            },
    )
}

/// One node of the octree. Slot `i` of `children` holds the subtree over octant
/// `i` of `bounds`, or nothing where that octant was pruned; there are always
/// eight slots.
#[derive(Debug)]
pub struct OctreeNode {
    pub children: Vec<Option<Box<OctreeNode>>>,
    pub brick_index: Option<u32>,
    pub is_leaf: bool,
    pub bounds: BoundingBox,
}

impl OctreeNode {
    /// The models of the first `n` child slots.
    pub open spec fn children_model(&self, n: int) -> Seq<Option<NodeModel>>
        decreases self, n,
    {
        if 0 < n <= self.children.len() {
            self.children_model(n - 1).push(
                match self.children[n - 1] {
                    Some(child) => Some(child.model()),
                    None => None,
                },
            )
        } else {
            Seq::empty()
        }
    }

    /// The mathematical value of the subtree.
    pub open spec fn model(&self) -> NodeModel
        decreases self, self.children.len() + 1,
    {
        NodeModel {
            children: self.children_model(self.children.len() as int),
            brick_index: self.brick_index,
            is_leaf: self.is_leaf,
            bounds: self.bounds,
        }
    }

    /// The first `n` slots of the model mirror the first `n` slots of the node.
    pub proof fn lemma_children_model(&self, n: int)
        requires
            0 <= n <= self.children.len(),
        ensures
            self.children_model(n).len() == n,
            forall|i: int|
                0 <= i < n ==> (#[trigger] self.children_model(n)[i]) == (match self.children[i] {
                    Some(child) => Some(child.model()),
                    None => None,
                }),
        decreases n,
    {
        if n > 0 {
            self.lemma_children_model(n - 1);
        }
    }

    /// The model has one slot per slot of the node, and slot `i` of the model is
    /// the model of the child in slot `i`.
    pub proof fn lemma_model_slots(&self)
        ensures
            self@.children == slot_models(self.children@),
            self@.children.len() == self.children.len(),
            self@.brick_index == self.brick_index,
            self@.is_leaf == self.is_leaf,
            self@.bounds == self.bounds,
            forall|i: int|
                0 <= i < self.children.len() ==> (#[trigger] self@.children[i]) == (
                match self.children[i] {
                    Some(child) => Some(child@),
                    None => None,
                }),
    {
        self.lemma_children_model(self.children.len() as int);
        assert(self@.children =~= slot_models(self.children@));
    }

    /// A node over `bounds` without brick or children that is not a leaf.
    pub fn new(bounds: BoundingBox) -> (node: Self)
        ensures
            node@ == NodeModel::empty(bounds),
    {
        let mut children: Vec<Option<Box<OctreeNode>>> = Vec::new();
        let mut i: usize = 0;
        while i < 8
            invariant
                i <= 8,
                children.len() == i,
                forall|j: int| 0 <= j < i ==> children[j] is None,
            decreases 8 - i,
        {
            children.push(None);
            i += 1;
        }
        let node = OctreeNode { children, brick_index: None, is_leaf: false, bounds };
        proof {
            node.lemma_model_slots();
            assert(node@.children =~= no_children());
        }
        node
    }

    /// Whether every node of the subtree has exactly eight child slots.
    pub fn is_shaped(&self) -> (shaped: bool)
        ensures
            shaped == self@.shaped(),
        decreases self,
    {
        proof {
            self.lemma_model_slots();
        }
        if self.children.len() != 8 {
            return false;
        }
        let mut i: usize = 0;
        while i < 8
            invariant
                i <= 8,
                self.children.len() == 8,
                self@.children == slot_models(self.children@),
                forall|j: int|
                    0 <= j < i && (#[trigger] self@.children[j]) is Some
                        ==> self@.children[j]->Some_0.shaped(),
            decreases 8 - i,
        {
            match &self.children[i] {
                Some(child) => {
                    assert(self@.children[i as int] == Some(child@));
                    if !child.is_shaped() {
                        return false;
                    }
                },
                None => {},
            }
            i += 1;
        }
        true
    }

    /// Whether the node has neither a brick nor a child.
    pub fn is_empty(&self) -> (empty: bool)
        ensures
            empty == self@.is_empty(),
    {
        proof {
            self.lemma_model_slots();
        }
        if self.brick_index.is_some() {
            return false;
        }
        let mut i: usize = 0;
        while i < self.children.len()
            invariant
                i <= self.children.len(),
                self@.children.len() == self.children.len(),
                forall|j: int| 0 <= j < i ==> !self@.has_child(j),
                forall|j: int|
                    0 <= j < self.children.len() ==> ((#[trigger] self@.children[j]) is Some
                        <==> self.children[j] is Some),
            decreases self.children.len() - i,
        {
            if self.children[i].is_some() {
                assert(self@.has_child(i as int));
                return false;
            }
            i += 1;
        }
        true
    }
}

impl Clone for OctreeNode {
    fn clone(&self) -> (copy: Self)
        ensures
            copy@ == self@,
        decreases self,
    {
        let mut children: Vec<Option<Box<OctreeNode>>> = Vec::new();
        let mut i: usize = 0;
        assert(slot_models(children@) =~= slot_models(self.children@).take(0));
        while i < self.children.len()
            invariant
                i <= self.children.len(),
                slot_models(children@) == slot_models(self.children@).take(i as int),
            decreases self.children.len() - i,
        {
            let ghost before = slot_models(children@);
            let ghost slot = slot_models(self.children@)[i as int];
            match &self.children[i] {
                Some(child) => {
                    let copy = OctreeNode::clone(&**child);
                    children.push(Some(Box::new(copy)));
                },
                None => {
                    children.push(None);
                },
            }
            assert(slot_models(children@) =~= before.push(slot));
            i += 1;
            assert(slot_models(self.children@).take(i as int) =~= before.push(slot));
        }
        let copy = OctreeNode {
            children,
            brick_index: self.brick_index,
            is_leaf: self.is_leaf,
            bounds: self.bounds,
        };
        proof {
            self.lemma_model_slots();
            copy.lemma_model_slots();
            assert(slot_models(self.children@).take(self.children.len() as int) =~= slot_models(
                self.children@,
            ));
        }
        copy
    }
}

impl View for OctreeNode {
    type V = NodeModel;

    open spec fn view(&self) -> NodeModel {
        self.model()
    }
}

} // verus!
