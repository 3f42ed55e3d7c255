//! The octree as a flat array of fixed-size records, depth first, as a
//! renderer reads it.

use vstd::prelude::*;
use crate::codec::child_mask;
use crate::octree::{NodeModel, OctreeNode, slot_models};

verus! {

/// The brick index of a record whose node has no brick.
pub const NO_BRICK: u32 = 0xFFFF_FFFF;

/// One record of the flat array.
#[derive(Clone, Copy, Debug, PartialEq, Eq)]
pub struct OctreeNodeGpu {
    pub bounds_min: [u32; 3],
    pub bounds_max: [u32; 3],
    pub brick_index: u32,
    pub child_mask: u32,
    pub children_offset: u32,
    pub is_leaf: u32,
    pub _padding: [u32; 2],
}

/// The record of `node` when it stands at `index` in the array: its bounds,
/// its brick index or `NO_BRICK`, its child mask, the index of the record
/// behind it unless it is a leaf, and its leaf flag.
pub open spec fn record_of(node: NodeModel, index: int) -> OctreeNodeGpu {
    OctreeNodeGpu {
        bounds_min: [node.bounds.min.0, node.bounds.min.1, node.bounds.min.2],
        bounds_max: [node.bounds.max.0, node.bounds.max.1, node.bounds.max.2],
        brick_index: match node.brick_index {
            Some(i) => i,
            None => NO_BRICK,
        },
        child_mask: child_mask(node.children) as u32,
        children_offset: if node.is_leaf {
            0
        } else {
            (index + 1) as u32
        },
        is_leaf: if node.is_leaf {
            1
        } else {
            0
        },
        _padding: [0, 0],
    }
}

/// The records of the subtree of `node` when its own record stands at
/// `index`: the node first, then, unless it is a leaf, the subtrees of its
/// children in slot order.
pub open spec fn flattened(node: NodeModel, index: int) -> Seq<OctreeNodeGpu>
    decreases node, 9int,
{
    if node.is_leaf {
        seq![record_of(node, index)]
    } else {
        seq![record_of(node, index)] + flattened_children(node, index + 1, 8)
    }
}

/// The records of the subtrees in the first `n` slots of `node` when the
/// first of them stands at `index`.
pub open spec fn flattened_children(node: NodeModel, index: int, n: int) -> Seq<OctreeNodeGpu>
    decreases node, n,
{
    if 0 < n <= 8 && n <= node.children.len() {
        let before = flattened_children(node, index, n - 1);
        before + (if node.children[n - 1] is Some {
            flattened(node.children[n - 1]->Some_0, index + before.len())
        } else {
            Seq::empty()
        })
    } else {
        Seq::empty()
    }
}

/// Appends the records of the subtree of `node` to `nodes`. `node_index` is
/// the index that the next record gets; it moves past the records written.
pub fn flatten_octree_recursive(node: &OctreeNode, nodes: &mut Vec<OctreeNodeGpu>, node_index: &mut u32)
    requires
        node@.shaped(),
        *old(node_index) + flattened(node@, *old(node_index) as int).len() <= u32::MAX,
    ensures
        final(nodes)@ == old(nodes)@ + flattened(node@, *old(node_index) as int),
        *final(node_index) == *old(node_index) + flattened(node@, *old(node_index) as int).len(),
    decreases node,
{
    proof {
        node.lemma_model_slots();
    }
    let current_index = *node_index;
    *node_index += 1;
    let mut mask_sum: u32 = 0;
    let mut weight: u32 = 1;
    let mut i: usize = 0;
    while i < 8
        invariant
            i <= 8,
            node.children.len() == 8,
            node@.children == slot_models(node.children@),
            weight == (if i < 8 {
                crate::codec::bit_weight(i as int)
            } else {
                256
            }),
            mask_sum == crate::codec::child_mask_upto(node@.children, i as int),
        decreases 8 - i,
    {
        if node.children[i].is_some() {
            mask_sum = mask_sum + weight;
        }
        weight = weight * 2;
        i += 1;
    }
    let children_offset = if node.is_leaf {
        0
    } else {
        *node_index
    };
    nodes.push(
        OctreeNodeGpu {
            bounds_min: [node.bounds.min.0, node.bounds.min.1, node.bounds.min.2],
            bounds_max: [node.bounds.max.0, node.bounds.max.1, node.bounds.max.2],
            brick_index: match node.brick_index {
                Some(index) => index,
                None => NO_BRICK,
            },
            child_mask: mask_sum,
            children_offset,
            is_leaf: if node.is_leaf {
                1
            } else {
                0
            },
            _padding: [0, 0],
        },
    );
    let ghost head = nodes@;
    assert(head =~= old(nodes)@ + seq![record_of(node@, current_index as int)]);
    if !node.is_leaf {
        let ghost first = current_index as int + 1;
        assert(nodes@ =~= head + flattened_children(node@, first, 0));
        let mut k: usize = 0;
        while k < 8
            invariant
                k <= 8,
                node.children.len() == 8,
                node@.shaped(),
                !node@.is_leaf,
                node@.children == slot_models(node.children@),
                first == current_index + 1,
                first + flattened_children(node@, first, 8).len() <= u32::MAX,
                nodes@ == head + flattened_children(node@, first, k as int),
                *node_index == first + flattened_children(node@, first, k as int).len(),
            decreases 8 - k,
        {
            proof {
                lemma_flattened_children_grow(node@, first, k as int + 1, 8);
            }
            match &node.children[k] {
                Some(child_node) => {
                    assert(node@.children[k as int] == Some(child_node@));
                    flatten_octree_recursive(child_node, nodes, node_index);
                },
                None => {
                    assert(node@.children[k as int] is None);
                },
            }
            k += 1;
            assert(nodes@ =~= head + flattened_children(node@, first, k as int));
        }
        assert(nodes@ =~= old(nodes)@ + flattened(node@, current_index as int));
    }
}

/// The records of more slots are at least as many as those of fewer.
pub proof fn lemma_flattened_children_grow(node: NodeModel, index: int, n: int, m: int)
    requires
        0 <= n <= m <= 8,
        m <= node.children.len(),
    ensures
        flattened_children(node, index, n).len() <= flattened_children(node, index, m).len(),
    decreases m - n,
{
    if n < m {
        lemma_flattened_children_grow(node, index, n, m - 1);
    }
}

/// A well-formed subtree has one record per node.
pub proof fn lemma_flattened_len(node: NodeModel, index: int)
    requires
        node.wf(),
    ensures
        flattened(node, index).len() == node.count_nodes(),
    decreases node, 9int,
{
    lemma_flattened_children_len(node, index + 1, 8);
    if node.is_leaf {
        assert forall|i: int| 0 <= i < 8 implies (#[trigger] node.children[i]) is None by {
            assert(!node.has_child(i));
        }
        lemma_leaf_counts_one(node, 8);
    }
}

/// The children of a well-formed subtree have one record per node.
pub proof fn lemma_flattened_children_len(node: NodeModel, index: int, n: int)
    requires
        node.wf(),
        0 <= n <= 8,
    ensures
        flattened_children(node, index, n).len() == node.count_children(n),
    decreases node, n,
{
    if n > 0 {
        lemma_flattened_children_len(node, index, n - 1);
        if node.children[n - 1] is Some {
            lemma_flattened_len(
                node.children[n - 1]->Some_0,
                index + flattened_children(node, index, n - 1).len(),
            );
        }
    }
}

/// A node without children counts no nodes below it.
pub proof fn lemma_leaf_counts_one(node: NodeModel, n: int)
    requires
        node.children.len() == 8,
        0 <= n <= 8,
        forall|i: int| 0 <= i < 8 ==> (#[trigger] node.children[i]) is None,
    ensures
        node.count_children(n) == 0,
    decreases n,
{
    if n > 0 {
        lemma_leaf_counts_one(node, n - 1);
    }
}

/// The octree as a flat array of records, the root at index 0.
pub fn flatten_octree(node: &OctreeNode) -> (nodes: Vec<OctreeNodeGpu>)
    requires
        node@.shaped(),
        flattened(node@, 0).len() <= u32::MAX,
    ensures
        nodes@ == flattened(node@, 0),
{
    let mut nodes: Vec<OctreeNodeGpu> = Vec::new();
    let mut node_index: u32 = 0;
    flatten_octree_recursive(node, &mut nodes, &mut node_index);
    assert(nodes@ =~= flattened(node@, 0));
    nodes
}

} // verus!
