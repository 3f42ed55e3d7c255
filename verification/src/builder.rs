//! The recursive subdivision that turns a dense volume into an octree and its
//! bricks.
//!
//! A box becomes a leaf once the depth limit is reached or the box fits in one
//! brick; a leaf keeps its brick only if the brick is worth keeping. Any other
//! box is probed with one cube of its shortest side length: a probe that is not
//! worth keeping prunes the box, otherwise the box is split into its octants.

use vstd::prelude::*;
use crate::bounds::{BoundingBox, lemma_child_within_parent};
use crate::brick::{Brick, BrickModel, extracted, retained};
use crate::octree::{NodeModel, OctreeNode, no_children, slot_models};
use crate::sdf::Sdf;
use crate::svosdf::SvoSdf;

verus! {

/// The smallest of three numbers.
pub open spec fn min3(s: (int, int, int)) -> int {
    if s.0 <= s.1 && s.0 <= s.2 {
        s.0
    } else if s.1 <= s.2 {
        s.1
    } else {
        s.2
    }
}

/// The largest of three numbers.
pub open spec fn max3(s: (int, int, int)) -> int {
    if s.0 >= s.1 && s.0 >= s.2 {
        s.0
    } else if s.1 >= s.2 {
        s.1
    } else {
        s.2
    }
}

/// Whether a box of extent `size` fits in one brick of edge length `brick_size`.
pub open spec fn fits_in_brick(size: (int, int, int), brick_size: u32) -> bool {
    size.0 <= brick_size && size.1 <= brick_size && size.2 <= brick_size
}

/// Whether the box becomes a leaf: the depth limit is reached or the box fits
/// in one brick.
pub open spec fn is_leaf_case(bounds: BoundingBox, depth: int, max_depth: u32, brick_size: u32) -> bool {
    depth >= max_depth || fits_in_brick(bounds.spec_size(), brick_size)
}

/// The edge length of a leaf's brick: the brick size, clamped to the longest
/// side of the box.
pub open spec fn leaf_edge(bounds: BoundingBox, brick_size: u32) -> int {
    if brick_size <= max3(bounds.spec_size()) {
        brick_size as int
    } else {
        max3(bounds.spec_size())
    }
}

/// The edge length of the probe: the shortest side of the box.
pub open spec fn probe_edge(bounds: BoundingBox) -> int {
    min3(bounds.spec_size())
}

/// The index given to a brick appended to a collection of `count` bricks: its
/// position, reduced to 32 bits.
pub open spec fn next_index(count: nat) -> u32 {
    (count % 0x1_0000_0000) as u32
}

/// What the subdivision of one box yields: the node and the brick collection
/// after it.
pub struct Built {
    pub node: NodeModel,
    pub bricks: Seq<BrickModel>,
}

/// What the subdivision of the first octants of a box yields: one slot per
/// octant and the brick collection after them.
pub struct BuiltChildren {
    pub slots: Seq<Option<NodeModel>>,
    pub bricks: Seq<BrickModel>,
}

/// The node built over `bounds` at `depth`, and the brick collection that
/// results from appending the bricks it keeps to `bricks`.
pub open spec fn build(
    sdf: Sdf,
    brick_size: u32,
    max_depth: u32,
    threshold: u16,
    bounds: BoundingBox,
    depth: int,
    bricks: Seq<BrickModel>,
) -> Built
    decreases max_depth - depth, 9int,
{
    let dim = sdf.header.dim;
    if is_leaf_case(bounds, depth, max_depth, brick_size) {
        let brick = BrickModel::extract(dim, sdf.voxels@, bounds.min, leaf_edge(bounds, brick_size) as u32);
        if retained(brick.data, threshold) {
            Built {
                node: NodeModel::leaf(bounds, Some(next_index(bricks.len()))),
                bricks: bricks.push(brick),
            }
        } else {
            Built { node: NodeModel::leaf(bounds, None), bricks }
        }
    } else if !retained(extracted(dim, sdf.voxels@, bounds.min, probe_edge(bounds) as u32), threshold) {
        Built { node: NodeModel::empty(bounds), bricks }
    } else {
        let kids = build_children(sdf, brick_size, max_depth, threshold, bounds, depth, 8, bricks);
        Built {
            node: NodeModel { children: kids.slots, brick_index: None, is_leaf: false, bounds },
            bricks: kids.bricks,
        }
    }
}

/// The slots of the first `n` octants of `bounds`, built one level below
/// `depth` in index order. An octant whose node comes out empty leaves its slot
/// vacant.
pub open spec fn build_children(
    sdf: Sdf,
    brick_size: u32,
    max_depth: u32,
    threshold: u16,
    bounds: BoundingBox,
    depth: int,
    n: int,
    bricks: Seq<BrickModel>,
) -> BuiltChildren
    decreases max_depth - depth, n,
{
    if 0 < n <= 8 && depth < max_depth {
        let before = build_children(sdf, brick_size, max_depth, threshold, bounds, depth, n - 1, bricks);
        let child = build(
            sdf,
            brick_size,
            max_depth,
            threshold,
            bounds.spec_child_bounds(n - 1),
            depth + 1,
            before.bricks,
        );
        BuiltChildren {
            slots: before.slots.push(
                if child.node.is_empty() {
                    None
                } else {
                    Some(child.node)
                },
            ),
            bricks: child.bricks,
        }
    } else {
        BuiltChildren { slots: Seq::empty(), bricks }
    }
}

/// The models of a collection of bricks.
pub open spec fn bricks_model(bricks: Seq<Brick>) -> Seq<BrickModel> {
    Seq::new(bricks.len(), |i: int| bricks[i]@)
}

/// The box that covers a whole grid of dimensions `dim`.
pub open spec fn root_bounds(dim: (u32, u32, u32)) -> BoundingBox {
    BoundingBox { min: (0, 0, 0), max: dim }
}

/// The smaller of two numbers.
fn min_u32(a: u32, b: u32) -> (m: u32)
    ensures
        m == (if a <= b { a } else { b }),
{
    if a <= b {
        a
    } else {
        b
    }
}

/// The larger of two numbers.
fn max_u32(a: u32, b: u32) -> (m: u32)
    ensures
        m == (if a >= b { a } else { b }),
{
    if a >= b {
        a
    } else {
        b
    }
}

impl SvoSdf {
    /// Builds the node over `bounds` at `depth` and appends the bricks it keeps to
    /// `bricks`.
    pub fn build_octree(
        sdf: &Sdf,
        bounds: BoundingBox,
        depth: u32,
        max_depth: u32,
        threshold: u16,
        brick_size: u32,
        bricks: &mut Vec<Brick>,
    ) -> (node: OctreeNode)
        requires
            sdf.wf(),
            bounds.wf(),
        ensures
            (Built { node: node@, bricks: bricks_model(final(bricks)@) }) == build(
                *sdf,
                brick_size,
                max_depth,
                threshold,
                bounds,
                depth as int,
                bricks_model(old(bricks)@),
            ),
        decreases max_depth - depth, 9int,
    {
        let bounds_size = bounds.size();
        let mut node = OctreeNode::new(bounds);
        proof {
            node.lemma_model_slots();
        }
        if depth >= max_depth || (bounds_size.0 <= brick_size && bounds_size.1 <= brick_size
            && bounds_size.2 <= brick_size) {
            let edge = min_u32(brick_size, max_u32(bounds_size.0, max_u32(bounds_size.1, bounds_size.2)));
            let brick = Brick::extract_from_sdf(sdf, bounds.min, edge);
            if brick.has_surface(threshold) || !brick.is_uniform(threshold) {
                let index: u32 = ((bricks.len() as u64) % 0x1_0000_0000u64) as u32;
                node.brick_index = Some(index);
                bricks.push(brick);
                assert(bricks_model(bricks@) =~= bricks_model(old(bricks)@).push(brick@));
            }
            node.is_leaf = true;
            proof {
                node.lemma_model_slots();
                assert(node@.children =~= no_children());
            }
            return node;
        }
        let test_edge = min_u32(bounds_size.0, min_u32(bounds_size.1, bounds_size.2));
        let test_brick = Brick::extract_from_sdf(sdf, bounds.min, test_edge);
        if !test_brick.has_surface(threshold) && test_brick.is_uniform(threshold) {
            return node;
        }
        let mut children: Vec<Option<Box<OctreeNode>>> = Vec::new();
        let mut i: usize = 0;
        assert(slot_models(children@) =~= Seq::empty());
        while i < 8
            invariant
                i <= 8,
                depth < max_depth,
                sdf.wf(),
                bounds.wf(),
                children.len() == i,
                build_children(
                    *sdf,
                    brick_size,
                    max_depth,
                    threshold,
                    bounds,
                    depth as int,
                    i as int,
                    bricks_model(old(bricks)@),
                ) == (BuiltChildren { slots: slot_models(children@), bricks: bricks_model(bricks@) }),
            decreases 8 - i,
        {
            let child_bounds = bounds.child_bounds(i);
            proof {
                lemma_child_within_parent(bounds, i as int);
            }
            let ghost slots_before = slot_models(children@);
            let child_node = Self::build_octree(sdf, child_bounds, depth + 1, max_depth, threshold, brick_size, bricks);
            let ghost child_model = child_node@;
            if !child_node.is_empty() {
                children.push(Some(Box::new(child_node)));
            } else {
                children.push(None);
            }
            i += 1;
            proof {
                assert(slot_models(children@) =~= slots_before.push(
                    if child_model.is_empty() {
                        None
                    } else {
                        Some(child_model)
                    },
                ));
            }
        }
        node.children = children;
        proof {
            node.lemma_model_slots();
            let kids = build_children(
                *sdf,
                brick_size,
                max_depth,
                threshold,
                bounds,
                depth as int,
                8,
                bricks_model(old(bricks)@),
            );
            assert(node@.children =~= kids.slots);
        }
        node
    }
}

} // verus!
