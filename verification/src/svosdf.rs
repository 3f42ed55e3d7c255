//! The sparse voxel octree of a volume: header, tree, retained bricks and the
//! brick size they were built with.

use vstd::prelude::*;
use crate::bounds::BoundingBox;
use crate::brick::{Brick, BrickModel};
use crate::builder::{bricks_model, build, root_bounds};
use crate::octree::{NodeModel, OctreeNode};
use crate::sdf::{Sdf, SdfHeader};

verus! {

/// The bytes counted for the header in the memory estimate: three grid
/// dimensions, three origin coordinates and the spacing, four bytes each.
pub const HEADER_FOOTPRINT: usize = 28;

/// The bytes counted for one node in the memory estimate: eight child
/// pointers of eight bytes, the optional brick index, the leaf flag and the
/// bounds, rounded up to a multiple of eight.
pub const NODE_FOOTPRINT: usize = 104;

/// The mathematical value of a sparse voxel octree.
pub struct SvoModel {
    pub header: SdfHeader,
    pub root: NodeModel,
    pub bricks: Seq<BrickModel>,
    pub brick_size: u32,
}

/// The bytes taken by the samples of the first `n` bricks, two per sample.
pub open spec fn sample_bytes(bricks: Seq<BrickModel>, n: int) -> int
    decreases n,
{
    if 0 < n <= bricks.len() {
        sample_bytes(bricks, n - 1) + 2 * bricks[n - 1].data.len()
    } else {
        0
    }
}

/// `n`, or `usize::MAX` where `n` is larger.
pub open spec fn saturated(n: int) -> usize {
    if n <= usize::MAX {
        n as usize
    } else {
        usize::MAX
    }
}

impl SvoModel {
    /// The octree of `sdf`: the subdivision of the whole grid from depth 0,
    /// starting from an empty brick collection.
    pub open spec fn built(sdf: Sdf, brick_size: u32, max_depth: u32, threshold: u16) -> SvoModel {
        let b = build(
            sdf,
            brick_size,
            max_depth,
            threshold,
            root_bounds(sdf.header.dim),
            0,
            Seq::empty(),
        );
        SvoModel { header: sdf.header, root: b.node, bricks: b.bricks, brick_size }
    }

    /// The invariant of an octree: the tree is well formed, every brick index
    /// names a brick of the collection, every brick has one sample per point of
    /// its cube, the root covers the whole grid, and every child lies over the
    /// octant that its slot names.
    pub open spec fn wf(&self) -> bool {
        &&& self.root.wf()
        &&& self.root.indices_below(self.bricks.len() as int)
        &&& forall|i: int| 0 <= i < self.bricks.len() ==> (#[trigger] self.bricks[i]).wf()
        &&& self.root.bounds == root_bounds(self.header.dim)
        &&& self.root.bounds_consistent()
    }

    /// The memory estimate: header, one footprint per node, and the samples.
    pub open spec fn memory_usage(&self) -> int {
        HEADER_FOOTPRINT + self.root.count_nodes() * NODE_FOOTPRINT + sample_bytes(
            self.bricks,
            self.bricks.len() as int,
        )
    }
}

/// A sparse voxel octree. Leaves refer to bricks by their index in `bricks`.
#[derive(Debug)]
pub struct SvoSdf {
    pub header: SdfHeader,
    pub root: OctreeNode,
    pub bricks: Vec<Brick>,
    pub brick_size: u32,
}

impl View for SvoSdf {
    type V = SvoModel;

    open spec fn view(&self) -> SvoModel {
        SvoModel {
            header: self.header,
            root: self.root@,
            bricks: bricks_model(self.bricks@),
            brick_size: self.brick_size,
        }
    }
}

/// `a + b`, or `usize::MAX` where the sum is larger.
fn saturating_sum(a: usize, b: usize) -> (sum: usize)
    ensures
        sum == saturated(a + b),
{
    if a > usize::MAX - b {
        usize::MAX
    } else {
        a + b
    }
}

impl SvoSdf {
    /// Builds the octree of `sdf` with bricks of edge length `brick_size`, at
    /// most `max_depth` levels of subdivision, and the given threshold in
    /// quantized units.
    pub fn from_sdf(sdf: &Sdf, brick_size: u32, max_depth: u32, threshold: u16) -> (svo: Self)
        requires
            sdf.wf(),
        ensures
            svo@ == SvoModel::built(*sdf, brick_size, max_depth, threshold),
            svo@.wf(),
            svo@.root.shaped(),
    {
        proof {
            crate::build_laws::lemma_built_wf(*sdf, brick_size, max_depth, threshold);
            SvoModel::built(*sdf, brick_size, max_depth, threshold).root.lemma_wf_shaped();
        }
        let bounds = BoundingBox::new((0, 0, 0), sdf.header.dim);
        let mut bricks: Vec<Brick> = Vec::new();
        proof {
            assert(bricks_model(bricks@) =~= Seq::empty());
        }
        let root = Self::build_octree(sdf, bounds, 0, max_depth, threshold, brick_size, &mut bricks);
        SvoSdf { header: sdf.header, root, bricks, brick_size }
    }

    /// The number of nodes in the subtree of `node`, or `usize::MAX` where
    /// there are more.
    pub fn count_nodes(&self, node: &OctreeNode) -> (count: usize)
        ensures
            count == saturated(node@.count_nodes() as int),
        decreases node,
    {
        proof {
            node.lemma_model_slots();
        }
        let mut count: usize = 1;
        let mut i: usize = 0;
        while i < node.children.len()
            invariant
                i <= node.children.len(),
                node@.children == crate::octree::slot_models(node.children@),
                count == saturated((1 + node@.count_children(i as int)) as int),
            decreases node.children.len() - i,
        {
            match &node.children[i] {
                Some(child_node) => {
                    let below = self.count_nodes(child_node);
                    count = saturating_sum(count, below);
                },
                None => {},
            }
            i += 1;
        }
        count
    }

    /// An estimate of the memory the octree takes: `HEADER_FOOTPRINT`, plus
    /// `NODE_FOOTPRINT` for each node, plus two bytes for each sample of each
    /// brick; `usize::MAX` where the sum is larger.
    pub fn calculate_memory_usage(&self) -> (bytes: usize)
        ensures
            bytes == saturated(self@.memory_usage()),
    {
        let estimated_nodes = self.count_nodes(&self.root);
        let node_bytes: usize = if estimated_nodes > usize::MAX / NODE_FOOTPRINT {
            usize::MAX
        } else {
            estimated_nodes * NODE_FOOTPRINT
        };
        let mut brick_bytes: usize = 0;
        let mut i: usize = 0;
        while i < self.bricks.len()
            invariant
                i <= self.bricks.len(),
                brick_bytes == saturated(sample_bytes(bricks_model(self.bricks@), i as int)),
                sample_bytes(bricks_model(self.bricks@), i as int) >= 0,
            decreases self.bricks.len() - i,
        {
            let len = self.bricks[i].data.len();
            let twice = saturating_sum(len, len);
            brick_bytes = saturating_sum(brick_bytes, twice);
            i += 1;
        }
        saturating_sum(saturating_sum(HEADER_FOOTPRINT, node_bytes), brick_bytes)
    }
}

} // verus!
