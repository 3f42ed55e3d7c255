//! What holds of every octree that the subdivision builds.

use vstd::prelude::*;
use crate::bounds::BoundingBox;
use crate::brick::{
    BrickModel, cube, extracted, is_inside, local_coords, retained, straddles, within,
    lemma_constant_data,
};
use crate::builder::{
    BuiltChildren, build, build_children, is_leaf_case, leaf_edge, next_index, probe_edge,
    root_bounds,
};
use crate::octree::NodeModel;
use crate::sdf::{Sdf, LEVEL_ZERO, in_grid, lemma_grid_index_bounds};
use crate::svosdf::SvoModel;

verus! {

/// Whether every brick of `bricks` has one sample per point of its cube.
pub open spec fn all_bricks_wf(bricks: Seq<BrickModel>) -> bool {
    forall|i: int| 0 <= i < bricks.len() ==> (#[trigger] bricks[i]).wf()
}

/// Whether `longer` starts with `shorter`.
pub open spec fn extends(longer: Seq<BrickModel>, shorter: Seq<BrickModel>) -> bool {
    &&& shorter.len() <= longer.len()
    &&& forall|i: int| 0 <= i < shorter.len() ==> longer[i] == shorter[i]
}

/// What holds of a node that the subdivision built over `bounds`, starting
/// from the collection `before` and ending with `after`.
pub open spec fn built_ok(
    node: NodeModel,
    bounds: BoundingBox,
    before: Seq<BrickModel>,
    after: Seq<BrickModel>,
) -> bool {
    &&& node.wf()
    &&& node.bounds == bounds
    &&& node.bounds_consistent()
    &&& node.indices_below(after.len() as int)
    &&& extends(after, before)
    &&& all_bricks_wf(before) ==> all_bricks_wf(after)
    &&& node.is_empty() ==> after == before
}

/// The subdivision of a box yields a well-formed subtree over that box. The
/// collection only grows, the bricks it gains are well formed, every brick
/// index of the subtree names a brick of the collection, and a subtree that
/// comes out empty has added no brick.
pub proof fn lemma_build_ok(
    sdf: Sdf,
    brick_size: u32,
    max_depth: u32,
    threshold: u16,
    bounds: BoundingBox,
    depth: int,
    bricks: Seq<BrickModel>,
)
    requires
        0 <= depth,
    ensures
        ({
            let b = build(sdf, brick_size, max_depth, threshold, bounds, depth, bricks);
            built_ok(b.node, bounds, bricks, b.bricks)
        }),
    decreases max_depth - depth, 9int,
{
    let b = build(sdf, brick_size, max_depth, threshold, bounds, depth, bricks);
    if is_leaf_case(bounds, depth, max_depth, brick_size) {
        let brick = BrickModel::extract(
            sdf.header.dim,
            sdf.voxels@,
            bounds.min,
            leaf_edge(bounds, brick_size) as u32,
        );
        assert(brick.wf());
        if retained(brick.data, threshold) {
            assert(next_index(bricks.len()) <= bricks.len());
            assert(b.bricks == bricks.push(brick));
        }
    } else if !retained(
        extracted(sdf.header.dim, sdf.voxels@, bounds.min, probe_edge(bounds) as u32),
        threshold,
    ) {
    } else {
        lemma_build_children_ok(sdf, brick_size, max_depth, threshold, bounds, depth, 8, bricks);
        let kids = build_children(sdf, brick_size, max_depth, threshold, bounds, depth, 8, bricks);
        assert(b.node.children == kids.slots);
        if b.node.is_empty() {
            assert forall|i: int| 0 <= i < 8 implies (#[trigger] kids.slots[i]) is None by {
                assert(!b.node.has_child(i));
            }
        }
    }
}

/// What holds of the first `n` slots that the subdivision built under
/// `bounds`.
pub open spec fn children_ok(
    kids: BuiltChildren,
    bounds: BoundingBox,
    n: int,
    before: Seq<BrickModel>,
) -> bool {
    &&& kids.slots.len() == n
    &&& extends(kids.bricks, before)
    &&& all_bricks_wf(before) ==> all_bricks_wf(kids.bricks)
    &&& (forall|i: int| 0 <= i < n ==> (#[trigger] kids.slots[i]) is None) ==> kids.bricks == before
    &&& forall|i: int|
        0 <= i < n && (#[trigger] kids.slots[i]) is Some ==> {
            let child = kids.slots[i]->Some_0;
            &&& child.wf()
            &&& !child.is_empty()
            &&& child.bounds == bounds.spec_child_bounds(i)
            &&& child.bounds_consistent()
            &&& child.indices_below(kids.bricks.len() as int)
        }
}

/// The slots built under a box hold well-formed, non-empty subtrees over the
/// octants that the slots name.
pub proof fn lemma_build_children_ok(
    sdf: Sdf,
    brick_size: u32,
    max_depth: u32,
    threshold: u16,
    bounds: BoundingBox,
    depth: int,
    n: int,
    bricks: Seq<BrickModel>,
)
    requires
        0 <= depth < max_depth,
        0 <= n <= 8,
    ensures
        children_ok(
            build_children(sdf, brick_size, max_depth, threshold, bounds, depth, n, bricks),
            bounds,
            n,
            bricks,
        ),
    decreases max_depth - depth, n,
{
    let kids = build_children(sdf, brick_size, max_depth, threshold, bounds, depth, n, bricks);
    if n > 0 {
        lemma_build_children_ok(sdf, brick_size, max_depth, threshold, bounds, depth, n - 1, bricks);
        let before = build_children(sdf, brick_size, max_depth, threshold, bounds, depth, n - 1, bricks);
        let child_bounds = bounds.spec_child_bounds(n - 1);
        lemma_build_ok(sdf, brick_size, max_depth, threshold, child_bounds, depth + 1, before.bricks);
        let child = build(sdf, brick_size, max_depth, threshold, child_bounds, depth + 1, before.bricks);
        assert(kids.bricks == child.bricks);
        assert forall|i: int| 0 <= i < n && (#[trigger] kids.slots[i]) is Some implies kids.slots[i]->Some_0.indices_below(
            kids.bricks.len() as int,
        ) by {
            if i < n - 1 {
                assert(kids.slots[i] == before.slots[i]);
                before.slots[i]->Some_0.lemma_indices_below_larger(
                    before.bricks.len() as int,
                    kids.bricks.len() as int,
                );
            }
        }
        assert forall|i: int| 0 <= i < n - 1 implies kids.slots[i] == before.slots[i] by {}
        if forall|i: int| 0 <= i < n ==> (#[trigger] kids.slots[i]) is None {
            assert(kids.slots[n - 1] is None);
            assert forall|i: int| 0 <= i < n - 1 implies (#[trigger] before.slots[i]) is None by {
                assert(kids.slots[i] is None);
            }
        }
    }
}

/// Every octree that `from_sdf` builds satisfies the invariant of octrees.
pub proof fn lemma_built_wf(sdf: Sdf, brick_size: u32, max_depth: u32, threshold: u16)
    ensures
        SvoModel::built(sdf, brick_size, max_depth, threshold).wf(),
{
    lemma_build_ok(
        sdf,
        brick_size,
        max_depth,
        threshold,
        root_bounds(sdf.header.dim),
        0,
        Seq::empty(),
    );
}

/// As long as the collection holds fewer than 2^32 bricks, the index given to
/// an appended brick is its position in the collection.
pub proof fn lemma_index_is_position(count: nat)
    requires
        count < 0x1_0000_0000,
    ensures
        next_index(count) == count,
{
}

/// Whether every brick index in the subtree names the brick that was
/// extracted for its node: the cube at the lower corner of the node's box, of
/// the clamped brick size, and worth keeping.
pub open spec fn refers(
    node: NodeModel,
    bricks: Seq<BrickModel>,
    sdf: Sdf,
    brick_size: u32,
    threshold: u16,
) -> bool
    decreases node,
{
    &&& node.brick_index is Some ==> {
        let i = node.brick_index->Some_0 as int;
        &&& i < bricks.len()
        &&& bricks[i] == BrickModel::extract(
            sdf.header.dim,
            sdf.voxels@,
            node.bounds.min,
            leaf_edge(node.bounds, brick_size) as u32,
        )
        &&& retained(bricks[i].data, threshold)
    }
    &&& forall|i: int|
        0 <= i < node.children.len() && (#[trigger] node.children[i]) is Some ==> refers(
            node.children[i]->Some_0,
            bricks,
            sdf,
            brick_size,
            threshold,
        )
}

/// What a subtree refers to in a collection it refers to in every collection
/// that starts with it.
pub proof fn lemma_refers_extends(
    node: NodeModel,
    bricks: Seq<BrickModel>,
    longer: Seq<BrickModel>,
    sdf: Sdf,
    brick_size: u32,
    threshold: u16,
)
    requires
        refers(node, bricks, sdf, brick_size, threshold),
        extends(longer, bricks),
    ensures
        refers(node, longer, sdf, brick_size, threshold),
    decreases node,
{
    assert forall|i: int|
        0 <= i < node.children.len() && (#[trigger] node.children[i]) is Some implies refers(
        node.children[i]->Some_0,
        longer,
        sdf,
        brick_size,
        threshold,
    ) by {
        lemma_refers_extends(node.children[i]->Some_0, bricks, longer, sdf, brick_size, threshold);
    }
}

/// As long as the collection stays within 2^32 bricks, every brick index of
/// a built subtree names the brick that was extracted for its node.
pub proof fn lemma_build_refers(
    sdf: Sdf,
    brick_size: u32,
    max_depth: u32,
    threshold: u16,
    bounds: BoundingBox,
    depth: int,
    bricks: Seq<BrickModel>,
)
    requires
        0 <= depth,
        build(sdf, brick_size, max_depth, threshold, bounds, depth, bricks).bricks.len()
            <= 0x1_0000_0000,
    ensures
        ({
            let b = build(sdf, brick_size, max_depth, threshold, bounds, depth, bricks);
            refers(b.node, b.bricks, sdf, brick_size, threshold)
        }),
    decreases max_depth - depth, 9int,
{
    let b = build(sdf, brick_size, max_depth, threshold, bounds, depth, bricks);
    if is_leaf_case(bounds, depth, max_depth, brick_size) {
    } else if !retained(
        extracted(sdf.header.dim, sdf.voxels@, bounds.min, probe_edge(bounds) as u32),
        threshold,
    ) {
    } else {
        lemma_build_children_refer(sdf, brick_size, max_depth, threshold, bounds, depth, 8, bricks);
        lemma_build_children_ok(sdf, brick_size, max_depth, threshold, bounds, depth, 8, bricks);
    }
}

/// As long as the collection stays within 2^32 bricks, every brick index
/// under the first `n` slots names the brick that was extracted for its node.
pub proof fn lemma_build_children_refer(
    sdf: Sdf,
    brick_size: u32,
    max_depth: u32,
    threshold: u16,
    bounds: BoundingBox,
    depth: int,
    n: int,
    bricks: Seq<BrickModel>,
)
    requires
        0 <= depth < max_depth,
        0 <= n <= 8,
        build_children(sdf, brick_size, max_depth, threshold, bounds, depth, n, bricks).bricks.len()
            <= 0x1_0000_0000,
    ensures
        ({
            let kids = build_children(sdf, brick_size, max_depth, threshold, bounds, depth, n, bricks);
            forall|i: int|
                0 <= i < n && (#[trigger] kids.slots[i]) is Some ==> refers(
                    kids.slots[i]->Some_0,
                    kids.bricks,
                    sdf,
                    brick_size,
                    threshold,
                )
        }),
    decreases max_depth - depth, n,
{
    let kids = build_children(sdf, brick_size, max_depth, threshold, bounds, depth, n, bricks);
    if n > 0 {
        let before = build_children(sdf, brick_size, max_depth, threshold, bounds, depth, n - 1, bricks);
        let child_bounds = bounds.spec_child_bounds(n - 1);
        let child = build(sdf, brick_size, max_depth, threshold, child_bounds, depth + 1, before.bricks);
        lemma_build_children_ok(sdf, brick_size, max_depth, threshold, bounds, depth, n - 1, bricks);
        lemma_build_ok(sdf, brick_size, max_depth, threshold, child_bounds, depth + 1, before.bricks);
        assert(kids.bricks == child.bricks);
        lemma_build_children_refer(sdf, brick_size, max_depth, threshold, bounds, depth, n - 1, bricks);
        lemma_build_refers(sdf, brick_size, max_depth, threshold, child_bounds, depth + 1, before.bricks);
        assert forall|i: int| 0 <= i < n && (#[trigger] kids.slots[i]) is Some implies refers(
            kids.slots[i]->Some_0,
            kids.bricks,
            sdf,
            brick_size,
            threshold,
        ) by {
            if i < n - 1 {
                assert(kids.slots[i] == before.slots[i]);
                lemma_refers_extends(
                    before.slots[i]->Some_0,
                    before.bricks,
                    kids.bricks,
                    sdf,
                    brick_size,
                    threshold,
                );
            }
        }
    }
}

/// In an octree that `from_sdf` built and that keeps at most 2^32 bricks,
/// the brick index of every node names the brick extracted for that node.
pub proof fn lemma_built_refers(sdf: Sdf, brick_size: u32, max_depth: u32, threshold: u16)
    requires
        SvoModel::built(sdf, brick_size, max_depth, threshold).bricks.len() <= 0x1_0000_0000,
    ensures
        refers(
            SvoModel::built(sdf, brick_size, max_depth, threshold).root,
            SvoModel::built(sdf, brick_size, max_depth, threshold).bricks,
            sdf,
            brick_size,
            threshold,
        ),
{
    lemma_build_refers(
        sdf,
        brick_size,
        max_depth,
        threshold,
        root_bounds(sdf.header.dim),
        0,
        Seq::empty(),
    );
}

/// Whether no node of the subtree lies more than `limit` levels below its
/// root.
pub open spec fn height_within(node: NodeModel, limit: int) -> bool
    decreases node,
{
    forall|i: int|
        0 <= i < node.children.len() && (#[trigger] node.children[i]) is Some ==> limit >= 1
            && height_within(node.children[i]->Some_0, limit - 1)
}

/// A subtree built at `depth` reaches at most down to the depth limit.
pub proof fn lemma_build_height(
    sdf: Sdf,
    brick_size: u32,
    max_depth: u32,
    threshold: u16,
    bounds: BoundingBox,
    depth: int,
    bricks: Seq<BrickModel>,
)
    requires
        0 <= depth,
    ensures
        height_within(
            build(sdf, brick_size, max_depth, threshold, bounds, depth, bricks).node,
            max_depth - depth,
        ),
    decreases max_depth - depth, 9int,
{
    if is_leaf_case(bounds, depth, max_depth, brick_size) {
    } else if !retained(
        extracted(sdf.header.dim, sdf.voxels@, bounds.min, probe_edge(bounds) as u32),
        threshold,
    ) {
    } else {
        lemma_build_children_height(sdf, brick_size, max_depth, threshold, bounds, depth, 8, bricks);
        lemma_build_children_ok(sdf, brick_size, max_depth, threshold, bounds, depth, 8, bricks);
    }
}

/// The subtrees in the first `n` slots built under a box at `depth` reach at
/// most down to the depth limit.
pub proof fn lemma_build_children_height(
    sdf: Sdf,
    brick_size: u32,
    max_depth: u32,
    threshold: u16,
    bounds: BoundingBox,
    depth: int,
    n: int,
    bricks: Seq<BrickModel>,
)
    requires
        0 <= depth < max_depth,
        0 <= n <= 8,
    ensures
        ({
            let kids = build_children(sdf, brick_size, max_depth, threshold, bounds, depth, n, bricks);
            forall|i: int|
                0 <= i < n && (#[trigger] kids.slots[i]) is Some ==> height_within(
                    kids.slots[i]->Some_0,
                    max_depth - depth - 1,
                )
        }),
    decreases max_depth - depth, n,
{
    let kids = build_children(sdf, brick_size, max_depth, threshold, bounds, depth, n, bricks);
    if n > 0 {
        let before = build_children(sdf, brick_size, max_depth, threshold, bounds, depth, n - 1, bricks);
        lemma_build_children_ok(sdf, brick_size, max_depth, threshold, bounds, depth, n - 1, bricks);
        lemma_build_children_height(sdf, brick_size, max_depth, threshold, bounds, depth, n - 1, bricks);
        lemma_build_height(
            sdf,
            brick_size,
            max_depth,
            threshold,
            bounds.spec_child_bounds(n - 1),
            depth + 1,
            before.bricks,
        );
        assert forall|i: int| 0 <= i < n && (#[trigger] kids.slots[i]) is Some implies height_within(
            kids.slots[i]->Some_0,
            max_depth - depth - 1,
        ) by {
            if i < n - 1 {
                assert(kids.slots[i] == before.slots[i]);
            }
        }
    }
}

/// Whether every sample of the volume equals `value`.
pub open spec fn constant_volume(sdf: Sdf, value: u16) -> bool {
    forall|i: int| 0 <= i < sdf.voxels.len() ==> sdf.voxels@[i] == value
}

/// The local coordinates of every entry of a brick lie inside the brick.
pub proof fn lemma_local_coords_in_brick(i: int, size: int)
    requires
        0 <= i < cube(size),
        0 <= size,
    ensures
        0 <= local_coords(i, size).0 < size,
        0 <= local_coords(i, size).1 < size,
        0 <= local_coords(i, size).2 < size,
{
    assert(size > 0) by (nonlinear_arith)
        requires
            0 <= i < size * size * size,
            0 <= size,
    ;
    vstd::arithmetic::div_mod::lemma_mod_bound(i, size);
    vstd::arithmetic::div_mod::lemma_mod_bound(i / size, size);
    assert(size * size > 0) by (nonlinear_arith)
        requires
            size > 0,
    ;
    vstd::arithmetic::div_mod::lemma_multiply_divide_lt(i, size * size, size);
    vstd::arithmetic::div_mod::lemma_div_pos_is_pos(i, size * size);
}

/// In a volume of one value, every sample of an extracted brick is that value
/// or `LEVEL_ZERO`, and a brick that lies inside the grid holds that value
/// only.
pub proof fn lemma_extracted_from_constant(
    sdf: Sdf,
    value: u16,
    position: (u32, u32, u32),
    size: u32,
)
    requires
        sdf.wf(),
        constant_volume(sdf, value),
    ensures
        forall|i: int|
            0 <= i < extracted(sdf.header.dim, sdf.voxels@, position, size).len() ==> {
                let sample = #[trigger] extracted(sdf.header.dim, sdf.voxels@, position, size)[i];
                sample == value || sample == LEVEL_ZERO
            },
        position.0 + size <= sdf.header.dim.0 && position.1 + size <= sdf.header.dim.1 && position.2
            + size <= sdf.header.dim.2 ==> forall|i: int|
            0 <= i < extracted(sdf.header.dim, sdf.voxels@, position, size).len() ==> (
            #[trigger] extracted(sdf.header.dim, sdf.voxels@, position, size)[i]) == value,
{
    let dim = sdf.header.dim;
    let data = extracted(dim, sdf.voxels@, position, size);
    assert forall|i: int| 0 <= i < data.len() implies ({
        let sample = #[trigger] data[i];
        &&& sample == value || sample == LEVEL_ZERO
        &&& position.0 + size <= dim.0 && position.1 + size <= dim.1 && position.2 + size <= dim.2
            ==> sample == value
    }) by {
        let c = local_coords(i, size as int);
        let p = (position.0 + c.0, position.1 + c.1, position.2 + c.2);
        lemma_local_coords_in_brick(i, size as int);
        if in_grid(dim, p) {
            lemma_grid_index_bounds(dim, p);
        }
    }
}

/// Building over a volume whose samples all equal one value yields a root
/// without brick and without children, and keeps no brick, whatever the depth
/// limit, provided that the value lies within the threshold of `LEVEL_ZERO`
/// or that the brick extracted at the root does not reach beyond the grid.
/// (A root that becomes a leaf extracts a brick of the clamped brick size,
/// which may reach beyond the shortest side of the grid; any other root is
/// probed with a cube of the shortest side, which never does.)
pub proof fn lemma_uniform_volume_pruned(
    sdf: Sdf,
    brick_size: u32,
    max_depth: u32,
    threshold: u16,
    value: u16,
)
    requires
        sdf.wf(),
        constant_volume(sdf, value),
        within(value, LEVEL_ZERO, threshold) || !is_leaf_case(
            root_bounds(sdf.header.dim),
            0,
            max_depth,
            brick_size,
        ) || leaf_edge(root_bounds(sdf.header.dim), brick_size) <= probe_edge(
            root_bounds(sdf.header.dim),
        ),
    ensures
        SvoModel::built(sdf, brick_size, max_depth, threshold).root.brick_index is None,
        SvoModel::built(sdf, brick_size, max_depth, threshold).root.is_empty(),
        forall|i: int| 0 <= i < 8 ==> !SvoModel::built(sdf, brick_size, max_depth, threshold).root.has_child(i),
        SvoModel::built(sdf, brick_size, max_depth, threshold).bricks == Seq::<BrickModel>::empty(),
{
    let dim = sdf.header.dim;
    let root = root_bounds(dim);
    let edge: u32 = if is_leaf_case(root, 0, max_depth, brick_size) {
        leaf_edge(root, brick_size) as u32
    } else {
        probe_edge(root) as u32
    };
    let data = extracted(dim, sdf.voxels@, root.min, edge);
    lemma_extracted_from_constant(sdf, value, root.min, edge);
    if !is_leaf_case(root, 0, max_depth, brick_size) || leaf_edge(root, brick_size) <= probe_edge(root) {
        lemma_constant_data(data, threshold);
    } else {
        assert(within(value, LEVEL_ZERO, threshold));
        assert forall|i: int| 0 <= i < data.len() implies within(#[trigger] data[i], data[0], threshold) by {
            assert(data[0] == value || data[0] == LEVEL_ZERO);
        }
        assert(!straddles(data, threshold)) by {
            if straddles(data, threshold) {
                let i = choose|i: int| 0 <= i < data.len() && is_inside(#[trigger] data[i], threshold);
                assert(data[i] == value || data[i] == LEVEL_ZERO);
            }
        }
    }
    assert(!retained(data, threshold));
    let built = SvoModel::built(sdf, brick_size, max_depth, threshold);
    assert(forall|i: int| 0 <= i < 8 ==> !built.root.has_child(i));
}

} // verus!
