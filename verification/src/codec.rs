//! The persisted form of an octree: a flat byte sequence without padding.
//!
//! ```text
//! header   dim.x dim.y dim.z | box_min.x box_min.y box_min.z | dx | brick size   (eight 32-bit words)
//! bricks   count (32 bits), then per brick:
//!            size | position.x position.y position.z (32 bits each) | size^3 samples (16 bits each)
//! tree     one record per node, depth first, children in slot order:
//!            leaf flag (1 byte) | brick flag (1 byte) [brick index, 32 bits]
//!            bounds min.x min.y min.z max.x max.y max.z (32 bits each)
//!            unless a leaf: child mask (1 byte, bit i set iff slot i is taken),
//!            then the record of each child that is present
//! ```
//!
//! All integers are little-endian. The bounds of a record are written but not
//! used when reading: the reader derives every node's bounds from the grid
//! dimensions by the same octant split that built the tree.

use vstd::prelude::*;
use crate::bounds::BoundingBox;
use crate::brick::{Brick, BrickModel, cube, sample_count};
use crate::builder::{bricks_model, next_index, root_bounds};
use crate::octree::{NodeModel, OctreeNode, no_children, slot_models};
use crate::sdf::SdfHeader;
use crate::serialization::{Loader, StorerVec, read_u16s, read_u32, u16s_bytes, u32_bytes};
use crate::svosdf::{SvoModel, SvoSdf};

verus! {

/// The value of bit `i` of a byte.
pub open spec fn bit_weight(i: int) -> int {
    if i == 0 {
        1
    } else if i == 1 {
        2
    } else if i == 2 {
        4
    } else if i == 3 {
        8
    } else if i == 4 {
        16
    } else if i == 5 {
        32
    } else if i == 6 {
        64
    } else {
        128
    }
}

/// What slot `i` adds to the child mask: the value of bit `i` if the slot is
/// among the first `n` and holds a child.
pub open spec fn slot_bit(children: Seq<Option<NodeModel>>, i: int, n: int) -> int {
    if i < n && i < children.len() && children[i] is Some {
        bit_weight(i)
    } else {
        0
    }
}

/// The child mask of the first `n` slots.
pub open spec fn child_mask_upto(children: Seq<Option<NodeModel>>, n: int) -> int {
    slot_bit(children, 0, n) + slot_bit(children, 1, n) + slot_bit(children, 2, n) + slot_bit(
        children,
        3,
        n,
    ) + slot_bit(children, 4, n) + slot_bit(children, 5, n) + slot_bit(children, 6, n) + slot_bit(
        children,
        7,
        n,
    )
}

/// The child mask: bit `i` is set exactly if slot `i` holds a child.
pub open spec fn child_mask(children: Seq<Option<NodeModel>>) -> u8 {
    child_mask_upto(children, 8) as u8
}

/// Whether bit `i` of `mask` is set.
pub open spec fn mask_bit(mask: u8, i: int) -> bool {
    (mask as int / bit_weight(i)) % 2 == 1
}

/// The byte of a flag.
pub open spec fn flag_byte(flag: bool) -> u8 {
    if flag {
        1
    } else {
        0
    }
}

/// The six words of a box: `min`, then `max`.
pub open spec fn bounds_bytes(b: BoundingBox) -> Seq<u8> {
    u32_bytes(b.min.0) + u32_bytes(b.min.1) + u32_bytes(b.min.2) + u32_bytes(b.max.0) + u32_bytes(
        b.max.1,
    ) + u32_bytes(b.max.2)
}

/// The part of a node's record that every node has: the two flags, the brick
/// index where there is one, and the bounds.
pub open spec fn node_head_bytes(node: NodeModel) -> Seq<u8> {
    seq![flag_byte(node.is_leaf), flag_byte(node.brick_index is Some)] + (match node.brick_index {
        Some(index) => u32_bytes(index),
        None => Seq::empty(),
    }) + bounds_bytes(node.bounds)
}

/// The record of a node and, unless it is a leaf, of its subtree.
pub open spec fn encode_node(node: NodeModel) -> Seq<u8>
    decreases node, 9int,
{
    if node.is_leaf {
        node_head_bytes(node)
    } else {
        node_head_bytes(node) + seq![child_mask(node.children)] + encode_children(node, 8)
    }
}

/// The records of the children in the first `n` slots, in slot order.
pub open spec fn encode_children(node: NodeModel, n: int) -> Seq<u8>
    decreases node, n,
{
    if 0 < n <= 8 && n <= node.children.len() {
        encode_children(node, n - 1) + (if node.children[n - 1] is Some {
            encode_node(node.children[n - 1]->Some_0)
        } else {
            Seq::empty()
        })
    } else {
        Seq::empty()
    }
}

/// The record of a brick.
pub open spec fn brick_bytes(brick: BrickModel) -> Seq<u8> {
    u32_bytes(brick.size) + u32_bytes(brick.position.0) + u32_bytes(brick.position.1) + u32_bytes(
        brick.position.2,
    ) + u16s_bytes(brick.data, brick.data.len() as int)
}

/// The records of the first `n` bricks.
pub open spec fn bricks_bytes(bricks: Seq<BrickModel>, n: int) -> Seq<u8>
    decreases n,
{
    if 0 < n <= bricks.len() {
        bricks_bytes(bricks, n - 1) + brick_bytes(bricks[n - 1])
    } else {
        Seq::empty()
    }
}

/// The eight words of the header section.
pub open spec fn header_bytes(header: SdfHeader, brick_size: u32) -> Seq<u8> {
    u32_bytes(header.dim.0) + u32_bytes(header.dim.1) + u32_bytes(header.dim.2) + u32_bytes(
        header.box_min.0,
    ) + u32_bytes(header.box_min.1) + u32_bytes(header.box_min.2) + u32_bytes(header.dx)
        + u32_bytes(brick_size)
}

/// The persisted form of an octree. The brick count is written reduced to 32
/// bits.
pub open spec fn encode(svo: SvoModel) -> Seq<u8> {
    header_bytes(svo.header, svo.brick_size) + u32_bytes(next_index(svo.bricks.len()))
        + bricks_bytes(svo.bricks, svo.bricks.len() as int) + encode_node(svo.root)
}

/// The bytes left from `pos` to the end of the input.
pub open spec fn remaining(bytes: Seq<u8>, pos: int) -> int {
    if pos <= bytes.len() {
        bytes.len() - pos
    } else {
        0
    }
}

/// The length of the part of a record that every node has.
pub open spec fn head_len(has_brick: bool) -> int {
    if has_brick {
        30
    } else {
        26
    }
}

/// The node whose record starts at `pos`, over `bounds`, together with the
/// length of the record and of its subtree's records; nothing where the input
/// ends before the record does. A flag byte other than zero counts as set.
pub open spec fn parse_node(bytes: Seq<u8>, pos: int, bounds: BoundingBox) -> Option<(NodeModel, nat)>
    decreases remaining(bytes, pos), 0int,
{
    if pos < 0 || pos + 2 > bytes.len() {
        None
    } else {
        let is_leaf = bytes[pos] != 0;
        let has_brick = bytes[pos + 1] != 0;
        let head = head_len(has_brick);
        let brick_index = if has_brick {
            Some(read_u32(bytes, pos + 2))
        } else {
            None
        };
        if pos + head > bytes.len() {
            None
        } else if is_leaf {
            Some((NodeModel::leaf(bounds, brick_index), head as nat))
        } else if pos + head + 1 > bytes.len() {
            None
        } else {
            match parse_children(bytes, pos + head + 1, bounds, bytes[pos + head], 8) {
                None => None,
                Some((slots, used)) => Some(
                    (
                        NodeModel { children: slots, brick_index, is_leaf: false, bounds },
                        (head + 1 + used) as nat,
                    ),
                ),
            }
        }
    }
}

/// The first `n` child slots of a node over `bounds` whose children's records
/// start at `pos`, together with the length of those records. Slot `i` is
/// taken exactly if bit `i` of `mask` is set, and its child lies over octant
/// `i` of `bounds`.
pub open spec fn parse_children(
    bytes: Seq<u8>,
    pos: int,
    bounds: BoundingBox,
    mask: u8,
    n: int,
) -> Option<(Seq<Option<NodeModel>>, nat)>
    decreases remaining(bytes, pos), n,
{
    if 0 < n <= 8 {
        match parse_children(bytes, pos, bounds, mask, n - 1) {
            None => None,
            Some((slots, used)) => {
                if mask_bit(mask, n - 1) {
                    match parse_node(bytes, pos + used, bounds.spec_child_bounds(n - 1)) {
                        None => None,
                        Some((child, more)) => Some((slots.push(Some(child)), used + more)),
                    }
                } else {
                    Some((slots.push(None), used))
                }
            },
        }
    } else {
        Some((Seq::empty(), 0))
    }
}

/// The brick whose record starts at `pos`, together with the length of the
/// record; nothing where the input ends before the record does.
pub open spec fn parse_brick(bytes: Seq<u8>, pos: int) -> Option<(BrickModel, nat)> {
    if pos < 0 || pos + 16 > bytes.len() {
        None
    } else {
        let size = read_u32(bytes, pos);
        let count = cube(size as int);
        if pos + 16 + 2 * count > bytes.len() {
            None
        } else {
            Some(
                (
                    BrickModel {
                        data: read_u16s(bytes, pos + 16, count),
                        size,
                        position: (
                            read_u32(bytes, pos + 4),
                            read_u32(bytes, pos + 8),
                            read_u32(bytes, pos + 12),
                        ),
                    },
                    (16 + 2 * count) as nat,
                ),
            )
        }
    }
}

/// The `n` bricks whose records start at `pos`, together with the length of
/// those records.
pub open spec fn parse_bricks(bytes: Seq<u8>, pos: int, n: int) -> Option<(Seq<BrickModel>, nat)>
    decreases n,
{
    if 0 < n {
        match parse_bricks(bytes, pos, n - 1) {
            None => None,
            Some((bricks, used)) => match parse_brick(bytes, pos + used) {
                None => None,
                Some((brick, more)) => Some((bricks.push(brick), used + more)),
            },
        }
    } else {
        Some((Seq::empty(), 0))
    }
}

/// The header section at the start of the input.
pub open spec fn parse_header(bytes: Seq<u8>) -> SdfHeader {
    SdfHeader {
        dim: (read_u32(bytes, 0), read_u32(bytes, 4), read_u32(bytes, 8)),
        box_min: (read_u32(bytes, 12), read_u32(bytes, 16), read_u32(bytes, 20)),
        dx: read_u32(bytes, 24),
    }
}

/// The octree that `bytes` holds; nothing where the input ends before the
/// last record does. Bytes after the tree are ignored.
pub open spec fn decode(bytes: Seq<u8>) -> Option<SvoModel> {
    if bytes.len() < 36 {
        None
    } else {
        let header = parse_header(bytes);
        match parse_bricks(bytes, 36, read_u32(bytes, 32) as int) {
            None => None,
            Some((bricks, used)) => match parse_node(bytes, 36 + used as int, root_bounds(header.dim)) {
                None => None,
                Some((root, _)) => Some(
                    SvoModel { header, root, bricks, brick_size: read_u32(bytes, 28) },
                ),
            },
        }
    }
}

/// Once the first `n` slots cannot be read, no longer run of slots can.
pub proof fn lemma_parse_children_fails(
    bytes: Seq<u8>,
    pos: int,
    bounds: BoundingBox,
    mask: u8,
    n: int,
    m: int,
)
    requires
        0 <= n <= m <= 8,
        parse_children(bytes, pos, bounds, mask, n) is None,
    ensures
        parse_children(bytes, pos, bounds, mask, m) is None,
    decreases m - n,
{
    if n < m {
        lemma_parse_children_fails(bytes, pos, bounds, mask, n, m - 1);
    }
}

/// Once the first `n` bricks cannot be read, no longer run of bricks can.
pub proof fn lemma_parse_bricks_fails(bytes: Seq<u8>, pos: int, n: int, m: int)
    requires
        0 <= n <= m,
        parse_bricks(bytes, pos, n) is None,
    ensures
        parse_bricks(bytes, pos, m) is None,
    decreases m - n,
{
    if n < m {
        lemma_parse_bricks_fails(bytes, pos, n, m - 1);
    }
}

/// Reads the record of a brick at the loader's position. Where that fails,
/// the position is left wherever reading stopped.
fn load_brick(loader: &mut Loader, bytes: &[u8]) -> (result: Option<Brick>)
    requires
        old(loader).pos <= bytes.len(),
    ensures
        match result {
            Some(brick) => parse_brick(bytes@, old(loader).pos as int) == Some(
                (brick@, (final(loader).pos - old(loader).pos) as nat),
            ) && old(loader).pos <= final(loader).pos <= bytes.len(),
            None => parse_brick(bytes@, old(loader).pos as int) is None,
        },
{
    if !loader.remaining_at_least(bytes, 16) {
        return None;
    }
    let size = loader.load_u32(bytes).unwrap();
    let px = loader.load_u32(bytes).unwrap();
    let py = loader.load_u32(bytes).unwrap();
    let pz = loader.load_u32(bytes).unwrap();
    let count: u128 = sample_count(size);
    let left: usize = bytes.len() - loader.pos;
    if count > (left / 2) as u128 {
        return None;
    }
    let data = loader.load_array_u16(bytes, count as usize).unwrap();
    Some(Brick { data, size, position: (px, py, pz) })
}

impl SvoSdf {
    /// Appends the record of `node` and of its subtree to `storer`.
    pub fn serialize_node(&self, node: &OctreeNode, storer: &mut StorerVec)
        requires
            node@.shaped(),
        ensures
            final(storer).v@ == old(storer).v@ + encode_node(node@),
        decreases node,
    {
        proof {
            node.lemma_model_slots();
        }
        storer.store_u8(
            if node.is_leaf {
                1
            } else {
                0
            },
        );
        match node.brick_index {
            Some(brick_index) => {
                storer.store_u8(1);
                storer.store_u32(brick_index);
            },
            None => {
                storer.store_u8(0);
            },
        }
        storer.store_u32(node.bounds.min.0);
        storer.store_u32(node.bounds.min.1);
        storer.store_u32(node.bounds.min.2);
        storer.store_u32(node.bounds.max.0);
        storer.store_u32(node.bounds.max.1);
        storer.store_u32(node.bounds.max.2);
        assert(storer.v@ =~= old(storer).v@ + node_head_bytes(node@));
        if !node.is_leaf {
            let mut mask_sum: u16 = 0;
            let mut weight: u16 = 1;
            let mut i: usize = 0;
            while i < 8
                invariant
                    i <= 8,
                    node.children.len() == 8,
                    node@.children == slot_models(node.children@),
                    weight == (if i < 8 {
                        bit_weight(i as int)
                    } else {
                        256
                    }),
                    mask_sum == child_mask_upto(node@.children, i as int),
                decreases 8 - i,
            {
                if node.children[i].is_some() {
                    mask_sum = mask_sum + weight;
                }
                weight = weight * 2;
                i += 1;
            }
            storer.store_u8(mask_sum as u8);
            let ghost head = storer.v@;
            assert(head =~= old(storer).v@ + node_head_bytes(node@) + seq![child_mask(node@.children)]);
            assert(storer.v@ =~= head + encode_children(node@, 0));
            let mut k: usize = 0;
            while k < 8
                invariant
                    k <= 8,
                    node.children.len() == 8,
                    node@.shaped(),
                    node@.children == slot_models(node.children@),
                    storer.v@ == head + encode_children(node@, k as int),
                decreases 8 - k,
            {
                let ghost before = storer.v@;
                match &node.children[k] {
                    Some(child_node) => {
                        assert(node@.children[k as int] == Some(child_node@));
                        self.serialize_node(child_node, storer);
                    },
                    None => {
                        assert(node@.children[k as int] is None);
                    },
                }
                k += 1;
                assert(storer.v@ =~= head + encode_children(node@, k as int));
            }
            assert(storer.v@ =~= old(storer).v@ + encode_node(node@));
        }
    }

    /// Reads the record of a node over `bounds`, and of its subtree, at the
    /// loader's position. The bounds stored in a record are skipped: each
    /// child lies over the octant of `bounds` that its slot names. Where the
    /// input ends before the record does, nothing is returned and the position
    /// is left wherever reading stopped.
    #[verifier::loop_isolation(false)]
    pub fn deserialize_node(loader: &mut Loader, bytes: &[u8], bounds: BoundingBox) -> (result: Option<
        OctreeNode,
    >)
        ensures
            match result {
                Some(node) => parse_node(bytes@, old(loader).pos as int, bounds) == Some(
                    (node@, (final(loader).pos - old(loader).pos) as nat),
                ) && old(loader).pos <= final(loader).pos <= bytes.len() && node@.shaped(),
                None => parse_node(bytes@, old(loader).pos as int, bounds) is None,
            },
        decreases remaining(bytes@, old(loader).pos as int),
    {
        proof {
            crate::codec_laws::lemma_parsed_node_ok(bytes@, loader.pos as int, bounds);
        }
        let ghost start = loader.pos as int;
        if !loader.remaining_at_least(bytes, 2) {
            return None;
        }
        let is_leaf = loader.load_u8(bytes).unwrap() != 0;
        let has_brick = loader.load_u8(bytes).unwrap() != 0;
        let brick_index = if has_brick {
            match loader.load_u32(bytes) {
                Some(index) => Some(index),
                None => {
                    return None;
                },
            }
        } else {
            None
        };
        if !loader.remaining_at_least(bytes, 24) {
            return None;
        }
        loader.pos += 24;
        let mut node = OctreeNode::new(bounds);
        proof {
            node.lemma_model_slots();
        }
        node.brick_index = brick_index;
        node.is_leaf = is_leaf;
        proof {
            node.lemma_model_slots();
        }
        if is_leaf {
            assert(node@.children =~= no_children());
            return Some(node);
        }
        let mask = match loader.load_u8(bytes) {
            Some(mask) => mask,
            None => {
                return None;
            },
        };
        let ghost first = loader.pos as int;
        let mut children: Vec<Option<Box<OctreeNode>>> = Vec::new();
        let mut weight: u16 = 1;
        let mut i: usize = 0;
        assert(slot_models(children@) =~= Seq::empty());
        while i < 8
            invariant
                i <= 8,
                first == start + head_len(has_brick) + 1,
                0 <= start,
                first <= loader.pos <= bytes.len(),
                children.len() == i,
                weight == (if i < 8 {
                    bit_weight(i as int)
                } else {
                    256
                }),
                parse_children(bytes@, first, bounds, mask, i as int) == Some(
                    (slot_models(children@), (loader.pos - first) as nat),
                ),
            decreases 8 - i,
        {
            let ghost slots_before = slot_models(children@);
            if (mask as u16 / weight) % 2 == 1 {
                let child_bounds = bounds.child_bounds(i);
                match Self::deserialize_node(loader, bytes, child_bounds) {
                    Some(child_node) => {
                        let ghost child_model = child_node@;
                        children.push(Some(Box::new(child_node)));
                        assert(slot_models(children@) =~= slots_before.push(Some(child_model)));
                    },
                    None => {
                        proof {
                            lemma_parse_children_fails(bytes@, first, bounds, mask, i as int + 1, 8);
                        }
                        return None;
                    },
                }
            } else {
                children.push(None);
                assert(slot_models(children@) =~= slots_before.push(None));
            }
            weight = weight * 2;
            i += 1;
        }
        node.children = children;
        proof {
            node.lemma_model_slots();
        }
        Some(node)
    }

    /// The persisted form of the octree.
    pub fn save(&self) -> (bytes: Vec<u8>)
        requires
            self@.root.shaped(),
        ensures
            bytes@ == encode(self@),
    {
        let mut storer = StorerVec::new();
        storer.store_u32(self.header.dim.0);
        storer.store_u32(self.header.dim.1);
        storer.store_u32(self.header.dim.2);
        storer.store_u32(self.header.box_min.0);
        storer.store_u32(self.header.box_min.1);
        storer.store_u32(self.header.box_min.2);
        storer.store_u32(self.header.dx);
        storer.store_u32(self.brick_size);
        storer.store_u32(((self.bricks.len() as u64) % 0x1_0000_0000u64) as u32);
        let ghost head = storer.v@;
        let ghost models = bricks_model(self.bricks@);
        assert(head =~= header_bytes(self.header, self.brick_size) + u32_bytes(
            next_index(models.len()),
        ));
        assert(storer.v@ =~= head + bricks_bytes(models, 0));
        let mut i: usize = 0;
        while i < self.bricks.len()
            invariant
                i <= self.bricks.len(),
                models == bricks_model(self.bricks@),
                storer.v@ == head + bricks_bytes(models, i as int),
            decreases self.bricks.len() - i,
        {
            let brick = &self.bricks[i];
            let ghost before = storer.v@;
            storer.store_u32(brick.size);
            storer.store_u32(brick.position.0);
            storer.store_u32(brick.position.1);
            storer.store_u32(brick.position.2);
            storer.store_array_u16(&brick.data);
            assert(storer.v@ =~= before + brick_bytes(models[i as int]));
            i += 1;
            assert(storer.v@ =~= head + bricks_bytes(models, i as int));
        }
        self.serialize_node(&self.root, &mut storer);
        storer.v
    }

    /// Reads an octree from its persisted form; nothing where the input ends
    /// before the last record does.
    #[verifier::loop_isolation(false)]
    pub fn load(bytes: &[u8]) -> (result: Option<Self>)
        ensures
            match result {
                Some(svo) => decode(bytes@) == Some(svo@) && svo@.root.shaped(),
                None => decode(bytes@) is None,
            },
    {
        proof {
            crate::codec_laws::lemma_decoded_ok(bytes@);
        }
        let mut loader = Loader::new();
        if !loader.remaining_at_least(bytes, 36) {
            return None;
        }
        let dim_x = loader.load_u32(bytes).unwrap();
        let dim_y = loader.load_u32(bytes).unwrap();
        let dim_z = loader.load_u32(bytes).unwrap();
        let min_x = loader.load_u32(bytes).unwrap();
        let min_y = loader.load_u32(bytes).unwrap();
        let min_z = loader.load_u32(bytes).unwrap();
        let dx = loader.load_u32(bytes).unwrap();
        let header = SdfHeader { dim: (dim_x, dim_y, dim_z), box_min: (min_x, min_y, min_z), dx };
        let brick_size = loader.load_u32(bytes).unwrap();
        let brick_count = loader.load_u32(bytes).unwrap();
        let mut bricks: Vec<Brick> = Vec::new();
        assert(bricks_model(bricks@) =~= Seq::empty());
        let mut i: u32 = 0;
        while i < brick_count
            invariant
                i <= brick_count,
                36 <= loader.pos <= bytes.len(),
                parse_bricks(bytes@, 36, i as int) == Some(
                    (bricks_model(bricks@), (loader.pos - 36) as nat),
                ),
            decreases brick_count - i,
        {
            let ghost before = bricks_model(bricks@);
            match load_brick(&mut loader, bytes) {
                Some(brick) => {
                    let ghost model = brick@;
                    bricks.push(brick);
                    assert(bricks_model(bricks@) =~= before.push(model));
                },
                None => {
                    proof {
                        lemma_parse_bricks_fails(bytes@, 36, i as int + 1, brick_count as int);
                    }
                    return None;
                },
            }
            i += 1;
        }
        let bounds = BoundingBox::new((0, 0, 0), header.dim);
        match Self::deserialize_node(&mut loader, bytes, bounds) {
            Some(root) => Some(SvoSdf { header, root, bricks, brick_size }),
            None => None,
        }
    }
}

} // verus!
