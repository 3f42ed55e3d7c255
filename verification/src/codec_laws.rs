//! Reading back what was written: the persisted form of an octree determines
//! the octree.

use vstd::prelude::*;
use crate::bounds::BoundingBox;
use crate::brick::BrickModel;
use crate::build_laws::{all_bricks_wf, lemma_built_wf};
use crate::builder::{next_index, root_bounds};
use crate::codec::{
    bounds_bytes, brick_bytes, bricks_bytes, child_mask, child_mask_upto, decode, encode,
    encode_children, encode_node, flag_byte, head_len, header_bytes, mask_bit, node_head_bytes,
    parse_brick, parse_bricks, parse_children, parse_header, parse_node, remaining, slot_bit,
};
use crate::octree::{NodeModel, no_children};
use crate::sdf::{Sdf, SdfHeader};
use crate::serialization::{
    holds_at, lemma_holds_at_concat, lemma_holds_at_inside, lemma_holds_at_self, lemma_read_u16s,
    lemma_read_u32, lemma_read_u8, lemma_u16s_len, lemma_word_len, read_u32, u16s_bytes, u32_bytes,
};
use crate::svosdf::SvoModel;

verus! {

/// Whether the record of the subtree says all there is to say of it: every
/// node has eight slots and a leaf has no children.
pub open spec fn recordable(node: NodeModel) -> bool
    decreases node,
{
    &&& node.children.len() == 8
    &&& node.is_leaf ==> forall|i: int| 0 <= i < 8 ==> (#[trigger] node.children[i]) is None
    &&& forall|i: int|
        0 <= i < 8 && (#[trigger] node.children[i]) is Some ==> recordable(node.children[i]->Some_0)
}

/// A well-formed subtree is recordable.
pub proof fn lemma_wf_recordable(node: NodeModel)
    requires
        node.wf(),
    ensures
        recordable(node),
    decreases node,
{
    assert forall|i: int| 0 <= i < 8 && (#[trigger] node.children[i]) is Some implies recordable(
        node.children[i]->Some_0,
    ) by {
        lemma_wf_recordable(node.children[i]->Some_0);
    }
    if node.is_leaf {
        assert forall|i: int| 0 <= i < 8 implies (#[trigger] node.children[i]) is None by {
            assert(!node.has_child(i));
        }
    }
}

/// In a number made of a part below `weight`, one binary digit at `weight`
/// and a part above it, dividing by `weight` brings that digit to the lowest
/// place.
pub proof fn lemma_digit_of_sum(low: int, digit: int, high: int, weight: int)
    requires
        0 < weight,
        0 <= low < weight,
        digit == 0 || digit == 1,
        0 <= high,
    ensures
        ((low + weight * digit + 2 * weight * high) / weight) % 2 == digit,
{
    let x = low + weight * digit + 2 * weight * high;
    let q = digit + 2 * high;
    assert(x == q * weight + low) by (nonlinear_arith)
        requires
            x == low + weight * digit + 2 * weight * high,
            q == digit + 2 * high,
    ;
    vstd::arithmetic::div_mod::lemma_fundamental_div_mod_converse(x, weight, q, low);
    vstd::arithmetic::div_mod::lemma_fundamental_div_mod_converse(q, 2, high, digit);
}

/// Every node that can be read from an input is recordable and lies over the
/// box it was read for, and each of its children over the octant that its slot
/// names.
pub proof fn lemma_parsed_node_ok(bytes: Seq<u8>, pos: int, bounds: BoundingBox)
    ensures
        parse_node(bytes, pos, bounds) is Some ==> {
            let node = parse_node(bytes, pos, bounds)->Some_0.0;
            &&& recordable(node)
            &&& node.shaped()
            &&& node.bounds == bounds
            &&& node.bounds_consistent()
        },
    decreases remaining(bytes, pos), 0int,
{
    if parse_node(bytes, pos, bounds) is Some {
        let node = parse_node(bytes, pos, bounds)->Some_0.0;
        if !node.is_leaf {
            let has_brick = bytes[pos + 1] != 0;
            let head = head_len(has_brick);
            lemma_parsed_children_ok(bytes, pos + head + 1, bounds, bytes[pos + head], 8);
        }
    }
}

/// Every run of child slots that can be read from an input holds recordable
/// subtrees over the octants that the slots name.
pub proof fn lemma_parsed_children_ok(bytes: Seq<u8>, pos: int, bounds: BoundingBox, mask: u8, n: int)
    requires
        0 <= n <= 8,
    ensures
        parse_children(bytes, pos, bounds, mask, n) is Some ==> {
            let slots = parse_children(bytes, pos, bounds, mask, n)->Some_0.0;
            &&& slots.len() == n
            &&& forall|i: int|
                0 <= i < n && (#[trigger] slots[i]) is Some ==> {
                    &&& recordable(slots[i]->Some_0)
                    &&& slots[i]->Some_0.shaped()
                    &&& slots[i]->Some_0.bounds == bounds.spec_child_bounds(i)
                    &&& slots[i]->Some_0.bounds_consistent()
                }
        },
    decreases remaining(bytes, pos), n,
{
    if n > 0 && parse_children(bytes, pos, bounds, mask, n) is Some {
        lemma_parsed_children_ok(bytes, pos, bounds, mask, n - 1);
        let before = parse_children(bytes, pos, bounds, mask, n - 1)->Some_0;
        if mask_bit(mask, n - 1) {
            lemma_parsed_node_ok(bytes, pos + before.1, bounds.spec_child_bounds(n - 1));
        }
    }
}

/// Every octree that can be decoded from an input has a recordable tree over
/// the whole grid.
pub proof fn lemma_decoded_ok(bytes: Seq<u8>)
    ensures
        decode(bytes) is Some ==> {
            let svo = decode(bytes)->Some_0;
            &&& recordable(svo.root)
            &&& svo.root.shaped()
            &&& svo.root.bounds == root_bounds(svo.header.dim)
            &&& svo.root.bounds_consistent()
        },
{
    if decode(bytes) is Some {
        let header = parse_header(bytes);
        let bricks = parse_bricks(bytes, 36, read_u32(bytes, 32) as int)->Some_0;
        lemma_parsed_node_ok(bytes, 36 + bricks.1 as int, root_bounds(header.dim));
    }
}

/// The child mask fits in a byte, and bit `i` of it is set exactly if slot `i`
/// holds a child.
pub proof fn lemma_child_mask_bits(children: Seq<Option<NodeModel>>, i: int)
    requires
        children.len() == 8,
        0 <= i < 8,
    ensures
        0 <= child_mask_upto(children, 8) <= 255,
        mask_bit(child_mask(children), i) == (children[i] is Some),
{
    let c0: int = if children[0] is Some { 1 } else { 0 };
    let c1: int = if children[1] is Some { 1 } else { 0 };
    let c2: int = if children[2] is Some { 1 } else { 0 };
    let c3: int = if children[3] is Some { 1 } else { 0 };
    let c4: int = if children[4] is Some { 1 } else { 0 };
    let c5: int = if children[5] is Some { 1 } else { 0 };
    let c6: int = if children[6] is Some { 1 } else { 0 };
    let c7: int = if children[7] is Some { 1 } else { 0 };
    let m = child_mask_upto(children, 8);
    assert(slot_bit(children, 0, 8) == c0);
    assert(slot_bit(children, 1, 8) == 2 * c1);
    assert(slot_bit(children, 2, 8) == 4 * c2);
    assert(slot_bit(children, 3, 8) == 8 * c3);
    assert(slot_bit(children, 4, 8) == 16 * c4);
    assert(slot_bit(children, 5, 8) == 32 * c5);
    assert(slot_bit(children, 6, 8) == 64 * c6);
    assert(slot_bit(children, 7, 8) == 128 * c7);
    assert(m == c0 + 2 * c1 + 4 * c2 + 8 * c3 + 16 * c4 + 32 * c5 + 64 * c6 + 128 * c7);
    assert(child_mask(children) as int == m);
    if i == 0 {
        lemma_digit_of_sum(0, c0, c1 + 2 * c2 + 4 * c3 + 8 * c4 + 16 * c5 + 32 * c6 + 64 * c7, 1);
    } else if i == 1 {
        lemma_digit_of_sum(c0, c1, c2 + 2 * c3 + 4 * c4 + 8 * c5 + 16 * c6 + 32 * c7, 2);
    } else if i == 2 {
        lemma_digit_of_sum(c0 + 2 * c1, c2, c3 + 2 * c4 + 4 * c5 + 8 * c6 + 16 * c7, 4);
    } else if i == 3 {
        lemma_digit_of_sum(c0 + 2 * c1 + 4 * c2, c3, c4 + 2 * c5 + 4 * c6 + 8 * c7, 8);
    } else if i == 4 {
        lemma_digit_of_sum(c0 + 2 * c1 + 4 * c2 + 8 * c3, c4, c5 + 2 * c6 + 4 * c7, 16);
    } else if i == 5 {
        lemma_digit_of_sum(c0 + 2 * c1 + 4 * c2 + 8 * c3 + 16 * c4, c5, c6 + 2 * c7, 32);
    } else if i == 6 {
        lemma_digit_of_sum(c0 + 2 * c1 + 4 * c2 + 8 * c3 + 16 * c4 + 32 * c5, c6, c7, 64);
    } else {
        lemma_digit_of_sum(c0 + 2 * c1 + 4 * c2 + 8 * c3 + 16 * c4 + 32 * c5 + 64 * c6, c7, 0, 128);
    }
}

/// The fixed part of a node's record is 26 bytes long without a brick index
/// and 30 with one.
pub proof fn lemma_node_head_len(node: NodeModel)
    ensures
        node_head_bytes(node).len() == head_len(node.brick_index is Some),
{
    lemma_word_len(0, node.bounds.min.0);
    lemma_word_len(0, node.bounds.min.1);
    lemma_word_len(0, node.bounds.min.2);
    lemma_word_len(0, node.bounds.max.0);
    lemma_word_len(0, node.bounds.max.1);
    lemma_word_len(0, node.bounds.max.2);
    if node.brick_index is Some {
        lemma_word_len(0, node.brick_index->Some_0);
    }
}

/// Where the fixed part of a node's record stands at `pos`, the two flag
/// bytes and the brick index can be read back from there.
pub proof fn lemma_read_node_head(bytes: Seq<u8>, pos: int, node: NodeModel)
    requires
        holds_at(bytes, pos, node_head_bytes(node)),
    ensures
        pos >= 0,
        pos + head_len(node.brick_index is Some) <= bytes.len(),
        (bytes[pos] != 0) == node.is_leaf,
        (bytes[pos + 1] != 0) == (node.brick_index is Some),
        node.brick_index is Some ==> read_u32(bytes, pos + 2) == node.brick_index->Some_0,
{
    let flags = seq![flag_byte(node.is_leaf), flag_byte(node.brick_index is Some)];
    let index = match node.brick_index {
        Some(index) => u32_bytes(index),
        None => Seq::empty(),
    };
    lemma_node_head_len(node);
    lemma_holds_at_inside(bytes, pos, node_head_bytes(node));
    lemma_holds_at_concat(bytes, pos, flags + index, bounds_bytes(node.bounds));
    lemma_holds_at_concat(bytes, pos, flags, index);
    assert(flags =~= seq![flag_byte(node.is_leaf)] + seq![flag_byte(node.brick_index is Some)]);
    lemma_holds_at_concat(
        bytes,
        pos,
        seq![flag_byte(node.is_leaf)],
        seq![flag_byte(node.brick_index is Some)],
    );
    lemma_read_u8(bytes, pos, flag_byte(node.is_leaf));
    lemma_read_u8(bytes, pos + 1, flag_byte(node.brick_index is Some));
    if node.brick_index is Some {
        lemma_read_u32(bytes, pos + 2, node.brick_index->Some_0);
    }
}

/// Where the record of a recordable subtree stands at `pos`, reading a node
/// over `bounds` there gives that subtree laid over `bounds`, and ends where
/// the record ends.
pub proof fn lemma_parse_encoded_node(bytes: Seq<u8>, pos: int, node: NodeModel, bounds: BoundingBox)
    requires
        recordable(node),
        holds_at(bytes, pos, encode_node(node)),
    ensures
        parse_node(bytes, pos, bounds) == Some((node.rebound(bounds), encode_node(node).len())),
    decreases node, 9int,
{
    let head = node_head_bytes(node);
    lemma_node_head_len(node);
    node.lemma_rebound_children(bounds, 8);
    if node.is_leaf {
        lemma_read_node_head(bytes, pos, node);
        assert(node.rebound(bounds).children =~= no_children());
    } else {
        let mask = seq![child_mask(node.children)];
        let rest = encode_children(node, 8);
        lemma_holds_at_concat(bytes, pos, head + mask, rest);
        lemma_holds_at_concat(bytes, pos, head, mask);
        lemma_read_node_head(bytes, pos, node);
        lemma_read_u8(bytes, pos + head.len(), child_mask(node.children));
        lemma_parse_encoded_children(bytes, pos + head.len() + 1, node, bounds, 8);
    }
}

/// Where the records of the children in the first `n` slots stand at `pos`,
/// reading `n` slots under `bounds` with the node's child mask gives those
/// children laid over the octants of `bounds`.
pub proof fn lemma_parse_encoded_children(
    bytes: Seq<u8>,
    pos: int,
    node: NodeModel,
    bounds: BoundingBox,
    n: int,
)
    requires
        recordable(node),
        0 <= n <= 8,
        holds_at(bytes, pos, encode_children(node, n)),
    ensures
        parse_children(bytes, pos, bounds, child_mask(node.children), n) == Some(
            (node.rebound_children(bounds, n), encode_children(node, n).len()),
        ),
    decreases node, n,
{
    if n > 0 {
        let before = encode_children(node, n - 1);
        let last = if node.children[n - 1] is Some {
            encode_node(node.children[n - 1]->Some_0)
        } else {
            Seq::empty()
        };
        lemma_holds_at_concat(bytes, pos, before, last);
        lemma_parse_encoded_children(bytes, pos, node, bounds, n - 1);
        lemma_child_mask_bits(node.children, n - 1);
        if node.children[n - 1] is Some {
            lemma_parse_encoded_node(
                bytes,
                pos + before.len(),
                node.children[n - 1]->Some_0,
                bounds.spec_child_bounds(n - 1),
            );
        }
    } else {
        assert(node.rebound_children(bounds, 0) =~= Seq::empty());
    }
}

/// The record of a brick is 16 bytes and two bytes per sample long.
pub proof fn lemma_brick_bytes_len(brick: BrickModel)
    ensures
        brick_bytes(brick).len() == 16 + 2 * brick.data.len(),
{
    lemma_u16s_len(brick.data, brick.data.len() as int);
    lemma_word_len(0, brick.size);
    lemma_word_len(0, brick.position.0);
    lemma_word_len(0, brick.position.1);
    lemma_word_len(0, brick.position.2);
}

/// Where the record of a well-formed brick stands at `pos`, reading a brick
/// there gives that brick and ends where the record ends.
pub proof fn lemma_parse_encoded_brick(bytes: Seq<u8>, pos: int, brick: BrickModel)
    requires
        brick.wf(),
        holds_at(bytes, pos, brick_bytes(brick)),
    ensures
        parse_brick(bytes, pos) == Some((brick, brick_bytes(brick).len())),
{
    lemma_brick_bytes_len(brick);
    lemma_word_len(0, brick.size);
    lemma_word_len(0, brick.position.0);
    lemma_word_len(0, brick.position.1);
    lemma_word_len(0, brick.position.2);
    lemma_holds_at_inside(bytes, pos, brick_bytes(brick));
    let s = u32_bytes(brick.size);
    let p0 = u32_bytes(brick.position.0);
    let p1 = u32_bytes(brick.position.1);
    let p2 = u32_bytes(brick.position.2);
    let d = u16s_bytes(brick.data, brick.data.len() as int);
    lemma_holds_at_concat(bytes, pos, s + p0 + p1 + p2, d);
    lemma_holds_at_concat(bytes, pos, s + p0 + p1, p2);
    lemma_holds_at_concat(bytes, pos, s + p0, p1);
    lemma_holds_at_concat(bytes, pos, s, p0);
    lemma_read_u32(bytes, pos, brick.size);
    lemma_read_u32(bytes, pos + 4, brick.position.0);
    lemma_read_u32(bytes, pos + 8, brick.position.1);
    lemma_read_u32(bytes, pos + 12, brick.position.2);
    lemma_read_u16s(bytes, pos + 16, brick.data, brick.data.len() as int);
    assert(brick.data.take(brick.data.len() as int) =~= brick.data);
    let parsed = parse_brick(bytes, pos)->Some_0.0;
    assert(parsed.data == brick.data);
    assert(parsed.position == brick.position);
}

/// Where the records of the first `n` bricks of a well-formed collection
/// stand at `pos`, reading `n` bricks there gives those bricks.
pub proof fn lemma_parse_encoded_bricks(bytes: Seq<u8>, pos: int, bricks: Seq<BrickModel>, n: int)
    requires
        all_bricks_wf(bricks),
        0 <= n <= bricks.len(),
        holds_at(bytes, pos, bricks_bytes(bricks, n)),
    ensures
        parse_bricks(bytes, pos, n) == Some((bricks.take(n), bricks_bytes(bricks, n).len())),
    decreases n,
{
    if n > 0 {
        let before = bricks_bytes(bricks, n - 1);
        lemma_holds_at_concat(bytes, pos, before, brick_bytes(bricks[n - 1]));
        lemma_parse_encoded_bricks(bytes, pos, bricks, n - 1);
        lemma_parse_encoded_brick(bytes, pos + before.len(), bricks[n - 1]);
        assert(bricks.take(n) =~= bricks.take(n - 1).push(bricks[n - 1]));
    } else {
        assert(bricks.take(0) =~= Seq::empty());
    }
}

/// The header section is 32 bytes long.
pub proof fn lemma_header_len(header: SdfHeader, brick_size: u32)
    ensures
        header_bytes(header, brick_size).len() == 32,
{
    lemma_word_len(0, header.dim.0);
    lemma_word_len(0, header.dim.1);
    lemma_word_len(0, header.dim.2);
    lemma_word_len(0, header.box_min.0);
    lemma_word_len(0, header.box_min.1);
    lemma_word_len(0, header.box_min.2);
    lemma_word_len(0, header.dx);
    lemma_word_len(0, brick_size);
}

/// Where the header section stands at the start of the input, the header and
/// the brick size can be read back.
pub proof fn lemma_read_header(bytes: Seq<u8>, header: SdfHeader, brick_size: u32)
    requires
        holds_at(bytes, 0, header_bytes(header, brick_size)),
    ensures
        parse_header(bytes) == header,
        read_u32(bytes, 28) == brick_size,
        header_bytes(header, brick_size).len() == 32,
{
    let w0 = u32_bytes(header.dim.0);
    let w1 = u32_bytes(header.dim.1);
    let w2 = u32_bytes(header.dim.2);
    let w3 = u32_bytes(header.box_min.0);
    let w4 = u32_bytes(header.box_min.1);
    let w5 = u32_bytes(header.box_min.2);
    let w6 = u32_bytes(header.dx);
    let w7 = u32_bytes(brick_size);
    lemma_word_len(0, header.dim.0);
    lemma_word_len(0, header.dim.1);
    lemma_word_len(0, header.dim.2);
    lemma_word_len(0, header.box_min.0);
    lemma_word_len(0, header.box_min.1);
    lemma_word_len(0, header.box_min.2);
    lemma_word_len(0, header.dx);
    lemma_word_len(0, brick_size);
    lemma_holds_at_concat(bytes, 0, w0 + w1 + w2 + w3 + w4 + w5 + w6, w7);
    lemma_holds_at_concat(bytes, 0, w0 + w1 + w2 + w3 + w4 + w5, w6);
    lemma_holds_at_concat(bytes, 0, w0 + w1 + w2 + w3 + w4, w5);
    lemma_holds_at_concat(bytes, 0, w0 + w1 + w2 + w3, w4);
    lemma_holds_at_concat(bytes, 0, w0 + w1 + w2, w3);
    lemma_holds_at_concat(bytes, 0, w0 + w1, w2);
    lemma_holds_at_concat(bytes, 0, w0, w1);
    lemma_read_u32(bytes, 0, header.dim.0);
    lemma_read_u32(bytes, 4, header.dim.1);
    lemma_read_u32(bytes, 8, header.dim.2);
    lemma_read_u32(bytes, 12, header.box_min.0);
    lemma_read_u32(bytes, 16, header.box_min.1);
    lemma_read_u32(bytes, 20, header.box_min.2);
    lemma_read_u32(bytes, 24, header.dx);
    lemma_read_u32(bytes, 28, brick_size);
    let parsed = parse_header(bytes);
    assert(parsed.dim == header.dim);
    assert(parsed.box_min == header.box_min);
}

/// Where the persisted form of an octree stands at the start of the input,
/// its four sections stand one behind the other: the header section of 32
/// bytes, the brick count, the brick records and the tree.
pub proof fn lemma_sections(bytes: Seq<u8>, svo: SvoModel)
    requires
        holds_at(bytes, 0, encode(svo)),
    ensures
        bytes.len() >= 36,
        holds_at(bytes, 0, header_bytes(svo.header, svo.brick_size)),
        holds_at(bytes, 32, u32_bytes(next_index(svo.bricks.len()))),
        holds_at(bytes, 36, bricks_bytes(svo.bricks, svo.bricks.len() as int)),
        holds_at(
            bytes,
            36 + bricks_bytes(svo.bricks, svo.bricks.len() as int).len() as int,
            encode_node(svo.root),
        ),
{
    let head = header_bytes(svo.header, svo.brick_size);
    let count = u32_bytes(next_index(svo.bricks.len()));
    let records = bricks_bytes(svo.bricks, svo.bricks.len() as int);
    let tree = encode_node(svo.root);
    lemma_header_len(svo.header, svo.brick_size);
    lemma_word_len(0, next_index(svo.bricks.len()));
    lemma_holds_at_concat(bytes, 0, head + count + records, tree);
    lemma_holds_at_concat(bytes, 0, head + count, records);
    lemma_holds_at_concat(bytes, 0, head, count);
    lemma_holds_at_inside(bytes, 0, head + count);
}

/// Where the persisted form of an octree with fewer than 2^32 well-formed
/// bricks and a recordable tree stands at the start of the input, each
/// section can be read back.
#[verifier::rlimit(40)]
pub proof fn lemma_read_sections(bytes: Seq<u8>, svo: SvoModel)
    requires
        recordable(svo.root),
        all_bricks_wf(svo.bricks),
        svo.bricks.len() < 0x1_0000_0000,
        holds_at(bytes, 0, encode(svo)),
    ensures
        bytes.len() >= 36,
        parse_header(bytes) == svo.header,
        read_u32(bytes, 28) == svo.brick_size,
        read_u32(bytes, 32) == svo.bricks.len(),
        parse_bricks(bytes, 36, svo.bricks.len() as int) == Some(
            (svo.bricks, bricks_bytes(svo.bricks, svo.bricks.len() as int).len()),
        ),
        parse_node(
            bytes,
            36 + bricks_bytes(svo.bricks, svo.bricks.len() as int).len() as int,
            root_bounds(svo.header.dim),
        ) == Some((svo.root.rebound(root_bounds(svo.header.dim)), encode_node(svo.root).len())),
{
    let records = bricks_bytes(svo.bricks, svo.bricks.len() as int);
    let count = svo.bricks.len() as int;
    let root = root_bounds(svo.header.dim);
    lemma_sections(bytes, svo);
    assert(parse_header(bytes) == svo.header && read_u32(bytes, 28) == svo.brick_size) by {
        lemma_read_header(bytes, svo.header, svo.brick_size);
    }
    assert(read_u32(bytes, 32) == svo.bricks.len()) by {
        lemma_read_u32(bytes, 32, next_index(svo.bricks.len()));
    }
    assert(parse_bricks(bytes, 36, count) == Some((svo.bricks, records.len()))) by {
        lemma_parse_encoded_bricks(bytes, 36, svo.bricks, count);
        assert(svo.bricks.take(count) =~= svo.bricks);
    }
    assert(parse_node(bytes, 36 + records.len() as int, root) == Some(
        (svo.root.rebound(root), encode_node(svo.root).len()),
    )) by {
        lemma_parse_encoded_node(bytes, 36 + records.len() as int, svo.root, root);
    }
}

/// Any input that starts with the persisted form of an octree decodes to that
/// octree with every node's box derived from the grid dimensions, provided
/// that the tree is recordable, the bricks are well formed and there are
/// fewer than 2^32 of them.
#[verifier::rlimit(40)]
pub proof fn lemma_decode_encoded(bytes: Seq<u8>, svo: SvoModel)
    requires
        recordable(svo.root),
        all_bricks_wf(svo.bricks),
        svo.bricks.len() < 0x1_0000_0000,
        holds_at(bytes, 0, encode(svo)),
    ensures
        decode(bytes) == Some(
            SvoModel {
                header: svo.header,
                root: svo.root.rebound(root_bounds(svo.header.dim)),
                bricks: svo.bricks,
                brick_size: svo.brick_size,
            },
        ),
{
    lemma_read_sections(bytes, svo);
}

/// Saving a well-formed octree with fewer than 2^32 bricks and loading the
/// result gives the octree back: the same header, brick size, bricks and tree.
pub proof fn lemma_save_load_round_trip(svo: SvoModel)
    requires
        svo.wf(),
        svo.bricks.len() < 0x1_0000_0000,
    ensures
        decode(encode(svo)) == Some(svo),
{
    lemma_wf_recordable(svo.root);
    svo.root.lemma_rebound_same();
    lemma_holds_at_self(encode(svo));
    lemma_decode_encoded(encode(svo), svo);
}

/// Saving an octree that `from_sdf` built and loading the result gives the
/// octree back, as long as it keeps fewer than 2^32 bricks.
pub proof fn lemma_built_round_trip(sdf: Sdf, brick_size: u32, max_depth: u32, threshold: u16)
    requires
        SvoModel::built(sdf, brick_size, max_depth, threshold).bricks.len() < 0x1_0000_0000,
    ensures
        decode(encode(SvoModel::built(sdf, brick_size, max_depth, threshold))) == Some(
            SvoModel::built(sdf, brick_size, max_depth, threshold),
        ),
{
    lemma_built_wf(sdf, brick_size, max_depth, threshold);
    lemma_save_load_round_trip(SvoModel::built(sdf, brick_size, max_depth, threshold));
}

} // verus!
