use svo_sdf::bounds::BoundingBox;
use svo_sdf::octree::OctreeNode;
use svo_sdf::sdf::{Sdf, SdfHeader, LEVEL_ZERO};
use svo_sdf::svosdf::{SvoSdf, HEADER_FOOTPRINT, NODE_FOOTPRINT};

fn quantize(threshold: f32) -> u16 {
    (threshold * 65535.0).round() as u16
}

fn flat_volume(edge: u32, value: u16) -> Sdf {
    Sdf {
        header: SdfHeader { dim: (edge, edge, edge), box_min: (1.5f32.to_bits(), 0, 0), dx: 0.25f32.to_bits() },
        voxels: vec![value; (edge * edge * edge) as usize],
    }
}

fn absent_children(node: &OctreeNode) -> bool {
    node.children.len() == 8 && node.children.iter().all(|c| c.is_none())
}

#[test]
fn new_node_is_empty_and_not_a_leaf() {
    let node = OctreeNode::new(BoundingBox::new((0, 0, 0), (4, 4, 4)));
    assert!(node.is_empty());
    assert!(!node.is_leaf);
    assert!(node.brick_index.is_none());
    assert!(absent_children(&node));
    assert_eq!(node.bounds, BoundingBox::new((0, 0, 0), (4, 4, 4)));
}

#[test]
fn node_with_brick_or_child_is_not_empty() {
    let mut with_brick = OctreeNode::new(BoundingBox::new((0, 0, 0), (4, 4, 4)));
    with_brick.brick_index = Some(0);
    assert!(!with_brick.is_empty());
    let mut with_child = OctreeNode::new(BoundingBox::new((0, 0, 0), (4, 4, 4)));
    with_child.children[7] = Some(Box::new(with_brick));
    assert!(!with_child.is_empty());
}

#[test]
fn quantized_default_threshold() {
    assert_eq!(quantize(0.01), 655);
}

#[test]
fn flat_level_zero_volume_gives_bare_root_leaf() {
    let sdf = flat_volume(8, LEVEL_ZERO);
    assert!(sdf.is_valid());
    let svo = SvoSdf::from_sdf(&sdf, 8, 2, quantize(0.01));
    assert!(svo.root.is_leaf);
    assert!(svo.root.brick_index.is_none());
    assert!(absent_children(&svo.root));
    assert!(svo.bricks.is_empty());
    assert_eq!(svo.brick_size, 8);
    assert_eq!(svo.header, sdf.header);
    assert_eq!(svo.root.bounds, BoundingBox::new((0, 0, 0), (8, 8, 8)));

    let bytes = svo.save();
    assert_eq!(bytes.len(), 32 + 4 + 26);
    let tree = &bytes[36..];
    let mut expected = vec![1u8, 0u8];
    for word in [0u32, 0, 0, 8, 8, 8] {
        expected.extend_from_slice(&word.to_le_bytes());
    }
    assert_eq!(tree, &expected[..]);
}

#[test]
fn single_off_level_sample_keeps_one_child() {
    let mut sdf = flat_volume(16, LEVEL_ZERO);
    sdf.voxels[8 + 8 * 16 + 8 * 256] = LEVEL_ZERO + 1000;
    let svo = SvoSdf::from_sdf(&sdf, 8, 1, quantize(0.01));
    assert!(!svo.root.is_leaf);
    assert!(svo.root.brick_index.is_none());
    let present: Vec<usize> = (0..8).filter(|&i| svo.root.children[i].is_some()).collect();
    assert_eq!(present, vec![7]);
    let child = svo.root.children[7].as_ref().unwrap();
    assert!(child.is_leaf);
    assert_eq!(child.brick_index, Some(0));
    assert!(absent_children(child));
    assert_eq!(child.bounds, BoundingBox::new((8, 8, 8), (16, 16, 16)));
    assert_eq!(svo.bricks.len(), 1);
    assert_eq!(svo.bricks[0].size, 8);
    assert_eq!(svo.bricks[0].position, (8, 8, 8));
    assert_eq!(svo.bricks[0].data.len(), 512);
    assert_eq!(svo.bricks[0].data[0], LEVEL_ZERO + 1000);
    assert!(svo.bricks[0].data[1..].iter().all(|&v| v == LEVEL_ZERO));

    let bytes = svo.save();
    let tree_start = 36 + 16 + 2 * 512;
    assert_eq!(bytes[tree_start], 0);
    assert_eq!(bytes[tree_start + 1], 0);
    assert_eq!(bytes[tree_start + 26], 0x80);
    assert_eq!(bytes.len(), tree_start + 27 + 30);
}

#[test]
fn uniform_volume_is_fully_pruned_at_any_depth() {
    for max_depth in [1u32, 2, 5, 12] {
        for value in [0u16, LEVEL_ZERO, 65535] {
            let sdf = flat_volume(16, value);
            let svo = SvoSdf::from_sdf(&sdf, 4, max_depth, quantize(0.01));
            assert!(svo.root.brick_index.is_none());
            assert!(absent_children(&svo.root));
            assert!(svo.root.is_empty());
            assert!(svo.bricks.is_empty());
        }
    }
}

#[test]
fn uniform_volume_off_level_keeps_overhanging_root_brick() {
    let sdf = Sdf {
        header: SdfHeader { dim: (4, 8, 8), box_min: (0, 0, 0), dx: 0 },
        voxels: vec![0u16; 4 * 8 * 8],
    };
    let svo = SvoSdf::from_sdf(&sdf, 8, 3, quantize(0.01));
    assert!(svo.root.is_leaf);
    assert_eq!(svo.root.brick_index, Some(0));
    assert_eq!(svo.bricks.len(), 1);
    assert_eq!(svo.bricks[0].data.len(), 512);
    assert_eq!(svo.bricks[0].data[3], 0);
    assert_eq!(svo.bricks[0].data[4], LEVEL_ZERO);
}

#[test]
fn depth_zero_makes_the_root_a_leaf() {
    let mut sdf = flat_volume(16, LEVEL_ZERO);
    sdf.voxels[0] = 0;
    let svo = SvoSdf::from_sdf(&sdf, 8, 0, 655);
    assert!(svo.root.is_leaf);
    assert_eq!(svo.root.brick_index, Some(0));
    assert_eq!(svo.bricks[0].size, 8);
    assert_eq!(svo.bricks[0].position, (0, 0, 0));
}

#[test]
fn brick_indices_follow_append_order() {
    let mut sdf = flat_volume(16, LEVEL_ZERO);
    sdf.voxels[0] = 0;
    sdf.voxels[15 + 15 * 16 + 15 * 256] = 65535;
    sdf.voxels[15] = 1;
    let svo = SvoSdf::from_sdf(&sdf, 8, 1, 655);
    let present: Vec<usize> = (0..8).filter(|&i| svo.root.children[i].is_some()).collect();
    assert_eq!(present, vec![0, 1, 7]);
    assert_eq!(svo.root.children[0].as_ref().unwrap().brick_index, Some(0));
    assert_eq!(svo.root.children[1].as_ref().unwrap().brick_index, Some(1));
    assert_eq!(svo.root.children[7].as_ref().unwrap().brick_index, Some(2));
    assert_eq!(svo.bricks.len(), 3);
    assert_eq!(svo.bricks[1].position, (8, 0, 0));
    assert_eq!(svo.count_nodes(&svo.root), 4);
    assert_eq!(svo.calculate_memory_usage(), HEADER_FOOTPRINT + 4 * NODE_FOOTPRINT + 3 * 512 * 2);
}

#[test]
fn memory_usage_of_bare_root() {
    let sdf = flat_volume(8, LEVEL_ZERO);
    let svo = SvoSdf::from_sdf(&sdf, 8, 2, 655);
    assert_eq!(svo.count_nodes(&svo.root), 1);
    assert_eq!(svo.calculate_memory_usage(), 28 + 104);
}

#[test]
fn parent_whose_children_all_come_out_empty_is_empty() {
    let mut sdf = flat_volume(16, LEVEL_ZERO);
    sdf.voxels[5 + 5 * 16 + 5 * 256] = 0;
    let svo = SvoSdf::from_sdf(&sdf, 4, 1, 655);
    assert!(!svo.root.is_leaf);
    assert!(svo.root.is_empty());
    assert!(absent_children(&svo.root));
    assert!(svo.bricks.is_empty());
    let bytes = svo.save();
    assert_eq!(bytes.len(), 36 + 27);
    assert_eq!(bytes[36], 0);
    assert_eq!(bytes[37], 0);
    assert_eq!(bytes[36 + 26], 0);
}

fn check_subtree(node: &OctreeNode, bricks: usize, seen: &mut Vec<u32>) {
    assert_eq!(node.children.len(), 8);
    if node.is_leaf {
        assert!(node.children.iter().all(|c| c.is_none()));
    } else {
        assert!(node.brick_index.is_none());
    }
    if let Some(index) = node.brick_index {
        assert!((index as usize) < bricks);
        seen.push(index);
    }
    for (i, child) in node.children.iter().enumerate() {
        if let Some(child) = child {
            assert!(!child.is_empty());
            assert_eq!(child.bounds, node.bounds.child_bounds(i));
            check_subtree(child, bricks, seen);
        }
    }
}

#[test]
fn built_tree_keeps_its_invariants() {
    let dim = (5u32, 7u32, 9u32);
    let mut state = 12345u32;
    let voxels: Vec<u16> = (0..dim.0 * dim.1 * dim.2)
        .map(|i| {
            state = state.wrapping_mul(1664525).wrapping_add(1013904223);
            if i % 11 < 4 {
                (state >> 16) as u16
            } else {
                LEVEL_ZERO
            }
        })
        .collect();
    let sdf = Sdf { header: SdfHeader { dim, box_min: (0, 0, 0), dx: 0 }, voxels };
    for (brick_size, max_depth) in [(1u32, 4u32), (2, 3), (3, 2), (4, 6), (0, 3)] {
        let svo = SvoSdf::from_sdf(&sdf, brick_size, max_depth, 655);
        assert!(svo.root.is_shaped());
        assert_eq!(svo.root.bounds, BoundingBox::new((0, 0, 0), dim));
        let mut seen = Vec::new();
        check_subtree(&svo.root, svo.bricks.len(), &mut seen);
        let expected: Vec<u32> = (0..svo.bricks.len() as u32).collect();
        assert_eq!(seen, expected);
        for brick in &svo.bricks {
            assert_eq!(brick.data.len(), (brick.size * brick.size * brick.size) as usize);
            assert!(brick.has_surface(655) || !brick.is_uniform(655));
        }
    }
}

#[test]
fn node_with_too_few_slots_is_not_shaped() {
    let mut node = OctreeNode::new(BoundingBox::new((0, 0, 0), (2, 2, 2)));
    assert!(node.is_shaped());
    let mut child = OctreeNode::new(BoundingBox::new((0, 0, 0), (1, 1, 1)));
    child.children.pop();
    node.children[3] = Some(Box::new(child));
    assert!(!node.is_shaped());
}

fn height(node: &OctreeNode) -> u32 {
    node.children.iter().flatten().map(|c| 1 + height(c)).max().unwrap_or(0)
}

#[test]
fn tree_is_no_deeper_than_the_depth_limit() {
    let mut sdf = flat_volume(16, LEVEL_ZERO);
    for i in 0..sdf.voxels.len() {
        if i % 3 == 0 {
            sdf.voxels[i] = (i % 65536) as u16;
        }
    }
    for max_depth in 0..5u32 {
        let svo = SvoSdf::from_sdf(&sdf, 2, max_depth, 655);
        assert!(height(&svo.root) <= max_depth);
    }
    assert_eq!(height(&SvoSdf::from_sdf(&sdf, 2, 2, 655).root), 2);
    assert_eq!(height(&SvoSdf::from_sdf(&sdf, 2, 9, 655).root), 3);
}

#[test]
fn single_sample_bricks_are_never_kept() {
    let mut sdf = flat_volume(4, LEVEL_ZERO);
    for i in 0..sdf.voxels.len() {
        sdf.voxels[i] = (i * 1000) as u16;
    }
    let svo = SvoSdf::from_sdf(&sdf, 1, 5, 0);
    assert!(svo.root.is_empty());
    assert!(svo.bricks.is_empty());
}
