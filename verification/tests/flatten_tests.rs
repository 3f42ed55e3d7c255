use svo_sdf::bounds::BoundingBox;
use svo_sdf::flatten::{flatten_octree, flatten_octree_recursive, OctreeNodeGpu, NO_BRICK};
use svo_sdf::octree::OctreeNode;
use svo_sdf::sdf::{Sdf, SdfHeader, LEVEL_ZERO};
use svo_sdf::svosdf::SvoSdf;

fn volume_with(edge: u32, marks: &[(u32, u32, u32, u16)]) -> Sdf {
    let mut voxels = vec![LEVEL_ZERO; (edge * edge * edge) as usize];
    for &(x, y, z, v) in marks {
        voxels[(x + y * edge + z * edge * edge) as usize] = v;
    }
    Sdf { header: SdfHeader { dim: (edge, edge, edge), box_min: (0, 0, 0), dx: 0 }, voxels }
}

#[test]
fn no_brick_sentinel_is_all_ones() {
    assert_eq!(NO_BRICK, 0xFFFF_FFFF);
}

#[test]
fn flatten_single_leaf() {
    let svo = SvoSdf::from_sdf(&volume_with(8, &[]), 8, 2, 655);
    let records = flatten_octree(&svo.root);
    assert_eq!(
        records,
        vec![OctreeNodeGpu {
            bounds_min: [0, 0, 0],
            bounds_max: [8, 8, 8],
            brick_index: NO_BRICK,
            child_mask: 0,
            children_offset: 0,
            is_leaf: 1,
            _padding: [0, 0],
        }]
    );
}

#[test]
fn flatten_root_with_one_child() {
    let svo = SvoSdf::from_sdf(&volume_with(16, &[(8, 8, 8, LEVEL_ZERO + 1000)]), 8, 1, 655);
    let records = flatten_octree(&svo.root);
    assert_eq!(
        records,
        vec![
            OctreeNodeGpu {
                bounds_min: [0, 0, 0],
                bounds_max: [16, 16, 16],
                brick_index: NO_BRICK,
                child_mask: 0x80,
                children_offset: 1,
                is_leaf: 0,
                _padding: [0, 0],
            },
            OctreeNodeGpu {
                bounds_min: [8, 8, 8],
                bounds_max: [16, 16, 16],
                brick_index: 0,
                child_mask: 0,
                children_offset: 0,
                is_leaf: 1,
                _padding: [0, 0],
            },
        ]
    );
}

#[test]
fn flatten_is_depth_first_in_slot_order() {
    let sdf = volume_with(16, &[(0, 0, 0, 0), (15, 0, 0, 1), (15, 15, 15, 65535)]);
    let svo = SvoSdf::from_sdf(&sdf, 4, 2, 655);
    let records = flatten_octree(&svo.root);
    assert_eq!(records.len(), svo.count_nodes(&svo.root));
    assert_eq!(records.len(), 7);
    let masks: Vec<u32> = records.iter().map(|r| r.child_mask).collect();
    assert_eq!(masks, vec![0x83, 0x01, 0, 0x02, 0, 0x80, 0]);
    let offsets: Vec<u32> = records.iter().map(|r| r.children_offset).collect();
    assert_eq!(offsets, vec![1, 2, 0, 4, 0, 6, 0]);
    let bricks: Vec<u32> = records.iter().map(|r| r.brick_index).collect();
    assert_eq!(bricks, vec![NO_BRICK, NO_BRICK, 0, NO_BRICK, 1, NO_BRICK, 2]);
    assert_eq!(records[4].bounds_min, [12, 0, 0]);
    assert_eq!(records[4].bounds_max, [16, 4, 4]);
    assert_eq!(records[6].bounds_min, [12, 12, 12]);
}

#[test]
fn flatten_recursive_continues_from_given_index() {
    let svo = SvoSdf::from_sdf(&volume_with(16, &[(8, 8, 8, 0)]), 8, 1, 655);
    let mut nodes = vec![OctreeNodeGpu {
        bounds_min: [9, 9, 9],
        bounds_max: [9, 9, 9],
        brick_index: 5,
        child_mask: 0,
        children_offset: 0,
        is_leaf: 1,
        _padding: [0, 0],
    }];
    let mut index = 10u32;
    flatten_octree_recursive(&svo.root, &mut nodes, &mut index);
    assert_eq!(index, 12);
    assert_eq!(nodes.len(), 3);
    assert_eq!(nodes[0].brick_index, 5);
    assert_eq!(nodes[1].children_offset, 11);
    assert_eq!(nodes[2].is_leaf, 1);
}

#[test]
fn clone_copies_the_whole_subtree() {
    let sdf = volume_with(16, &[(0, 0, 0, 0), (15, 15, 15, 65535)]);
    let svo = SvoSdf::from_sdf(&sdf, 4, 2, 655);
    let copy: OctreeNode = svo.root.clone();
    assert_eq!(flatten_octree(&copy), flatten_octree(&svo.root));
    assert_eq!(copy.bounds, BoundingBox::new((0, 0, 0), (16, 16, 16)));
}
