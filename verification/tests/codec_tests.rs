use svo_sdf::bounds::BoundingBox;
use svo_sdf::brick::Brick;
use svo_sdf::octree::OctreeNode;
use svo_sdf::sdf::{Sdf, SdfHeader, LEVEL_ZERO};
use svo_sdf::serialization::{Loader, StorerVec};
use svo_sdf::svosdf::SvoSdf;

fn same_tree(a: &OctreeNode, b: &OctreeNode) -> bool {
    a.is_leaf == b.is_leaf
        && a.brick_index == b.brick_index
        && a.bounds == b.bounds
        && a.children.len() == b.children.len()
        && a.children.iter().zip(b.children.iter()).all(|(x, y)| match (x, y) {
            (Some(x), Some(y)) => same_tree(x, y),
            (None, None) => true,
            _ => false,
        })
}

fn same_bricks(a: &[Brick], b: &[Brick]) -> bool {
    a.len() == b.len()
        && a.iter().zip(b.iter()).all(|(x, y)| x.size == y.size && x.position == y.position && x.data == y.data)
}

fn bumpy_volume() -> Sdf {
    let edge = 16u32;
    let mut voxels = vec![LEVEL_ZERO; (edge * edge * edge) as usize];
    for (i, v) in voxels.iter_mut().enumerate() {
        let x = (i as u32) % edge;
        let y = ((i as u32) / edge) % edge;
        let z = (i as u32) / (edge * edge);
        if x < 5 && y < 7 && z > 9 {
            *v = 100 + (i as u16);
        } else if x > 12 && z < 3 {
            *v = 60000;
        }
    }
    Sdf { header: SdfHeader { dim: (edge, edge, edge), box_min: (1, 2, 3), dx: 0x3dcc_cccd }, voxels }
}

#[test]
fn storer_writes_low_byte_first() {
    let mut s = StorerVec::new();
    s.store_u8(0xab);
    s.store_u16(0x1234);
    s.store_u32(0x89ab_cdef);
    s.store_array_u16(&vec![1, 0xff00]);
    assert_eq!(s.v, vec![0xab, 0x34, 0x12, 0xef, 0xcd, 0xab, 0x89, 1, 0, 0, 0xff]);
}

#[test]
fn loader_reads_what_storer_wrote() {
    let mut s = StorerVec::new();
    s.store_u8(7);
    s.store_u32(0xdead_beef);
    s.store_u16(0xfffe);
    s.store_array_u16(&vec![3, 2, 65535]);
    let bytes = s.v;
    let mut l = Loader::new();
    assert_eq!(l.load_u8(&bytes), Some(7));
    assert_eq!(l.load_u32(&bytes), Some(0xdead_beef));
    assert_eq!(l.load_u16(&bytes), Some(0xfffe));
    assert_eq!(l.load_array_u16(&bytes, 3), Some(vec![3, 2, 65535]));
    assert_eq!(l.pos, bytes.len());
    assert_eq!(l.load_u8(&bytes), None);
}

#[test]
fn loader_fails_without_moving() {
    let bytes = vec![1u8, 2, 3];
    let mut l = Loader::new();
    assert_eq!(l.load_u32(&bytes), None);
    assert_eq!(l.pos, 0);
    assert_eq!(l.load_array_u16(&bytes, 2), None);
    assert_eq!(l.pos, 0);
    assert_eq!(l.load_u16(&bytes), Some(0x0201));
    assert_eq!(l.load_u16(&bytes), None);
    assert_eq!(l.pos, 2);
    assert!(l.remaining_at_least(&bytes, 1));
    assert!(!l.remaining_at_least(&bytes, 2));
}

#[test]
fn save_then_load_reproduces_the_octree() {
    let sdf = bumpy_volume();
    for (brick_size, max_depth) in [(8u32, 1u32), (4, 2), (4, 3), (2, 4), (16, 3), (3, 5)] {
        let svo = SvoSdf::from_sdf(&sdf, brick_size, max_depth, 655);
        let bytes = svo.save();
        let back = SvoSdf::load(&bytes).expect("a saved octree loads");
        assert_eq!(back.header, svo.header);
        assert_eq!(back.brick_size, svo.brick_size);
        assert!(same_bricks(&back.bricks, &svo.bricks));
        assert!(same_tree(&back.root, &svo.root));
        assert_eq!(back.save(), bytes);
    }
}

#[test]
fn header_section_layout() {
    let sdf = Sdf {
        header: SdfHeader { dim: (2, 2, 2), box_min: (0x0102_0304, 5, 6), dx: 0x4000_0000 },
        voxels: vec![LEVEL_ZERO; 8],
    };
    let svo = SvoSdf::from_sdf(&sdf, 9, 4, 0);
    let bytes = svo.save();
    let mut expected: Vec<u8> = Vec::new();
    for word in [2u32, 2, 2, 0x0102_0304, 5, 6, 0x4000_0000, 9, 0] {
        expected.extend_from_slice(&word.to_le_bytes());
    }
    assert_eq!(&bytes[..36], &expected[..]);
}

#[test]
fn load_rejects_truncated_input() {
    let sdf = bumpy_volume();
    let svo = SvoSdf::from_sdf(&sdf, 4, 2, 655);
    let bytes = svo.save();
    assert!(SvoSdf::load(&bytes).is_some());
    for cut in [0usize, 1, 35, 36, 40, 52, bytes.len() / 2, bytes.len() - 27, bytes.len() - 1] {
        assert!(SvoSdf::load(&bytes[..cut]).is_none(), "cut at {}", cut);
    }
}

#[test]
fn load_ignores_trailing_bytes_and_stored_bounds() {
    let sdf = bumpy_volume();
    let svo = SvoSdf::from_sdf(&sdf, 8, 1, 655);
    let mut bytes = svo.save();
    let tree_start = bytes.len() - (27 + 30 * svo.root.children.iter().filter(|c| c.is_some()).count());
    for b in bytes[tree_start + 2..tree_start + 26].iter_mut() {
        *b = 0xee;
    }
    bytes.extend_from_slice(&[9, 9, 9]);
    let back = SvoSdf::load(&bytes).expect("loads");
    assert!(same_tree(&back.root, &svo.root));
    assert_eq!(back.root.bounds, BoundingBox::new((0, 0, 0), (16, 16, 16)));
}

#[test]
fn load_rejects_brick_larger_than_input() {
    let mut bytes: Vec<u8> = Vec::new();
    for word in [1u32, 1, 1, 0, 0, 0, 0, 8, 1] {
        bytes.extend_from_slice(&word.to_le_bytes());
    }
    for word in [0xffff_ffffu32, 0, 0, 0] {
        bytes.extend_from_slice(&word.to_le_bytes());
    }
    bytes.extend_from_slice(&[0u8; 64]);
    assert!(SvoSdf::load(&bytes).is_none());
}

#[test]
fn deserialize_node_reads_children_by_mask() {
    let svo = SvoSdf::from_sdf(&bumpy_volume(), 8, 1, 655);
    let mut storer = StorerVec::new();
    svo.serialize_node(&svo.root, &mut storer);
    let bytes = storer.v;
    let mut loader = Loader::new();
    let node = SvoSdf::deserialize_node(&mut loader, &bytes, svo.root.bounds).expect("parses");
    assert_eq!(loader.pos, bytes.len());
    assert!(same_tree(&node, &svo.root));
    let mut short = Loader::new();
    assert!(SvoSdf::deserialize_node(&mut short, &bytes[..bytes.len() - 1], svo.root.bounds).is_none());
}
