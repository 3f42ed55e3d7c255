use svo_sdf::brick::Brick;
use svo_sdf::sdf::{Sdf, SdfHeader, LEVEL_ZERO};

fn volume(dim: (u32, u32, u32)) -> Sdf {
    let n = (dim.0 * dim.1 * dim.2) as usize;
    let voxels: Vec<u16> = (0..n).map(|i| (i as u16) + 1).collect();
    Sdf { header: SdfHeader { dim, box_min: (0, 0, 0), dx: 0x3f80_0000 }, voxels }
}

#[test]
fn level_zero_is_half_range() {
    assert_eq!(LEVEL_ZERO, 32768);
}

#[test]
fn new_brick_is_filled_with_level_zero() {
    let b = Brick::new(3, (1, 2, 3));
    assert_eq!(b.size, 3);
    assert_eq!(b.position, (1, 2, 3));
    assert_eq!(b.data, vec![LEVEL_ZERO; 27]);
    assert_eq!(Brick::new(0, (0, 0, 0)).data.len(), 0);
}

#[test]
fn volume_validity_compares_length_with_dimensions() {
    let mut sdf = volume((2, 3, 4));
    assert!(sdf.is_valid());
    sdf.voxels.pop();
    assert!(!sdf.is_valid());
}

#[test]
fn extract_inside_copies_source() {
    let sdf = volume((4, 4, 4));
    let b = Brick::extract_from_sdf(&sdf, (1, 1, 1), 2);
    assert_eq!(b.size, 2);
    assert_eq!(b.position, (1, 1, 1));
    let at = |x: u32, y: u32, z: u32| sdf.voxels[(x + y * 4 + z * 16) as usize];
    assert_eq!(
        b.data,
        vec![
            at(1, 1, 1),
            at(2, 1, 1),
            at(1, 2, 1),
            at(2, 2, 1),
            at(1, 1, 2),
            at(2, 1, 2),
            at(1, 2, 2),
            at(2, 2, 2)
        ]
    );
}

#[test]
fn extract_fills_outside_with_level_zero() {
    let sdf = volume((3, 2, 2));
    let size = 3u32;
    let origin = (1u32, 1u32, 0u32);
    let b = Brick::extract_from_sdf(&sdf, origin, size);
    assert_eq!(b.data.len(), 27);
    for z in 0..size {
        for y in 0..size {
            for x in 0..size {
                let (sx, sy, sz) = (origin.0 + x, origin.1 + y, origin.2 + z);
                let got = b.data[(x + y * size + z * size * size) as usize];
                if sx < 3 && sy < 2 && sz < 2 {
                    assert_eq!(got, sdf.voxels[(sx + sy * 3 + sz * 6) as usize]);
                } else {
                    assert_eq!(got, LEVEL_ZERO);
                }
            }
        }
    }
}

#[test]
fn extract_far_outside_is_all_level_zero() {
    let sdf = volume((2, 2, 2));
    let b = Brick::extract_from_sdf(&sdf, (u32::MAX, u32::MAX, u32::MAX), 2);
    assert_eq!(b.data, vec![LEVEL_ZERO; 8]);
}

fn brick_of(data: Vec<u16>) -> Brick {
    Brick { data, size: 0, position: (0, 0, 0) }
}

#[test]
fn has_surface_needs_both_sides() {
    let t = 100u16;
    assert!(brick_of(vec![LEVEL_ZERO - 101, LEVEL_ZERO + 101]).has_surface(t));
    assert!(brick_of(vec![LEVEL_ZERO + 101, LEVEL_ZERO, LEVEL_ZERO - 101]).has_surface(t));
    assert!(!brick_of(vec![LEVEL_ZERO - 100, LEVEL_ZERO + 101]).has_surface(t));
    assert!(!brick_of(vec![LEVEL_ZERO - 101, LEVEL_ZERO + 100]).has_surface(t));
    assert!(!brick_of(vec![LEVEL_ZERO - 500, LEVEL_ZERO - 400]).has_surface(t));
    assert!(!brick_of(vec![]).has_surface(t));
}

#[test]
fn has_surface_with_large_threshold_is_false() {
    assert!(!brick_of(vec![0, 65535]).has_surface(32768));
    assert!(!brick_of(vec![0, 65535]).has_surface(65535));
    assert!(brick_of(vec![0, 65535]).has_surface(32766));
    assert!(brick_of(vec![0, 65535]).has_surface(0));
}

#[test]
fn is_uniform_compares_with_first_sample() {
    assert!(brick_of(vec![]).is_uniform(0));
    assert!(brick_of(vec![7]).is_uniform(0));
    assert!(brick_of(vec![1000, 1010, 990]).is_uniform(10));
    assert!(!brick_of(vec![1000, 1011]).is_uniform(10));
    assert!(!brick_of(vec![1000, 989]).is_uniform(10));
    assert!(brick_of(vec![0, 65535]).is_uniform(65535));
    assert!(!brick_of(vec![65535, 0]).is_uniform(65534));
}

#[test]
fn constant_brick_is_uniform_and_has_no_surface() {
    for value in [0u16, 1, 32767, 32768, 32769, 65535] {
        for t in [0u16, 1, 655, 32767, 32768, 65535] {
            let b = brick_of(vec![value; 64]);
            assert!(b.is_uniform(t));
            assert!(!b.has_surface(t));
        }
    }
}

#[test]
fn clone_keeps_the_brick() {
    let sdf = volume((2, 2, 2));
    let b = Brick::extract_from_sdf(&sdf, (0, 0, 0), 2);
    let c = b.clone();
    assert_eq!(c.data, b.data);
    assert_eq!(c.size, b.size);
    assert_eq!(c.position, b.position);
}

#[test]
fn sample_count_is_the_cube_of_the_edge() {
    assert_eq!(svo_sdf::brick::sample_count(0), 0);
    assert_eq!(svo_sdf::brick::sample_count(8), 512);
    assert_eq!(svo_sdf::brick::sample_count(u32::MAX), (u32::MAX as u128).pow(3));
}
