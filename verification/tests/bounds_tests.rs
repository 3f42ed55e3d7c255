use svo_sdf::bounds::BoundingBox;

fn unit_box() -> BoundingBox {
    BoundingBox::new((2, 4, 6), (12, 15, 6))
}

#[test]
fn new_keeps_corners() {
    let b = unit_box();
    assert_eq!(b.min, (2, 4, 6));
    assert_eq!(b.max, (12, 15, 6));
}

#[test]
fn size_is_componentwise_difference() {
    assert_eq!(unit_box().size(), (10, 11, 0));
}

#[test]
fn center_is_midpoint_rounded_down() {
    assert_eq!(unit_box().center(), (7, 9, 6));
    let wide = BoundingBox::new((u32::MAX - 1, 0, 1), (u32::MAX, 0, 2));
    assert_eq!(wide.center(), (u32::MAX - 1, 0, 1));
}

#[test]
fn child_bounds_follow_octant_bits() {
    let b = BoundingBox::new((0, 0, 0), (16, 8, 4));
    let c = b.center();
    assert_eq!(c, (8, 4, 2));
    for i in 0..8usize {
        let child = b.child_bounds(i);
        let x_high = i & 1 == 1;
        let y_high = (i >> 1) & 1 == 1;
        let z_high = (i >> 2) & 1 == 1;
        assert_eq!(child.min.0, if x_high { 8 } else { 0 });
        assert_eq!(child.max.0, if x_high { 16 } else { 8 });
        assert_eq!(child.min.1, if y_high { 4 } else { 0 });
        assert_eq!(child.max.1, if y_high { 8 } else { 4 });
        assert_eq!(child.min.2, if z_high { 2 } else { 0 });
        assert_eq!(child.max.2, if z_high { 4 } else { 2 });
    }
}

#[test]
fn child_bounds_match_fixed_table() {
    let b = BoundingBox::new((1, 2, 3), (6, 9, 12));
    assert_eq!(b.child_bounds(0), BoundingBox::new((1, 2, 3), (3, 5, 7)));
    assert_eq!(b.child_bounds(1), BoundingBox::new((3, 2, 3), (6, 5, 7)));
    assert_eq!(b.child_bounds(2), BoundingBox::new((1, 5, 3), (3, 9, 7)));
    assert_eq!(b.child_bounds(3), BoundingBox::new((3, 5, 3), (6, 9, 7)));
    assert_eq!(b.child_bounds(4), BoundingBox::new((1, 2, 7), (3, 5, 12)));
    assert_eq!(b.child_bounds(5), BoundingBox::new((3, 2, 7), (6, 5, 12)));
    assert_eq!(b.child_bounds(6), BoundingBox::new((1, 5, 7), (3, 9, 12)));
    assert_eq!(b.child_bounds(7), BoundingBox::new((3, 5, 7), (6, 9, 12)));
}

#[test]
fn children_partition_the_parent() {
    let b = BoundingBox::new((1, 0, 3), (6, 5, 8));
    for x in 0..8u32 {
        for y in 0..8u32 {
            for z in 0..10u32 {
                let inside = |q: &BoundingBox| {
                    q.min.0 <= x && x < q.max.0 && q.min.1 <= y && y < q.max.1 && q.min.2 <= z && z < q.max.2
                };
                let mut hits = 0;
                for i in 0..8usize {
                    if inside(&b.child_bounds(i)) {
                        hits += 1;
                    }
                }
                assert_eq!(hits, if inside(&b) { 1 } else { 0 });
            }
        }
    }
}
