//! Axis-aligned integer boxes over voxel-grid coordinates and their octants.

use vstd::prelude::*;

verus! {

/// An axis-aligned box in voxel-grid coordinates. It covers the half-open range
/// `min <= p < max` on each axis.
#[derive(Clone, Copy, Debug, PartialEq, Eq)]
pub struct BoundingBox {
    pub min: (u32, u32, u32),
    pub max: (u32, u32, u32),
}

/// The midpoint of `lo` and `hi`, rounded down.
pub open spec fn midpoint(lo: u32, hi: u32) -> int {
    (lo + hi) / 2
}

/// Whether octant `index` lies in the upper half along `axis` (0 = x, 1 = y, 2 = z).
pub open spec fn octant_high(index: int, axis: int) -> bool {
    if axis == 0 {
        index % 2 == 1
    } else if axis == 1 {
        (index / 2) % 2 == 1
    } else {
        (index / 4) % 2 == 1
    }
}

/// The octant index made of three upper-half choices: `x + 2*y + 4*z`.
pub open spec fn octant_index(x_high: bool, y_high: bool, z_high: bool) -> int {
    (if x_high { 1int } else { 0 }) + (if y_high { 2int } else { 0 }) + (if z_high { 4int } else { 0 })
}

/// The midpoint of `lo` and `hi`, rounded down, without overflow.
fn half(lo: u32, hi: u32) -> (mid: u32)
    ensures
        mid == midpoint(lo, hi),
        lo <= hi ==> lo <= mid <= hi,
{
    let sum: u64 = lo as u64 + hi as u64;
    (sum / 2) as u32
}

impl BoundingBox {
    /// `min <= max` on every axis.
    pub open spec fn wf(&self) -> bool {
        &&& self.min.0 <= self.max.0
        &&& self.min.1 <= self.max.1
        &&& self.min.2 <= self.max.2
    }

    /// Whether the grid point `p` lies inside the box.
    pub open spec fn contains(&self, p: (int, int, int)) -> bool {
        &&& self.min.0 <= p.0 < self.max.0
        &&& self.min.1 <= p.1 < self.max.1
        &&& self.min.2 <= p.2 < self.max.2
    }

    /// The extent of the box along each axis.
    pub open spec fn spec_size(&self) -> (int, int, int) {
        (self.max.0 - self.min.0, self.max.1 - self.min.1, self.max.2 - self.min.2)
    }

    /// The point at which the box is split into octants.
    pub open spec fn spec_center(&self) -> (int, int, int) {
        (
            midpoint(self.min.0, self.max.0),
            midpoint(self.min.1, self.max.1),
            midpoint(self.min.2, self.max.2),
        )
    }

    /// Octant `index` of the box: on each axis the lower half `[min, center]` or
    /// the upper half `[center, max]`, as `octant_high` selects.
    pub open spec fn spec_child_bounds(&self, index: int) -> BoundingBox {
        let c = self.spec_center();
        BoundingBox {
            min: (
                if octant_high(index, 0) { c.0 as u32 } else { self.min.0 },
                if octant_high(index, 1) { c.1 as u32 } else { self.min.1 },
                if octant_high(index, 2) { c.2 as u32 } else { self.min.2 },
            ),
            max: (
                if octant_high(index, 0) { self.max.0 } else { c.0 as u32 },
                if octant_high(index, 1) { self.max.1 } else { c.1 as u32 },
                if octant_high(index, 2) { self.max.2 } else { c.2 as u32 },
            ),
        }
    }

    /// The octant of the box that holds the grid point `p`.
    pub open spec fn octant_of(&self, p: (int, int, int)) -> int {
        let c = self.spec_center();
        octant_index(p.0 >= c.0, p.1 >= c.1, p.2 >= c.2)
    }

    /// The box from `min` to `max`.
    pub fn new(min: (u32, u32, u32), max: (u32, u32, u32)) -> (b: Self)
        ensures
            b.min == min,
            b.max == max,
    {
        BoundingBox { min, max }
    }

    /// The extent of the box along each axis.
    pub fn size(&self) -> (s: (u32, u32, u32))
        requires
            self.wf(),
        ensures
            (s.0 as int, s.1 as int, s.2 as int) == self.spec_size(),
    {
        (self.max.0 - self.min.0, self.max.1 - self.min.1, self.max.2 - self.min.2)
    }

    /// The midpoint of the box on each axis, rounded down.
    pub fn center(&self) -> (c: (u32, u32, u32))
        ensures
            (c.0 as int, c.1 as int, c.2 as int) == self.spec_center(),
    {
        (
            half(self.min.0, self.max.0),
            half(self.min.1, self.max.1),
            half(self.min.2, self.max.2),
        )
    }

    /// Octant `child_index` of the box. Bit 0 of the index selects the upper
    /// half along x, bit 1 along y, bit 2 along z.
    pub fn child_bounds(&self, child_index: usize) -> (child: BoundingBox)
        requires
            child_index < 8,
        ensures
            child == self.spec_child_bounds(child_index as int),
    {
        let center = self.center();
        let (cx, cy, cz) = center;
        match child_index {
            0 => BoundingBox::new(self.min, center),
            1 => BoundingBox::new((cx, self.min.1, self.min.2), (self.max.0, cy, cz)),
            2 => BoundingBox::new((self.min.0, cy, self.min.2), (cx, self.max.1, cz)),
            3 => BoundingBox::new((cx, cy, self.min.2), (self.max.0, self.max.1, cz)),
            4 => BoundingBox::new((self.min.0, self.min.1, cz), (cx, cy, self.max.2)),
            5 => BoundingBox::new((cx, self.min.1, cz), (self.max.0, cy, self.max.2)),
            6 => BoundingBox::new((self.min.0, cy, cz), (cx, self.max.1, self.max.2)),
            _ => BoundingBox::new(center, self.max),
        }
    }
}

/// Every octant of a well-formed box is well formed, lies inside the box, and is
/// no larger than the box on any axis.
pub proof fn lemma_child_within_parent(b: BoundingBox, index: int)
    requires
        b.wf(),
        0 <= index < 8,
    ensures
        b.spec_child_bounds(index).wf(),
        b.min.0 <= b.spec_child_bounds(index).min.0,
        b.min.1 <= b.spec_child_bounds(index).min.1,
        b.min.2 <= b.spec_child_bounds(index).min.2,
        b.spec_child_bounds(index).max.0 <= b.max.0,
        b.spec_child_bounds(index).max.1 <= b.max.1,
        b.spec_child_bounds(index).max.2 <= b.max.2,
{
}

/// The child index encodes the octant as `x_high + 2*y_high + 4*z_high`: bit 0
/// of the index selects the upper half along x, bit 1 along y, bit 2 along z.
pub proof fn lemma_octant_index_decodes(index: int)
    requires
        0 <= index < 8,
    ensures
        index == octant_index(octant_high(index, 0), octant_high(index, 1), octant_high(index, 2)),
        octant_high(index, 0) <==> (index as u8) & 1 == 1,
        octant_high(index, 1) <==> ((index as u8) >> 1) & 1 == 1,
        octant_high(index, 2) <==> ((index as u8) >> 2) & 1 == 1,
{
    let i = index as u8;
    assert(i < 8 ==> ((i & 1 == 1) <==> (i % 2 == 1))) by (bit_vector);
    assert(i < 8 ==> (((i >> 1) & 1 == 1) <==> ((i / 2) % 2 == 1))) by (bit_vector);
    assert(i < 8 ==> (((i >> 2) & 1 == 1) <==> ((i / 4) % 2 == 1))) by (bit_vector);
}

/// The eight octants cover a well-formed box without gaps: a grid point lies in
/// the box exactly if it lies in one of the octants, and then in the octant that
/// `octant_of` names.
pub proof fn lemma_children_cover(b: BoundingBox, p: (int, int, int))
    requires
        b.wf(),
    ensures
        b.contains(p) <==> exists|i: int| 0 <= i < 8 && #[trigger] b.spec_child_bounds(i).contains(p),
        b.contains(p) ==> 0 <= b.octant_of(p) < 8 && b.spec_child_bounds(b.octant_of(p)).contains(p),
{
    if b.contains(p) {
        let k = b.octant_of(p);
        assert(b.spec_child_bounds(k).contains(p));
    }
    if exists|i: int| 0 <= i < 8 && #[trigger] b.spec_child_bounds(i).contains(p) {
        let i = choose|i: int| 0 <= i < 8 && #[trigger] b.spec_child_bounds(i).contains(p);
        lemma_child_within_parent(b, i);
    }
}

/// The eight octants do not overlap: no grid point lies in two different octants
/// of one box.
pub proof fn lemma_children_disjoint(b: BoundingBox, i: int, j: int, p: (int, int, int))
    requires
        0 <= i < 8,
        0 <= j < 8,
        i != j,
    ensures
        !(b.spec_child_bounds(i).contains(p) && b.spec_child_bounds(j).contains(p)),
{
}

} // verus!
