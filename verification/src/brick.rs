//! Bricks: cubic blocks of samples copied out of the source volume, and the
//! tests that decide whether a brick is worth keeping.

use vstd::prelude::*;
use crate::sdf::{Sdf, LEVEL_ZERO, sample_at, in_grid, grid_index, lemma_grid_index_bounds};

verus! {

/// The number of samples in a cube of edge length `edge`.
pub open spec fn cube(edge: int) -> int {
    edge * edge * edge
}

/// The local coordinates of entry `i` in a brick of edge length `size`: entry
/// `x + y*size + z*size*size` belongs to `(x, y, z)`.
pub open spec fn local_coords(i: int, size: int) -> (int, int, int) {
    (i % size, (i / size) % size, i / (size * size))
}

/// The position of local coordinates `(x, y, z)` in a brick of edge length `size`.
pub open spec fn local_index(x: int, y: int, z: int, size: int) -> int {
    x + y * size + z * (size * size)
}

/// The samples of the cube of edge length `size` at `position`, in brick order;
/// points outside the grid read as `LEVEL_ZERO`.
pub open spec fn extracted(
    dim: (u32, u32, u32),
    voxels: Seq<u16>,
    position: (u32, u32, u32),
    size: u32,
) -> Seq<u16> {
    Seq::new(
        cube(size as int) as nat,
        |i: int|
            {
                let c = local_coords(i, size as int);
                sample_at(dim, voxels, (position.0 + c.0, position.1 + c.1, position.2 + c.2))
            },
    )
}

/// Whether `value` lies strictly below the zero level by more than `threshold`.
pub open spec fn is_inside(value: u16, threshold: u16) -> bool {
    value < LEVEL_ZERO - threshold
}

/// Whether `value` lies strictly above the zero level by more than `threshold`.
pub open spec fn is_outside(value: u16, threshold: u16) -> bool {
    value > LEVEL_ZERO + threshold
}

/// Whether `data` holds a sample on each side of the zero level, each further
/// from it than `threshold`.
pub open spec fn straddles(data: Seq<u16>, threshold: u16) -> bool {
    &&& exists|i: int| 0 <= i < data.len() && is_inside(#[trigger] data[i], threshold)
    &&& exists|j: int| 0 <= j < data.len() && is_outside(#[trigger] data[j], threshold)
}

/// Whether `a` and `b` differ by at most `threshold`.
pub open spec fn within(a: u16, b: u16, threshold: u16) -> bool {
    -threshold <= a - b <= threshold
}

/// Whether every sample of `data` differs from the first by at most `threshold`.
pub open spec fn uniform(data: Seq<u16>, threshold: u16) -> bool {
    forall|i: int| 0 <= i < data.len() ==> within(#[trigger] data[i], data[0], threshold)
}

/// Whether a brick with these samples is kept: it straddles the zero level or
/// is not uniform.
pub open spec fn retained(data: Seq<u16>, threshold: u16) -> bool {
    straddles(data, threshold) || !uniform(data, threshold)
}

/// The mathematical value of a brick.
pub struct BrickModel {
    pub data: Seq<u16>,
    pub size: u32,
    pub position: (u32, u32, u32),
}

impl BrickModel {
    /// The brick has one sample per point of its cube.
    pub open spec fn wf(&self) -> bool {
        self.data.len() == cube(self.size as int)
    }

    /// The brick of edge length `size` at `position` in the given volume.
    pub open spec fn extract(
        dim: (u32, u32, u32),
        voxels: Seq<u16>,
        position: (u32, u32, u32),
        size: u32,
    ) -> BrickModel {
        BrickModel { data: extracted(dim, voxels, position, size), size, position }
    }
}

/// A cubic buffer of `size^3` samples taken at `position` in the source grid.
#[derive(Debug)]
pub struct Brick {
    pub data: Vec<u16>,
    pub size: u32,
    pub position: (u32, u32, u32),
}

impl Clone for Brick {
    fn clone(&self) -> (copy: Self)
        ensures
            copy@ == self@,
    {
        let data = self.data.clone();
        assert(data@ =~= self.data@);
        Brick { data, size: self.size, position: self.position }
    }
}

impl View for Brick {
    type V = BrickModel;

    open spec fn view(&self) -> BrickModel {
        BrickModel { data: self.data@, size: self.size, position: self.position }
    }
}

/// Entry `x + y*size + z*size*size` of a brick belongs to `(x, y, z)`, and lies
/// inside the brick.
pub proof fn lemma_local_coords(x: int, y: int, z: int, size: int)
    requires
        0 <= x < size,
        0 <= y < size,
        0 <= z < size,
    ensures
        0 <= local_index(x, y, z, size) < cube(size),
        local_coords(local_index(x, y, z, size), size) == (x, y, z),
{
    let i = local_index(x, y, z, size);
    let plane = size * size;
    assert(0 <= y * size && y * size + size <= plane) by (nonlinear_arith)
        requires
            0 <= y < size,
            plane == size * size,
    ;
    assert(0 <= z * plane && z * plane + plane <= size * size * size) by (nonlinear_arith)
        requires
            0 <= z < size,
            plane == size * size,
    ;
    let row = y + z * size;
    assert(i == x + row * size) by (nonlinear_arith)
        requires
            i == x + y * size + z * (size * size),
            row == y + z * size,
    ;
    vstd::arithmetic::div_mod::lemma_fundamental_div_mod_converse(i, size, row, x);
    vstd::arithmetic::div_mod::lemma_fundamental_div_mod_converse(row, size, z, y);
    let rest = x + y * size;
    assert(0 <= rest < plane);
    assert(i == plane * z + rest) by (nonlinear_arith)
        requires
            i == x + y * size + z * (size * size),
            rest == x + y * size,
            plane == size * size,
    ;
    vstd::arithmetic::div_mod::lemma_fundamental_div_mod_converse(i, plane, z, rest);
}

/// Every sample of an extracted brick whose source point lies outside the grid
/// equals `LEVEL_ZERO`, and every other sample equals the source sample at that
/// point.
pub proof fn lemma_extraction_fill(
    dim: (u32, u32, u32),
    voxels: Seq<u16>,
    position: (u32, u32, u32),
    size: u32,
    x: int,
    y: int,
    z: int,
)
    requires
        0 <= x < size,
        0 <= y < size,
        0 <= z < size,
    ensures
        0 <= local_index(x, y, z, size as int) < extracted(dim, voxels, position, size).len(),
        ({
            let p = (position.0 + x, position.1 + y, position.2 + z);
            let sample = extracted(dim, voxels, position, size)[local_index(x, y, z, size as int)];
            if in_grid(dim, p) {
                sample == voxels[grid_index(dim, p)]
            } else {
                sample == LEVEL_ZERO
            }
        }),
{
    lemma_local_coords(x, y, z, size as int);
}

/// A buffer in which all samples are equal is uniform for every threshold and
/// never straddles the zero level.
pub proof fn lemma_constant_data(data: Seq<u16>, threshold: u16)
    requires
        forall|i: int, j: int| 0 <= i < data.len() && 0 <= j < data.len() ==> data[i] == data[j],
    ensures
        uniform(data, threshold),
        !straddles(data, threshold),
        !retained(data, threshold),
{
    if straddles(data, threshold) {
        let i = choose|i: int| 0 <= i < data.len() && is_inside(#[trigger] data[i], threshold);
        let j = choose|j: int| 0 <= j < data.len() && is_outside(#[trigger] data[j], threshold);
        assert(data[i] == data[j]);
    }
}

impl Brick {
    /// A brick of edge length `size` at `position`, every sample at the zero
    /// level.
    pub fn new(size: u32, position: (u32, u32, u32)) -> (brick: Self)
        ensures
            brick.size == size,
            brick.position == position,
            brick.data@ == Seq::new(cube(size as int) as nat, |i: int| LEVEL_ZERO),
            brick@.wf(),
    {
        let n: u128 = sample_count(size);
        let mut data: Vec<u16> = Vec::new();
        let mut i: u128 = 0;
        while i < n
            invariant
                i <= n,
                data.len() == i,
                forall|j: int| 0 <= j < i ==> data[j] == LEVEL_ZERO,
            decreases n - i,
        {
            data.push(LEVEL_ZERO);
            i += 1;
        }
        assert(data@ =~= Seq::new(cube(size as int) as nat, |i: int| LEVEL_ZERO));
        Brick { data, size, position }
    }

    /// Copies the cube of edge length `size` at `position` out of the volume.
    /// Points of the cube outside the grid read as `LEVEL_ZERO`.
    pub fn extract_from_sdf(sdf: &Sdf, position: (u32, u32, u32), size: u32) -> (brick: Self)
        requires
            sdf.wf(),
        ensures
            brick@ == BrickModel::extract(sdf.header.dim, sdf.voxels@, position, size),
            brick@.wf(),
    {
        let dim = sdf.header.dim;
        let (px, py, pz) = position;
        let ghost want = extracted(dim, sdf.voxels@, position, size);
        let mut data: Vec<u16> = Vec::new();
        let mut z: u32 = 0;
        while z < size
            invariant
                z <= size,
                sdf.wf(),
                dim == sdf.header.dim,
                position == (px, py, pz),
                want == extracted(dim, sdf.voxels@, position, size),
                data.len() == local_index(0, 0, z as int, size as int),
                forall|i: int| 0 <= i < data.len() ==> data[i] == want[i],
            decreases size - z,
        {
            let mut y: u32 = 0;
            while y < size
                invariant
                    z < size,
                    y <= size,
                    sdf.wf(),
                    dim == sdf.header.dim,
                    position == (px, py, pz),
                    want == extracted(dim, sdf.voxels@, position, size),
                    data.len() == local_index(0, y as int, z as int, size as int),
                    forall|i: int| 0 <= i < data.len() ==> data[i] == want[i],
                decreases size - y,
            {
                let mut x: u32 = 0;
                while x < size
                    invariant
                        z < size,
                        y < size,
                        x <= size,
                        sdf.wf(),
                        dim == sdf.header.dim,
                        position == (px, py, pz),
                            want == extracted(dim, sdf.voxels@, position, size),
                        data.len() == local_index(x as int, y as int, z as int, size as int),
                        forall|i: int| 0 <= i < data.len() ==> data[i] == want[i],
                    decreases size - x,
                {
                    proof {
                        lemma_local_coords(x as int, y as int, z as int, size as int);
                    }
                    let value = sample(sdf, px as u64 + x as u64, py as u64 + y as u64, pz as u64 + z as u64);
                    data.push(value);
                    x += 1;
                }
                y += 1;
                assert(local_index(size as int, (y - 1) as int, z as int, size as int)
                    == local_index(0, y as int, z as int, size as int)) by (nonlinear_arith);
            }
            z += 1;
            assert(local_index(0, size as int, (z - 1) as int, size as int)
                == local_index(0, 0, z as int, size as int)) by (nonlinear_arith);
        }
        assert(local_index(0, 0, size as int, size as int) == cube(size as int)) by (nonlinear_arith);
        assert(data@ =~= want);
        Brick { data, size, position }
    }

    /// Whether the brick holds a sample below `LEVEL_ZERO - threshold` and a
    /// sample above `LEVEL_ZERO + threshold`. The threshold is in quantized
    /// units: a fraction `f` of the full range is `round(f * 65535)`.
    pub fn has_surface(&self, threshold: u16) -> (found: bool)
        ensures
            found == straddles(self.data@, threshold),
    {
        let mut has_inside = false;
        let mut has_outside = false;
        let mut i: usize = 0;
        while i < self.data.len()
            invariant
                i <= self.data.len(),
                !(has_inside && has_outside),
                has_inside == exists|k: int| 0 <= k < i && is_inside(#[trigger] self.data[k], threshold),
                has_outside == exists|k: int|
                    0 <= k < i && is_outside(#[trigger] self.data[k], threshold),
            decreases self.data.len() - i,
        {
            let value = self.data[i];
            if (value as u32) + (threshold as u32) < LEVEL_ZERO as u32 {
                has_inside = true;
            }
            if value as u32 > LEVEL_ZERO as u32 + threshold as u32 {
                has_outside = true;
            }
            assert(is_inside(self.data[i as int], threshold) ==> has_inside);
            assert(is_outside(self.data[i as int], threshold) ==> has_outside);
            if has_inside && has_outside {
                return true;
            }
            i += 1;
        }
        false
    }

    /// Whether every sample differs from the first by at most `threshold`, in
    /// quantized units. A brick without samples is uniform.
    pub fn is_uniform(&self, threshold: u16) -> (all: bool)
        ensures
            all == uniform(self.data@, threshold),
    {
        if self.data.len() == 0 {
            return true;
        }
        let first = self.data[0];
        let mut i: usize = 0;
        while i < self.data.len()
            invariant
                i <= self.data.len(),
                first == self.data[0],
                forall|k: int| 0 <= k < i ==> within(#[trigger] self.data[k], first, threshold),
            decreases self.data.len() - i,
        {
            let value = self.data[i];
            let diff: u16 = if value >= first {
                value - first
            } else {
                first - value
            };
            if diff > threshold {
                assert(!within(self.data[i as int], self.data[0], threshold));
                return false;
            }
            i += 1;
        }
        true
    }
}

/// The number of samples in a brick of edge length `size`.
pub fn sample_count(size: u32) -> (n: u128)
    ensures
        n == cube(size as int),
{
    let edge: u128 = size as u128;
    assert(edge * edge <= 0xffff_ffff * 0xffff_ffff) by (nonlinear_arith)
        requires
            0 <= edge <= 0xffff_ffff,
    ;
    let square: u128 = edge * edge;
    assert(square * edge <= 0xffff_ffff * 0xffff_ffff * 0xffff_ffff) by (nonlinear_arith)
        requires
            0 <= square <= 0xffff_ffff * 0xffff_ffff,
            0 <= edge <= 0xffff_ffff,
    ;
    square * edge
}

/// The sample at `(x, y, z)`: the stored value inside the grid, `LEVEL_ZERO`
/// outside.
fn sample(sdf: &Sdf, x: u64, y: u64, z: u64) -> (value: u16)
    requires
        sdf.wf(),
    ensures
        value == sample_at(sdf.header.dim, sdf.voxels@, (x as int, y as int, z as int)),
{
    let dim = sdf.header.dim;
    if x < dim.0 as u64 && y < dim.1 as u64 && z < dim.2 as u64 {
        proof {
            lemma_grid_index_bounds(dim, (x as int, y as int, z as int));
        }
        let stride_y: usize = dim.0 as usize;
        let stride_z: usize = stride_y * (dim.1 as usize);
        let index: usize = x as usize + (y as usize) * stride_y + (z as usize) * stride_z;
        sdf.voxels[index]
    } else {
        LEVEL_ZERO
    }
}

} // verus!
