//! The dense source volume: a header and a flat array of quantized distance
//! samples in row-major order.

use vstd::prelude::*;

verus! {

/// The quantized value of an exact zero crossing, in the domain `0..=65535`.
pub const LEVEL_ZERO: u16 = 32768;

/// Describes the voxel grid. The world-space origin `box_min` and the voxel
/// spacing `dx` are carried as the bit patterns of their 32-bit IEEE 754
/// values; nothing here computes with them.
#[derive(Clone, Copy, Debug, PartialEq, Eq)]
pub struct SdfHeader {
    pub dim: (u32, u32, u32),
    pub box_min: (u32, u32, u32),
    pub dx: u32,
}

/// A dense volume. Sample `(x, y, z)` is stored at `x + y*dim.x + z*dim.x*dim.y`.
#[derive(Debug)]
pub struct Sdf {
    pub header: SdfHeader,
    pub voxels: Vec<u16>,
}

/// The number of samples in a grid of dimensions `dim`.
pub open spec fn grid_len(dim: (u32, u32, u32)) -> int {
    dim.0 * dim.1 * dim.2
}

/// Whether the point `p` lies inside a grid of dimensions `dim`.
pub open spec fn in_grid(dim: (u32, u32, u32), p: (int, int, int)) -> bool {
    &&& 0 <= p.0 < dim.0
    &&& 0 <= p.1 < dim.1
    &&& 0 <= p.2 < dim.2
}

/// The position of sample `p` in the flat array of a grid of dimensions `dim`.
pub open spec fn grid_index(dim: (u32, u32, u32), p: (int, int, int)) -> int {
    p.0 + p.1 * dim.0 + p.2 * (dim.0 * dim.1)
}

/// The sample at `p`: the stored value inside the grid, `LEVEL_ZERO` outside.
pub open spec fn sample_at(dim: (u32, u32, u32), voxels: Seq<u16>, p: (int, int, int)) -> u16 {
    if in_grid(dim, p) {
        voxels[grid_index(dim, p)]
    } else {
        LEVEL_ZERO
    }
}

/// Inside the grid the flat index stays below the grid's length, and so do the
/// partial products it is made of.
pub proof fn lemma_grid_index_bounds(dim: (u32, u32, u32), p: (int, int, int))
    requires
        in_grid(dim, p),
    ensures
        0 <= grid_index(dim, p) < grid_len(dim),
        0 <= p.1 * dim.0 <= grid_index(dim, p),
        0 <= dim.0 * dim.1 <= grid_len(dim),
        0 <= p.2 * (dim.0 * dim.1) <= grid_index(dim, p),
{
    let (dx, dy, dz) = (dim.0 as int, dim.1 as int, dim.2 as int);
    let (x, y, z) = p;
    assert(0 <= y * dx && y * dx + dx <= dy * dx) by (nonlinear_arith)
        requires
            0 <= y < dy,
            0 <= dx,
    ;
    assert(dy * dx == dx * dy) by (nonlinear_arith);
    assert(0 <= z * (dx * dy) && z * (dx * dy) + dx * dy <= dz * (dx * dy)) by (nonlinear_arith)
        requires
            0 <= z < dz,
            0 <= dx * dy,
    ;
    assert(dz * (dx * dy) == dx * dy * dz) by (nonlinear_arith);
    assert(dx * dy <= dx * dy * dz) by (nonlinear_arith)
        requires
            1 <= dz,
            0 <= dx * dy,
    ;
}

impl Sdf {
    /// The sample array has exactly one entry per grid point.
    pub open spec fn wf(&self) -> bool {
        self.voxels.len() == grid_len(self.header.dim)
    }

    /// Whether the sample array has exactly one entry per grid point.
    pub fn is_valid(&self) -> (valid: bool)
        ensures
            valid == self.wf(),
    {
        let dx: u128 = self.header.dim.0 as u128;
        let dy: u128 = self.header.dim.1 as u128;
        let dz: u128 = self.header.dim.2 as u128;
        assert(dx * dy <= 0xffff_ffff * 0xffff_ffff) by (nonlinear_arith)
            requires
                0 <= dx <= 0xffff_ffff,
                0 <= dy <= 0xffff_ffff,
        ;
        let plane: u128 = dx * dy;
        assert(plane * dz <= 0xffff_ffff * 0xffff_ffff * 0xffff_ffff) by (nonlinear_arith)
            requires
                0 <= plane <= 0xffff_ffff * 0xffff_ffff,
                0 <= dz <= 0xffff_ffff,
        ;
        self.voxels.len() as u128 == plane * dz
    }
}

} // verus!
