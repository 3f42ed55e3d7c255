//! Sparse voxel octrees over quantized signed-distance volumes.
//!
//! A dense volume of 16-bit distance samples is subdivided into an octree whose
//! leaves refer, by index, to small cubic bricks of raw samples. Regions that are
//! uniform and free of a zero crossing are pruned.

pub mod bounds;
pub mod brick;
pub mod build_laws;
pub mod builder;
pub mod codec;
pub mod codec_laws;
pub mod flatten;
pub mod octree;
pub mod sdf;
pub mod serialization;
pub mod svosdf;
