//! Voxel terrain core: per-chunk block storage, light propagation,
//! meshing inputs and the chunk pipeline bookkeeping.
pub mod face;
pub mod index;
pub mod light;
pub mod pos;
pub mod rle;
pub mod chunk;
pub mod block;
pub mod light_cache;
pub mod mesh;
pub mod terrain;
pub mod registry;
pub mod terrain_generator;
