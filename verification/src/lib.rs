//! Core logic of a voxel game engine: texture descriptors, packed resource
//! formats, resource layouts, terrain chunk bookkeeping and mesher topology.
use vstd::prelude::*;

pub mod bytes;
pub mod chunk;
pub mod convert;
pub mod counting;
pub mod cubes;
pub mod layout;
pub mod lifecycle;
pub mod loader;
pub mod maps;
pub mod memory;
pub mod packer;
pub mod packing;
pub mod settings;
pub mod squares;
pub mod storage;
pub mod systems;
pub mod table;
pub mod terrain;
pub mod texture;
pub mod viewport;
pub mod volumetric;

verus! {

} // verus!
