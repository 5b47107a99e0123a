use vstd::prelude::*;

verus! {

/// The magic number that opens every OpenVDB file.
pub const OPENVDB_MAGIC: u64 = 0x5644_4220;
pub const MIN_SUPPORTED_VERSION: u32 = 222;
pub const MAX_SUPPORTED_VERSION: u32 = 225;
/// 16 MiB.
pub const MAX_STRING_LENGTH: usize = 16777216;
pub const MAX_METADATA_COUNT: u32 = 1_000_000;
pub const MAX_GRID_COUNT: i32 = 1_000_000;

pub const UPPER_NODE_LOG2_DIM: usize = 5;
pub const LOWER_NODE_LOG2_DIM: usize = 4;
pub const LEAF_NODE_LOG2_DIM: usize = 3;

/// `1 << UPPER_NODE_LOG2_DIM`.
pub const UPPER_NODE_DIM: usize = 32;
/// `1 << LOWER_NODE_LOG2_DIM`.
pub const LOWER_NODE_DIM: usize = 16;
/// `1 << LEAF_NODE_LOG2_DIM`.
pub const LEAF_NODE_DIM: usize = 8;

/// `UPPER_NODE_DIM` cubed.
pub const UPPER_NODE_SIZE: usize = 32768;
/// `LOWER_NODE_DIM` cubed.
pub const LOWER_NODE_SIZE: usize = 4096;
/// `LEAF_NODE_DIM` cubed.
pub const LEAF_NODE_SIZE: usize = 512;

pub const MAX_ROOT_TILE_COUNT: usize = 10_000_000;
pub const MAX_ROOT_CHILD_COUNT: usize = 10_000_000;

} // verus!
