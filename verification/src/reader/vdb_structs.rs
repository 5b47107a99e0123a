//! The file-level records of a VDB file under their `Vdb` names.
use vstd::prelude::*;

pub use crate::reader::grid::CompressionFlags;
pub use crate::reader::grid_descriptor::GridDescriptor;
pub use crate::reader::vdb_constants::{
    MAX_GRID_COUNT, MAX_METADATA_COUNT, MAX_STRING_LENGTH, MAX_SUPPORTED_VERSION,
    MIN_SUPPORTED_VERSION, OPENVDB_MAGIC,
};

verus! {

/// The header of a VDB file.
pub type VdbHeader = crate::reader::header::Header;

/// A metadata entry of a VDB file.
pub type VdbMetadata = crate::reader::metadata::Metadata;

/// A grid of a VDB file.
pub type VdbGrid = crate::reader::grid::Grid;

/// The transform of a grid.
pub type VdbTransform = crate::reader::transform::Transform;

} // verus!
