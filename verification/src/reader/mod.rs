pub mod byte_reader;
pub mod error;
pub mod grid;
pub mod grid_descriptor;
pub mod grids;
pub mod grids_reader;
pub mod header;
pub mod helpers;
pub mod layout;
pub mod metadata;
pub mod reader;
pub mod transform;
pub mod vdb_constants;

pub use error::HeliumError;
pub mod vdb_structs;
