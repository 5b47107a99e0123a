//! Reading OpenVDB volume files: the file header, file and grid metadata,
//! grid descriptors, grid transforms, and the sparse voxel tree of a grid
//! (root node, upper and lower internal nodes, leaf nodes).
//!
//! Every parser works on an in-memory byte buffer through a
//! [`reader::byte_reader::ByteReader`] and is specified against a spec-level
//! description of the file format.
pub mod reader;
pub mod tree;
