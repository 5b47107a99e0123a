use vstd::prelude::*;

use crate::reader::byte_reader::ByteReader;
use crate::reader::error::{Failure, outcome, ErrorView, HeliumError};
use crate::reader::grid::CompressionFlags;
use crate::reader::helpers::{spec_f32_array, F32Bits, Helper};
use crate::reader::vdb_constants::LEAF_NODE_SIZE;
use crate::tree::coord::Coord;
use crate::tree::node_mask::{spec_node_mask, NodeMask, NodeMaskView};

verus! {

/// A leaf node: 8x8x8 voxels.
#[derive(Debug)]
pub struct LeafNode {
    pub origin: Coord,
    pub value_mask: NodeMask,
    pub values: Vec<F32Bits>,
}

/// The mathematical value of a [`LeafNode`].
pub struct LeafNodeView {
    pub origin: Coord,
    pub value_mask: NodeMaskView,
    pub values: Seq<F32Bits>,
}

impl View for LeafNode {
    type V = LeafNodeView;

    open spec fn view(&self) -> LeafNodeView {
        LeafNodeView { origin: self.origin, value_mask: self.value_mask@, values: self.values@ }
    }
}

/// Two leaves have the same topology: the same origin and value mask.
pub open spec fn same_leaf_topology(a: LeafNodeView, b: LeafNodeView) -> bool {
    a.origin == b.origin && a.value_mask == b.value_mask
}

/// A leaf holds a value for each of its voxels.
pub open spec fn leaf_filled(a: LeafNodeView) -> bool {
    a.values.len() == LEAF_NODE_SIZE
}

/// The topology of a leaf: its value mask; its values come later.
pub open spec fn spec_leaf_topology(data: Seq<u8>, pos: int, origin: Coord) -> Result<
    (LeafNodeView, int),
    Failure,
> {
    match spec_node_mask(data, pos, LEAF_NODE_SIZE) {
        Ok((m, q)) => Ok((LeafNodeView { origin, value_mask: m, values: Seq::empty() }, q)),
        Err(e) => Err(e),
    }
}

/// Refuses half floats and compressed values, which are not read.
pub open spec fn spec_value_encoding(compression: CompressionFlags, save_float_as_half: bool) -> Result<
    (),
    ErrorView,
> {
    if save_float_as_half {
        Err(ErrorView::HalfFloatNotImplemented)
    } else if compression.zip || compression.blosc || compression.active_mask {
        Err(ErrorView::CompressedValuesNotImplemented { flags: compression.raw })
    } else {
        Ok(())
    }
}

/// The buffer of a leaf: `LEAF_NODE_SIZE` uncompressed 32-bit floats. An
/// encoding that is not read fails before anything is read.
pub open spec fn spec_leaf_buffer(
    data: Seq<u8>,
    pos: int,
    compression: CompressionFlags,
    save_float_as_half: bool,
) -> Result<(Seq<F32Bits>, int), Failure> {
    match spec_value_encoding(compression, save_float_as_half) {
        Ok(_) => spec_f32_array(data, pos, LEAF_NODE_SIZE as int),
        Err(e) => Err((e, pos)),
    }
}

/// Checks the value encoding, as [`spec_value_encoding`] says.
pub(crate) fn check_value_encoding(compression: CompressionFlags, save_float_as_half: bool) -> (r: Result<
    (),
    HeliumError,
>)
    ensures
        match spec_value_encoding(compression, save_float_as_half) {
            Ok(_) => r is Ok,
            Err(e) => r matches Err(x) && x@ == e,
        },
{
    if save_float_as_half {
        return Err(HeliumError::HalfFloatNotImplemented);
    }
    if compression.zip || compression.blosc || compression.active_mask {
        return Err(HeliumError::CompressedValuesNotImplemented { flags: compression.raw });
    }
    Ok(())
}

impl LeafNode {
    /// Reads the topology of a leaf at `origin`: its value mask. Its values
    /// are left empty.
    pub fn read_topology(reader: &mut ByteReader, origin: Coord) -> (r: Result<Self, HeliumError>)
        ensures
            final(reader).bytes == old(reader).bytes,
            outcome(r, spec_leaf_topology(old(reader).data(), old(reader).pos as int, origin), final(reader).pos),
            r matches Ok(leaf) ==> leaf.value_mask@.wf(),
    {
        let value_mask = match NodeMask::read(reader, LEAF_NODE_SIZE) {
            Ok(m) => m,
            Err(e) => return Err(e),
        };
        Ok(Self { origin, value_mask, values: Vec::new() })
    }

    /// Reads the values of the leaf. On failure the leaf is unchanged.
    pub fn read_buffer(
        &mut self,
        reader: &mut ByteReader,
        compression: CompressionFlags,
        save_float_as_half: bool,
    ) -> (r: Result<(), HeliumError>)
        ensures
            final(reader).bytes == old(reader).bytes,
            match spec_leaf_buffer(old(reader).data(), old(reader).pos as int, compression, save_float_as_half) {
                Ok((vs, q)) => r is Ok && final(self)@ == (LeafNodeView { values: vs, ..old(self)@ })
                    && final(reader).pos == q,
                Err((e, q)) => r matches Err(x) && x@ == e && final(self)@ == old(self)@ && final(reader).pos == q,
            },
    {
        match check_value_encoding(compression, save_float_as_half) {
            Ok(_) => {},
            Err(e) => return Err(e),
        }
        let values = match Helper::read_f32_array(reader, LEAF_NODE_SIZE) {
            Ok(v) => v,
            Err(e) => return Err(e),
        };
        self.values = values;
        Ok(())
    }
}

} // verus!
