use vstd::prelude::*;

use crate::reader::byte_reader::ByteReader;
use crate::reader::error::{Failure, fill_outcome, outcome, ErrorView, HeliumError};
use crate::reader::grid::CompressionFlags;
use crate::reader::helpers::{spec_i32, Helper};
use crate::tree::root_node::{
    lemma_root_buffers_shape, root_filled, same_root_topology, spec_root_buffers,
    spec_root_topology, RootNode, RootNodeView,
};

verus! {

/// The voxel tree of a grid.
#[derive(Debug)]
pub struct Tree {
    pub root: RootNode,
}

/// The mathematical value of a [`Tree`].
pub struct TreeView {
    pub root: RootNodeView,
}

impl View for Tree {
    type V = TreeView;

    open spec fn view(&self) -> TreeView {
        TreeView { root: self.root@ }
    }
}

/// The topology of a tree: a positive buffer count, then the topology of
/// the root.
pub open spec fn spec_tree_topology(
    data: Seq<u8>,
    pos: int,
    compression: CompressionFlags,
    save_float_as_half: bool,
) -> Result<(TreeView, int), Failure> {
    match spec_i32(data, pos) {
        Ok((buffer_count, p1)) => if buffer_count <= 0 {
            Err((ErrorView::InvalidTreeBufferCount(buffer_count), p1))
        } else {
            match spec_root_topology(data, p1, compression, save_float_as_half) {
                Ok((root, p2)) => Ok((TreeView { root }, p2)),
                Err(e) => Err(e),
            }
        },
        Err(e) => Err(e),
    }
}

/// Reading the buffers of all the leaves of a tree.
pub open spec fn spec_tree_buffers(
    data: Seq<u8>,
    pos: int,
    tree: TreeView,
    compression: CompressionFlags,
    save_float_as_half: bool,
) -> (TreeView, int, Option<Failure>) {
    let r = spec_root_buffers(data, pos, tree.root, compression, save_float_as_half);
    (TreeView { root: r.0 }, r.1, r.2)
}

/// Reading the buffers of a tree changes nothing but the values of its
/// leaves: origins, masks, tiles, internal values and the shape of the tree
/// stay as the topology gave them. When it succeeds, every leaf holds one
/// value per voxel.
pub proof fn lemma_read_buffers_keeps_topology(
    data: Seq<u8>,
    pos: int,
    tree: TreeView,
    compression: CompressionFlags,
    save_float_as_half: bool,
)
    ensures
        ({
            let r = spec_tree_buffers(data, pos, tree, compression, save_float_as_half);
            &&& same_root_topology(r.0.root, tree.root)
            &&& r.2 is None ==> root_filled(r.0.root)
        }),
{
    lemma_root_buffers_shape(data, pos, tree.root, compression, save_float_as_half);
}

impl Tree {
    /// Reads the topology of a tree: its buffer count, which must be
    /// positive, and the topology of its root.
    pub fn read_topology(
        reader: &mut ByteReader,
        compression: CompressionFlags,
        save_float_as_half: bool,
    ) -> (r: Result<Self, HeliumError>)
        ensures
            final(reader).bytes == old(reader).bytes,
            outcome(
                r,
                spec_tree_topology(
                    old(reader).data(),
                    old(reader).pos as int,
                    compression,
                    save_float_as_half,
                ),
                final(reader).pos,
            ),
    {
        let buffer_count = match Helper::read_i32_le(reader) {
            Ok(v) => v,
            Err(e) => return Err(e),
        };
        if buffer_count <= 0 {
            return Err(HeliumError::InvalidTreeBufferCount(buffer_count));
        }
        let root = match RootNode::read_topology(reader, compression, save_float_as_half) {
            Ok(r) => r,
            Err(e) => return Err(e),
        };
        Ok(Self { root })
    }

    /// Reads the values of all the leaves of the tree, in order, stopping
    /// at the first failure; only leaf values change.
    pub fn read_buffers(
        &mut self,
        reader: &mut ByteReader,
        compression: CompressionFlags,
        save_float_as_half: bool,
    ) -> (r: Result<(), HeliumError>)
        ensures
            final(reader).bytes == old(reader).bytes,
            fill_outcome(
                r,
                final(self)@,
                final(reader).pos,
                spec_tree_buffers(
                    old(reader).data(),
                    old(reader).pos as int,
                    old(self)@,
                    compression,
                    save_float_as_half,
                ),
            ),
    {
        self.root.read_buffers(reader, compression, save_float_as_half)
    }
}

} // verus!
