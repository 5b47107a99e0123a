use vstd::prelude::*;

use crate::reader::byte_reader::ByteReader;
use crate::reader::error::{Failure, outcome, ErrorView, HeliumError};
use crate::reader::grid_descriptor::{GridDescriptor, GridDescriptorView};
use crate::reader::helpers::{spec_byte_range, spec_checked_offset, spec_u32, Helper};
use crate::reader::metadata::{metadata_view, spec_metadata, Metadata, MetadataView};
use crate::reader::transform::{spec_transform, Transform, TransformView};

verus! {

/// The compression flags of a grid.
#[derive(Debug, Clone, Copy)]
pub struct CompressionFlags {
    pub raw: u32,
    pub zip: bool,
    pub active_mask: bool,
    pub blosc: bool,
}

impl CompressionFlags {
    pub const ZIP: u32 = 0x1;
    pub const ACTIVE_MASK: u32 = 0x2;
    pub const BLOSC: u32 = 0x4;

    /// The flags of the raw value: each known flag is its bit.
    pub fn from_raw(raw: u32) -> (f: Self)
        ensures
            f.raw == raw,
            f.zip == (raw & 0x1 != 0),
            f.active_mask == (raw & 0x2 != 0),
            f.blosc == (raw & 0x4 != 0),
    {
        Self {
            raw,
            zip: raw & Self::ZIP != 0,
            active_mask: raw & Self::ACTIVE_MASK != 0,
            blosc: raw & Self::BLOSC != 0,
        }
    }

    /// The bits of the raw value that are no known flag; they are zero
    /// exactly when the raw value is below 8.
    pub fn unknown_bits(self) -> (r: u32)
        ensures
            r == self.raw & !0x7u32,
            r == 0 <==> self.raw < 8,
    {
        let known = Self::ZIP | Self::ACTIVE_MASK | Self::BLOSC;
        assert(known == 0x7u32) by (bit_vector)
            requires
                known == 0x1u32 | 0x2u32 | 0x4u32,
        ;
        let r = self.raw & !known;
        proof {
            let raw = self.raw;
            assert((raw & !0x7u32 == 0) <==> raw < 8) by (bit_vector);
        }
        r
    }
}


/// The raw value that a set of flags stands for.
pub open spec fn flags_to_raw(f: CompressionFlags) -> u32 {
    (if f.zip {
        1u32
    } else {
        0u32
    }) | (if f.active_mask {
        2u32
    } else {
        0u32
    }) | (if f.blosc {
        4u32
    } else {
        0u32
    })
}

/// A raw value with no unknown bit is exactly the value that its three
/// flags stand for; a raw value with unknown bits is not.
pub proof fn lemma_flags_describe_known_raw(raw: u32)
    ensures
        (raw & !0x7u32 == 0) <==> flags_to_raw(spec_compression_flags(raw)) == raw,
{
    let z = raw & 0x1 != 0;
    let a = raw & 0x2 != 0;
    let b = raw & 0x4 != 0;
    assert((raw & !0x7u32 == 0) <==> ((if z { 1u32 } else { 0u32 }) | (if a { 2u32 } else {
        0u32
    }) | (if b { 4u32 } else { 0u32 })) == raw) by (bit_vector)
        requires
            z == (raw & 0x1 != 0),
            a == (raw & 0x2 != 0),
            b == (raw & 0x4 != 0),
    ;
}

/// A grid: its descriptor, compression flags, metadata, transform, and the
/// raw bytes of its topology and of its value buffers.
#[derive(Debug)]
pub struct Grid {
    pub descriptor: GridDescriptor,
    pub compression: CompressionFlags,
    pub metadata: Vec<Metadata>,
    pub transform: Transform,
    pub raw_topology: Vec<u8>,
    pub raw_buffers: Vec<u8>,
}

/// The mathematical value of a [`Grid`].
pub struct GridView {
    pub descriptor: GridDescriptorView,
    pub compression: CompressionFlags,
    pub metadata: Seq<MetadataView>,
    pub transform: TransformView,
    pub raw_topology: Seq<u8>,
    pub raw_buffers: Seq<u8>,
}

impl View for Grid {
    type V = GridView;

    open spec fn view(&self) -> GridView {
        GridView {
            descriptor: self.descriptor@,
            compression: self.compression,
            metadata: metadata_view(self.metadata@),
            transform: self.transform@,
            raw_topology: self.raw_topology@,
            raw_buffers: self.raw_buffers@,
        }
    }
}

/// The compression flags of a raw value.
pub open spec fn spec_compression_flags(raw: u32) -> CompressionFlags {
    CompressionFlags {
        raw,
        zip: raw & 0x1 != 0,
        active_mask: raw & 0x2 != 0,
        blosc: raw & 0x4 != 0,
    }
}

/// Grid number `grid_index`, described by `desc`, in a file of
/// `file_length` bytes: at the grid position, the compression flags (a
/// `u32` with no unknown bit), the grid's metadata and its transform; the
/// topology runs from there to the block position and the buffers from the
/// block position to the end position. An instance of another grid holds no
/// topology or buffers of its own. Failures in the descriptor's offsets leave
/// the reader at `pos`.
pub open spec fn spec_grid(
    data: Seq<u8>,
    pos: int,
    desc: GridDescriptorView,
    grid_index: usize,
    file_length: u64,
) -> Result<(GridView, int), Failure> {
    match spec_checked_offset(desc.grid_position, "grid_position"@) {
        Ok(grid_position) => match spec_checked_offset(desc.block_position, "block_position"@) {
            Ok(block_position) => match spec_checked_offset(desc.end_position, "end_position"@) {
                Ok(end_position) => if end_position > file_length {
                    Err((ErrorView::GridOffsetPastEnd { grid_index, end_position, file_length }, pos))
                } else {
                    match spec_u32(data, grid_position as int) {
                        Ok((raw, p1)) => if raw & !0x7u32 != 0 {
                            Err((ErrorView::UnknownCompressionFlags { grid_index, flags: raw }, p1))
                        } else {
                            match spec_metadata(data, p1) {
                                Ok((metadata, p2)) => match spec_transform(data, p2) {
                                    Ok((transform, p3)) => if p3 > block_position {
                                        Err(
                                            (
                                                ErrorView::GridSectionOverlap {
                                                    grid_index,
                                                    topology_start: p3 as u64,
                                                    block_position,
                                                },
                                                p3,
                                            ),
                                        )
                                    } else if desc.instance_parent_name.len() != 0 {
                                        Ok(
                                            (
                                                GridView {
                                                    descriptor: desc,
                                                    compression: spec_compression_flags(raw),
                                                    metadata,
                                                    transform,
                                                    raw_topology: Seq::empty(),
                                                    raw_buffers: Seq::empty(),
                                                },
                                                p3,
                                            ),
                                        )
                                    } else {
                                        match spec_byte_range(data, p3, p3 as u64, block_position) {
                                            Ok((raw_topology, q1)) => match spec_byte_range(
                                                data,
                                                q1,
                                                block_position,
                                                end_position,
                                            ) {
                                                Ok((raw_buffers, q)) => Ok(
                                                    (
                                                        GridView {
                                                            descriptor: desc,
                                                            compression: spec_compression_flags(raw),
                                                            metadata,
                                                            transform,
                                                            raw_topology,
                                                            raw_buffers,
                                                        },
                                                        q,
                                                    ),
                                                ),
                                                Err(e) => Err(e),
                                            },
                                            Err(e) => Err(e),
                                        }
                                    },
                                    Err(e) => Err(e),
                                },
                                Err(e) => Err(e),
                            }
                        },
                        Err(e) => Err(e),
                    }
                },
                Err(e) => Err((e, pos)),
            },
            Err(e) => Err((e, pos)),
        },
        Err(e) => Err((e, pos)),
    }
}

/// Reading a grid is a function of the bytes, the read position, the
/// descriptor, the grid's index and the file length: any two reads that meet
/// the contract of [`Grid::read`] on the same inputs give the same grid, or
/// the same error, and leave the reader at the same position.
pub proof fn lemma_grid_read_determined(
    data: Seq<u8>,
    pos: int,
    desc: GridDescriptorView,
    grid_index: usize,
    file_length: u64,
    r1: Result<Grid, HeliumError>,
    end1: u64,
    r2: Result<Grid, HeliumError>,
    end2: u64,
)
    requires
        outcome(r1, spec_grid(data, pos, desc, grid_index, file_length), end1),
        outcome(r2, spec_grid(data, pos, desc, grid_index, file_length), end2),
    ensures
        end1 == end2,
        r1 is Ok <==> r2 is Ok,
        r1 matches Ok(a) ==> (r2 matches Ok(b) && a@ == b@),
        r1 matches Err(a) ==> (r2 matches Err(b) && a@ == b@),
{
}

impl Grid {
    /// Reads grid number `grid_index`, described by `descriptor`, from a
    /// file of `file_length` bytes.
    pub fn read(
        reader: &mut ByteReader,
        descriptor: &GridDescriptor,
        grid_index: usize,
        file_length: u64,
    ) -> (r: Result<Grid, HeliumError>)
        ensures
            final(reader).bytes == old(reader).bytes,
            outcome(
                r,
                spec_grid(
                    old(reader).data(),
                    old(reader).pos as int,
                    descriptor@,
                    grid_index,
                    file_length,
                ),
                final(reader).pos,
            ),
    {
        let grid_position = match Helper::checked_offset(descriptor.grid_position, "grid_position") {
            Ok(v) => v,
            Err(e) => return Err(e),
        };
        let block_position = match Helper::checked_offset(
            descriptor.block_position,
            "block_position",
        ) {
            Ok(v) => v,
            Err(e) => return Err(e),
        };
        let end_position = match Helper::checked_offset(descriptor.end_position, "end_position") {
            Ok(v) => v,
            Err(e) => return Err(e),
        };
        if end_position > file_length {
            return Err(HeliumError::GridOffsetPastEnd { grid_index, end_position, file_length });
        }
        reader.seek(grid_position);
        let compression_raw = match Helper::read_u32_le(reader) {
            Ok(v) => v,
            Err(e) => return Err(e),
        };
        let compression = CompressionFlags::from_raw(compression_raw);
        if compression.unknown_bits() != 0 {
            return Err(HeliumError::UnknownCompressionFlags { grid_index, flags: compression_raw });
        }
        let metadata = match Metadata::read(reader) {
            Ok(m) => m,
            Err(e) => return Err(e),
        };
        let transform = match Transform::read(reader) {
            Ok(t) => t,
            Err(e) => return Err(e),
        };
        let topology_start = reader.stream_position();
        if topology_start > block_position {
            return Err(HeliumError::GridSectionOverlap { grid_index, topology_start, block_position });
        }
        let is_instance = !descriptor.instance_parent_name.as_str().is_empty();
        let raw_topology = if is_instance {
            Vec::new()
        } else {
            match Helper::read_byte_range(reader, topology_start, block_position) {
                Ok(b) => b,
                Err(e) => return Err(e),
            }
        };
        let raw_buffers = if is_instance {
            Vec::new()
        } else {
            match Helper::read_byte_range(reader, block_position, end_position) {
                Ok(b) => b,
                Err(e) => return Err(e),
            }
        };
        Ok(
            Grid {
                descriptor: descriptor.clone(),
                compression,
                metadata,
                transform,
                raw_topology,
                raw_buffers,
            },
        )
    }
}

} // verus!
