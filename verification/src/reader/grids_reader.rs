use vstd::prelude::*;

use crate::reader::byte_reader::ByteReader;
use crate::reader::error::{Failure, ErrorView, HeliumError};
use crate::reader::grid::{Grid, GridView};
use crate::reader::grid_descriptor::{GridDescriptor, GridDescriptorView};
use crate::reader::grids::{
    descriptors_view, grids_view, read_grid_count, read_grid_descriptors, spec_grid_count,
    spec_grid_descriptors, spec_grid_list,
};
use crate::reader::header::{Header, HeaderView};

verus! {

/// All the grids of a file: their count, descriptors and contents.
#[derive(Debug)]
pub struct Grids {
    pub count: usize,
    pub descriptors: Vec<GridDescriptor>,
    pub grids: Vec<Grid>,
}

/// The mathematical value of a [`Grids`].
pub struct GridsView {
    pub count: usize,
    pub descriptors: Seq<GridDescriptorView>,
    pub grids: Seq<GridView>,
}

impl View for Grids {
    type V = GridsView;

    open spec fn view(&self) -> GridsView {
        GridsView {
            count: self.count,
            descriptors: descriptors_view(self.descriptors@),
            grids: grids_view(self.grids@),
        }
    }
}

/// The grid count, the grid descriptors, then each grid where its
/// descriptor says.
pub open spec fn spec_all_grids(data: Seq<u8>, pos: int, header: HeaderView, file_length: u64) -> Result<
    (GridsView, int),
    Failure,
> {
    match spec_grid_count(data, pos) {
        Ok((count, p1)) => match spec_grid_descriptors(data, p1, header, count, file_length) {
            Ok((descriptors, p2)) => match spec_grid_list(
                data,
                p2,
                descriptors,
                file_length,
                descriptors.len() as int,
            ) {
                Ok((grids, p3)) => Ok((GridsView { count, descriptors, grids }, p3)),
                Err(e) => Err(e),
            },
            Err(e) => Err(e),
        },
        Err(e) => Err(e),
    }
}

impl Grids {
    /// No grids.
    pub fn new() -> (g: Self)
        ensures
            g.count == 0,
            g.descriptors@.len() == 0,
            g.grids@.len() == 0,
    {
        Self { count: 0, descriptors: Vec::new(), grids: Vec::new() }
    }

    /// Reads the grid count, the grid descriptors and the grids of a file of
    /// `file_length` bytes; there is one grid per descriptor, and each grid
    /// carries its descriptor.
    pub fn read(reader: &mut ByteReader, header: &Header, file_length: u64) -> (r: Result<
        Self,
        HeliumError,
    >)
        ensures
            final(reader).bytes == old(reader).bytes,
            crate::reader::error::outcome(
                r,
                spec_all_grids(old(reader).data(), old(reader).pos as int, header@, file_length),
                final(reader).pos,
            ),
            r matches Ok(g) ==> g.count == g.descriptors@.len() && g.grids@.len() == g.count
                && forall|i: int|
                0 <= i < g.count ==> (#[trigger] g@.grids[i]).descriptor == g@.descriptors[i],
    {
        let count = match read_grid_count(reader) {
            Ok(c) => c,
            Err(e) => return Err(e),
        };
        let ghost p1 = reader.pos as int;
        let descriptors = match read_grid_descriptors(reader, header, count, file_length) {
            Ok(d) => d,
            Err(e) => return Err(e),
        };
        let ghost p2 = reader.pos as int;
        let grids = match crate::reader::grids::Grids::read_grids(
            reader,
            descriptors.as_slice(),
            file_length,
        ) {
            Ok(g) => g,
            Err(e) => return Err(e),
        };
        proof {
            crate::reader::grids::lemma_descriptor_list_len(
                old(reader).data(),
                p1,
                file_length,
                count as int,
            );
            crate::reader::grids::lemma_grid_list_len(
                old(reader).data(),
                p2,
                descriptors_view(descriptors@),
                file_length,
                descriptors@.len() as int,
            );
        }
        Ok(Self { count, descriptors, grids })
    }
}

} // verus!
