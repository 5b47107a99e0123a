use vstd::prelude::*;

use crate::reader::byte_reader::ByteReader;
use crate::reader::error::{Failure, outcome, ErrorView, HeliumError};
use crate::reader::grid::{spec_grid, Grid, GridView};
use crate::reader::grid_descriptor::{
    spec_grid_descriptor, spec_validate, GridDescriptor, GridDescriptorView,
};
use crate::reader::header::{Header, HeaderView};
use crate::reader::helpers::{spec_i32, Helper};
use crate::reader::vdb_constants::MAX_GRID_COUNT;

verus! {

/// The grid descriptors of a file.
#[derive(Debug)]
pub struct Grids {
    pub descriptors: Vec<GridDescriptor>,
}

pub open spec fn descriptors_view(ds: Seq<GridDescriptor>) -> Seq<GridDescriptorView> {
    ds.map_values(|d: GridDescriptor| d@)
}

pub open spec fn grids_view(gs: Seq<Grid>) -> Seq<GridView> {
    gs.map_values(|g: Grid| g@)
}

/// The number of grids: an `i32` from 0 to `MAX_GRID_COUNT`.
pub open spec fn spec_grid_count(data: Seq<u8>, pos: int) -> Result<(usize, int), Failure> {
    match spec_i32(data, pos) {
        Ok((count, p1)) => if !(0 <= count <= MAX_GRID_COUNT) {
            Err((ErrorView::InvalidGridCount(count), p1))
        } else {
            Ok((count as usize, p1))
        },
        Err(e) => Err(e),
    }
}

/// Descriptor number `grid_index`, which must be valid; the next one
/// starts at its end position.
pub open spec fn spec_next_descriptor(data: Seq<u8>, pos: int, grid_index: usize, file_length: u64) -> Result<
    (GridDescriptorView, int),
    Failure,
> {
    match spec_grid_descriptor(data, pos) {
        Ok((d, q)) => match spec_validate(d, grid_index, file_length) {
            Ok(_) => Ok((d, d.end_position as int)),
            Err(e) => Err((e, q)),
        },
        Err(e) => Err(e),
    }
}

/// The first `n` grid descriptors of a file of `file_length` bytes, each
/// valid; the next descriptor starts at the end position of the one before.
pub open spec fn spec_descriptor_list(data: Seq<u8>, pos: int, file_length: u64, n: int) -> Result<
    (Seq<GridDescriptorView>, int),
    Failure,
>
    decreases n,
{
    if n <= 0 {
        Ok((Seq::empty(), pos))
    } else {
        match spec_descriptor_list(data, pos, file_length, n - 1) {
            Ok((ds, q)) => match spec_next_descriptor(data, q, (n - 1) as usize, file_length) {
                Ok((d, q2)) => Ok((ds.push(d), q2)),
                Err(e) => Err(e),
            },
            Err(e) => Err(e),
        }
    }
}

/// The descriptors of `count` grids; the file must hold grid offsets.
pub open spec fn spec_grid_descriptors(
    data: Seq<u8>,
    pos: int,
    header: HeaderView,
    count: usize,
    file_length: u64,
) -> Result<(Seq<GridDescriptorView>, int), Failure> {
    if !header.has_grid_offsets {
        Err((ErrorView::GridOffsetsRequired, pos))
    } else {
        spec_descriptor_list(data, pos, file_length, count as int)
    }
}

/// The grid count, then the grid descriptors.
pub open spec fn spec_grids(data: Seq<u8>, pos: int, header: HeaderView, file_length: u64) -> Result<
    (Seq<GridDescriptorView>, int),
    Failure,
> {
    match spec_grid_count(data, pos) {
        Ok((count, p1)) => spec_grid_descriptors(data, p1, header, count, file_length),
        Err(e) => Err(e),
    }
}

/// The first `n` grids of `descriptors`, each read where its descriptor
/// says.
pub open spec fn spec_grid_list(
    data: Seq<u8>,
    pos: int,
    descriptors: Seq<GridDescriptorView>,
    file_length: u64,
    n: int,
) -> Result<(Seq<GridView>, int), Failure>
    decreases n,
{
    if n <= 0 {
        Ok((Seq::empty(), pos))
    } else {
        match spec_grid_list(data, pos, descriptors, file_length, n - 1) {
            Ok((gs, q)) => match spec_grid(data, q, descriptors[n - 1], (n - 1) as usize, file_length) {
                Ok((g, q)) => Ok((gs.push(g), q)),
                Err(e) => Err(e),
            },
            Err(e) => Err(e),
        }
    }
}

proof fn lemma_descriptor_list_err(data: Seq<u8>, pos: int, file_length: u64, n: int, m: int)
    requires
        n <= m,
        spec_descriptor_list(data, pos, file_length, n) is Err,
    ensures
        spec_descriptor_list(data, pos, file_length, m) == spec_descriptor_list(
            data,
            pos,
            file_length,
            n,
        ),
    decreases m - n,
{
    if n < m {
        lemma_descriptor_list_err(data, pos, file_length, n, m - 1);
    }
}

/// A list of `n` descriptors has `n` entries.
pub proof fn lemma_descriptor_list_len(data: Seq<u8>, pos: int, file_length: u64, n: int)
    requires
        0 <= n,
    ensures
        spec_descriptor_list(data, pos, file_length, n) matches Ok((ds, _)) ==> ds.len() == n,
    decreases n,
{
    if n > 0 {
        lemma_descriptor_list_len(data, pos, file_length, n - 1);
    }
}

/// The offsets of a descriptor are in order and within the file.
pub open spec fn offsets_in_order(d: GridDescriptorView, file_length: u64) -> bool {
    0 <= d.grid_position <= d.block_position <= d.end_position <= file_length
}

/// Every descriptor of a list read in full has its offsets in order and
/// within the file.
pub proof fn lemma_descriptor_list_valid(data: Seq<u8>, pos: int, file_length: u64, n: int)
    ensures
        spec_descriptor_list(data, pos, file_length, n) matches Ok((ds, _)) ==> forall|i: int|
            0 <= i < ds.len() ==> offsets_in_order(#[trigger] ds[i], file_length),
    decreases n,
{
    if n > 0 {
        lemma_descriptor_list_valid(data, pos, file_length, n - 1);
    }
}

/// A list of grids for the first `n` descriptors has `n` entries, each
/// carrying the descriptor it was read by.
pub proof fn lemma_grid_list_len(
    data: Seq<u8>,
    pos: int,
    descriptors: Seq<GridDescriptorView>,
    file_length: u64,
    n: int,
)
    requires
        0 <= n,
    ensures
        spec_grid_list(data, pos, descriptors, file_length, n) matches Ok((gs, _)) ==> {
            &&& gs.len() == n
            &&& forall|i: int| 0 <= i < n ==> (#[trigger] gs[i]).descriptor == descriptors[i]
        },
    decreases n,
{
    if n > 0 {
        lemma_grid_list_len(data, pos, descriptors, file_length, n - 1);
    }
}

proof fn lemma_grid_list_err(
    data: Seq<u8>,
    pos: int,
    descriptors: Seq<GridDescriptorView>,
    file_length: u64,
    n: int,
    m: int,
)
    requires
        n <= m,
        spec_grid_list(data, pos, descriptors, file_length, n) is Err,
    ensures
        spec_grid_list(data, pos, descriptors, file_length, m) == spec_grid_list(
            data,
            pos,
            descriptors,
            file_length,
            n,
        ),
    decreases m - n,
{
    if n < m {
        lemma_grid_list_err(data, pos, descriptors, file_length, n, m - 1);
    }
}

/// Reading the grid count gives what [`spec_grid_count`] says.
pub(crate) fn read_grid_count(reader: &mut ByteReader) -> (r: Result<usize, HeliumError>)
    ensures
        final(reader).bytes == old(reader).bytes,
        match spec_grid_count(old(reader).data(), old(reader).pos as int) {
            Ok((c, q)) => r == Ok::<usize, HeliumError>(c) && final(reader).pos == q,
            Err((e, q)) => r matches Err(x) && x@ == e && final(reader).pos == q,
        },
{
    let grid_count = match Helper::read_i32_le(reader) {
        Ok(v) => v,
        Err(e) => return Err(e),
    };
    if !(0 <= grid_count && grid_count <= MAX_GRID_COUNT) {
        return Err(HeliumError::InvalidGridCount(grid_count));
    }
    Ok(grid_count as usize)
}

/// Reads descriptor number `grid_index`, validates it and moves to its end
/// position.
fn read_valid_descriptor(reader: &mut ByteReader, grid_index: usize, file_length: u64) -> (r: Result<
    GridDescriptor,
    HeliumError,
>)
    ensures
        final(reader).bytes == old(reader).bytes,
        outcome(
            r,
            spec_next_descriptor(old(reader).data(), old(reader).pos as int, grid_index, file_length),
            final(reader).pos,
        ),
{
    let descriptor = match GridDescriptor::read(reader) {
        Ok(dsc) => dsc,
        Err(e) => return Err(e),
    };
    match descriptor.validate(grid_index, file_length) {
        Ok(_) => {},
        Err(e) => return Err(e),
    }
    let next_descriptor_position = descriptor.end_position;
    reader.seek(next_descriptor_position as u64);
    Ok(descriptor)
}

/// Reads and validates `grid_count` descriptors, as
/// [`spec_grid_descriptors`] says.
pub(crate) fn read_grid_descriptors(
    reader: &mut ByteReader,
    header: &Header,
    grid_count: usize,
    file_length: u64,
) -> (r: Result<Vec<GridDescriptor>, HeliumError>)
    ensures
        final(reader).bytes == old(reader).bytes,
        match spec_grid_descriptors(
            old(reader).data(),
            old(reader).pos as int,
            header@,
            grid_count,
            file_length,
        ) {
            Ok((ds, q)) => r matches Ok(v) && descriptors_view(v@) == ds && final(reader).pos == q,
            Err((e, q)) => r matches Err(x) && x@ == e && final(reader).pos == q,
        },
{
    if !header.has_grid_offsets {
        return Err(HeliumError::GridOffsetsRequired);
    }
    let ghost d = reader.data();
    let ghost p = reader.pos as int;
    let mut grid_descriptors: Vec<GridDescriptor> = Vec::new();
    assert(descriptors_view(grid_descriptors@) =~= Seq::empty());
    let mut grid_index: usize = 0;
    while grid_index < grid_count
        invariant
            0 <= grid_index <= grid_count,
            header.has_grid_offsets,
            reader.bytes == old(reader).bytes,
            d == reader.data(),
            d == old(reader).data(),
            p == old(reader).pos,
            spec_descriptor_list(d, p, file_length, grid_index as int) == Ok::<
                (Seq<GridDescriptorView>, int),
                Failure,
            >((descriptors_view(grid_descriptors@), reader.pos as int)),
        decreases grid_count - grid_index,
    {
        let descriptor = match read_valid_descriptor(reader, grid_index, file_length) {
            Ok(dsc) => dsc,
            Err(e) => {
                proof {
                    lemma_descriptor_list_err(d, p, file_length, grid_index + 1, grid_count as int);
                }
                return Err(e);
            },
        };
        let ghost before = grid_descriptors@;
        let ghost dv = descriptor@;
        grid_descriptors.push(descriptor);
        assert(descriptors_view(grid_descriptors@) =~= descriptors_view(before).push(dv));
        grid_index = grid_index + 1;
    }
    Ok(grid_descriptors)
}

/// A lookup of `name` among descriptors: the first with that unique name.
pub open spec fn first_named(ds: Seq<GridDescriptorView>, name: Seq<char>, i: int) -> bool {
    &&& 0 <= i < ds.len()
    &&& ds[i].unique_name == name
    &&& forall|j: int| 0 <= j < i ==> ds[j].unique_name != name
}

impl Grids {
    /// No descriptors.
    pub fn new() -> (g: Self)
        ensures
            g.descriptors@.len() == 0,
    {
        Self { descriptors: Vec::new() }
    }

    /// Reads the grid count and the grid descriptors of a file of
    /// `file_length` bytes.
    pub fn read(reader: &mut ByteReader, header: &Header, file_length: u64) -> (r: Result<
        Self,
        HeliumError,
    >)
        ensures
            final(reader).bytes == old(reader).bytes,
            match spec_grids(old(reader).data(), old(reader).pos as int, header@, file_length) {
                Ok((ds, q)) => r matches Ok(g) && descriptors_view(g.descriptors@) == ds
                    && final(reader).pos == q,
                Err((e, q)) => r matches Err(x) && x@ == e && final(reader).pos == q,
            },
            r matches Ok(g) ==> forall|i: int|
                0 <= i < g.descriptors@.len() ==> offsets_in_order(
                    #[trigger] descriptors_view(g.descriptors@)[i],
                    file_length,
                ),
    {
        let count = match read_grid_count(reader) {
            Ok(c) => c,
            Err(e) => return Err(e),
        };
        let ghost p1 = reader.pos as int;
        let descriptors = match read_grid_descriptors(reader, header, count, file_length) {
            Ok(d) => d,
            Err(e) => return Err(e),
        };
        proof {
            lemma_descriptor_list_valid(old(reader).data(), p1, file_length, count as int);
        }
        Ok(Self { descriptors })
    }

    /// The first descriptor whose unique name is `name`, if any.
    pub fn descriptor(&self, name: &str) -> (r: Option<&GridDescriptor>)
        ensures
            match r {
                Some(d) => exists|i: int|
                    first_named(descriptors_view(self.descriptors@), name@, i)
                        && self.descriptors@[i] == *d,
                None => forall|i: int|
                    0 <= i < self.descriptors@.len() ==> #[trigger] self.descriptors@[i].unique_name@
                        != name@,
            },
    {
        let wanted = name.to_owned();
        let mut i: usize = 0;
        while i < self.descriptors.len()
            invariant
                0 <= i <= self.descriptors@.len(),
                wanted@ == name@,
                forall|j: int| 0 <= j < i ==> #[trigger] self.descriptors@[j].unique_name@ != name@,
            decreases self.descriptors@.len() - i,
        {
            if self.descriptors[i].unique_name == wanted {
                assert(first_named(descriptors_view(self.descriptors@), name@, i as int));
                return Some(&self.descriptors[i]);
            }
            i = i + 1;
        }
        None
    }

    /// Reads the grids that `descriptors` describe, in order, from a file of
    /// `file_length` bytes.
    pub fn read_grids(reader: &mut ByteReader, descriptors: &[GridDescriptor], file_length: u64) -> (r:
        Result<Vec<Grid>, HeliumError>)
        ensures
            final(reader).bytes == old(reader).bytes,
            match spec_grid_list(
                old(reader).data(),
                old(reader).pos as int,
                descriptors_view(descriptors@),
                file_length,
                descriptors@.len() as int,
            ) {
                Ok((gs, q)) => r matches Ok(v) && grids_view(v@) == gs && final(reader).pos == q,
                Err((e, q)) => r matches Err(x) && x@ == e && final(reader).pos == q,
            },
    {
        let ghost d = reader.data();
        let ghost p = reader.pos as int;
        let ghost dv = descriptors_view(descriptors@);
        let mut grids: Vec<Grid> = Vec::new();
        assert(grids_view(grids@) =~= Seq::empty());
        let mut grid_index: usize = 0;
        while grid_index < descriptors.len()
            invariant
                0 <= grid_index <= descriptors@.len(),
                reader.bytes == old(reader).bytes,
                d == reader.data(),
                d == old(reader).data(),
                p == old(reader).pos,
                dv == descriptors_view(descriptors@),
                spec_grid_list(d, p, dv, file_length, grid_index as int) == Ok::<
                    (Seq<GridView>, int),
                    Failure,
                >((grids_view(grids@), reader.pos as int)),
            decreases descriptors@.len() - grid_index,
        {
            let grid = match Grid::read(reader, &descriptors[grid_index], grid_index, file_length) {
                Ok(g) => g,
                Err(e) => {
                    proof {
                        lemma_grid_list_err(d, p, dv, file_length, grid_index + 1, descriptors@.len() as int);
                    }
                    return Err(e);
                },
            };
            let ghost before = grids@;
            let ghost gv = grid@;
            grids.push(grid);
            assert(grids_view(grids@) =~= grids_view(before).push(gv));
            grid_index = grid_index + 1;
        }
        Ok(grids)
    }
}

} // verus!
