use vstd::prelude::*;

use crate::reader::byte_reader::ByteReader;
use crate::reader::error::{Failure, outcome, ErrorView, HeliumError};
use crate::reader::helpers::{spec_i32, Helper};

verus! {

/// A voxel coordinate.
#[derive(Debug, Clone, Copy, PartialEq, Eq, Hash, Structural)]
pub struct Coord {
    pub x: i32,
    pub y: i32,
    pub z: i32,
}

impl View for Coord {
    type V = Coord;

    open spec fn view(&self) -> Coord {
        *self
    }
}

/// A coordinate: three little-endian `i32`s, x then y then z.
pub open spec fn spec_coord(data: Seq<u8>, pos: int) -> Result<(Coord, int), Failure> {
    match spec_i32(data, pos) {
        Ok((x, p1)) => match spec_i32(data, p1) {
            Ok((y, p2)) => match spec_i32(data, p2) {
                Ok((z, p3)) => Ok((Coord { x, y, z }, p3)),
                Err(e) => Err(e),
            },
            Err(e) => Err(e),
        },
        Err(e) => Err(e),
    }
}

impl Coord {
    pub fn read(reader: &mut ByteReader) -> (r: Result<Coord, HeliumError>)
        ensures
            final(reader).bytes == old(reader).bytes,
            outcome(r, spec_coord(old(reader).data(), old(reader).pos as int), final(reader).pos),
    {
        let x = match Helper::read_i32_le(reader) {
            Ok(v) => v,
            Err(e) => return Err(e),
        };
        let y = match Helper::read_i32_le(reader) {
            Ok(v) => v,
            Err(e) => return Err(e),
        };
        let z = match Helper::read_i32_le(reader) {
            Ok(v) => v,
            Err(e) => return Err(e),
        };
        Ok(Coord { x, y, z })
    }
}

} // verus!
