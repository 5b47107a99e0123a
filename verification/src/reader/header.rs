use vstd::prelude::*;
use vstd::utf8::{decode_utf8, valid_utf8};

use crate::reader::byte_reader::{spec_take, ByteReader};
use crate::reader::error::{Failure, outcome, ErrorView, HeliumError};
use crate::reader::helpers::{decode_string, spec_bool, spec_u32, spec_u64, Helper};
use crate::reader::vdb_constants::{MAX_SUPPORTED_VERSION, MIN_SUPPORTED_VERSION, OPENVDB_MAGIC};

verus! {

/// The header of a VDB file.
#[derive(Debug)]
pub struct Header {
    pub file_version: u32,
    pub library_major: u32,
    pub library_minor: u32,
    pub has_grid_offsets: bool,
    pub uuid: String,
}

/// The mathematical value of a [`Header`].
pub struct HeaderView {
    pub file_version: u32,
    pub library_major: u32,
    pub library_minor: u32,
    pub has_grid_offsets: bool,
    pub uuid: Seq<char>,
}

impl View for Header {
    type V = HeaderView;

    open spec fn view(&self) -> HeaderView {
        HeaderView {
            file_version: self.file_version,
            library_major: self.library_major,
            library_minor: self.library_minor,
            has_grid_offsets: self.has_grid_offsets,
            uuid: self.uuid@,
        }
    }
}

/// The header: the magic number (`u64`), the file version (`u32`, from
/// `MIN_SUPPORTED_VERSION` to `MAX_SUPPORTED_VERSION`), the library's major
/// and minor versions (`u32`s), whether grid offsets are present (a byte, 0
/// or 1), and a 36-byte UTF-8 UUID.
pub open spec fn spec_header(data: Seq<u8>, pos: int) -> Result<(HeaderView, int), Failure> {
    match spec_u64(data, pos) {
        Ok((magic, p1)) => if magic != OPENVDB_MAGIC {
            Err((ErrorView::InvalidMagic { expected: OPENVDB_MAGIC, found: magic }, p1))
        } else {
            match spec_u32(data, p1) {
                Ok((file_version, p2)) => if !(MIN_SUPPORTED_VERSION <= file_version
                    <= MAX_SUPPORTED_VERSION) {
                    Err((ErrorView::UnsupportedVersion(file_version), p2))
                } else {
                    match spec_u32(data, p2) {
                        Ok((library_major, p3)) => match spec_u32(data, p3) {
                            Ok((library_minor, p4)) => match spec_bool(
                                data,
                                p4,
                                "has_grid_offsets"@,
                            ) {
                                Ok((has_grid_offsets, p5)) => match spec_take(data, p5, 36) {
                                    Ok((uuid_bytes, p6)) => if !valid_utf8(uuid_bytes) {
                                        Err((ErrorView::InvalidUuidEncoding, p6))
                                    } else {
                                        Ok(
                                            (
                                                HeaderView {
                                                    file_version,
                                                    library_major,
                                                    library_minor,
                                                    has_grid_offsets,
                                                    uuid: decode_utf8(uuid_bytes),
                                                },
                                                p6,
                                            ),
                                        )
                                    },
                                    Err(e) => Err(e),
                                },
                                Err(e) => Err(e),
                            },
                            Err(e) => Err(e),
                        },
                        Err(e) => Err(e),
                    }
                },
                Err(e) => Err(e),
            }
        },
        Err(e) => Err(e),
    }
}

impl Header {
    /// An empty header: all numbers zero, no grid offsets, an empty UUID.
    pub fn new() -> (h: Self)
        ensures
            h.file_version == 0,
            h.library_major == 0,
            h.library_minor == 0,
            !h.has_grid_offsets,
            h.uuid@ == Seq::<char>::empty(),
    {
        Header {
            file_version: 0,
            library_major: 0,
            library_minor: 0,
            has_grid_offsets: false,
            uuid: String::new(),
        }
    }

    /// Reads the header; it takes 57 bytes.
    pub fn read(reader: &mut ByteReader) -> (r: Result<Self, HeliumError>)
        ensures
            final(reader).bytes == old(reader).bytes,
            outcome(r, spec_header(old(reader).data(), old(reader).pos as int), final(reader).pos),
            r is Ok ==> final(reader).pos == old(reader).pos + 57,
    {
        let magic = match Helper::read_u64_le(reader) {
            Ok(v) => v,
            Err(e) => return Err(e),
        };
        if magic != OPENVDB_MAGIC {
            return Err(HeliumError::InvalidMagic { expected: OPENVDB_MAGIC, found: magic });
        }
        let file_version = match Helper::read_u32_le(reader) {
            Ok(v) => v,
            Err(e) => return Err(e),
        };
        if !(MIN_SUPPORTED_VERSION <= file_version && file_version <= MAX_SUPPORTED_VERSION) {
            return Err(HeliumError::UnsupportedVersion(file_version));
        }
        let library_major = match Helper::read_u32_le(reader) {
            Ok(v) => v,
            Err(e) => return Err(e),
        };
        let library_minor = match Helper::read_u32_le(reader) {
            Ok(v) => v,
            Err(e) => return Err(e),
        };
        let has_grid_offsets = match Helper::read_bool(reader, "has_grid_offsets") {
            Ok(v) => v,
            Err(e) => return Err(e),
        };
        let uuid_bytes = match reader.read_exact(36) {
            Ok(b) => b,
            Err(e) => return Err(e),
        };
        let uuid = match decode_string(uuid_bytes) {
            Some(s) => s,
            None => return Err(HeliumError::InvalidUuidEncoding),
        };
        Ok(Header { file_version, library_major, library_minor, has_grid_offsets, uuid })
    }
}

} // verus!
