use vstd::prelude::*;

use crate::reader::byte_reader::{spec_take, ByteReader};
use crate::reader::error::{Failure, ErrorView, HeliumError};
use crate::reader::helpers::{spec_string, spec_u32, Helper};
use crate::reader::vdb_constants::{MAX_METADATA_COUNT, MAX_STRING_LENGTH};

verus! {

/// One metadata entry: a name, a type name and an opaque payload.
#[derive(Debug)]
pub struct Metadata {
    pub name: String,
    pub value_type: String,
    pub payload: Vec<u8>,
}

/// The mathematical value of a [`Metadata`] entry.
pub struct MetadataView {
    pub name: Seq<char>,
    pub value_type: Seq<char>,
    pub payload: Seq<u8>,
}

impl View for Metadata {
    type V = MetadataView;

    open spec fn view(&self) -> MetadataView {
        MetadataView { name: self.name@, value_type: self.value_type@, payload: self.payload@ }
    }
}

pub open spec fn metadata_view(entries: Seq<Metadata>) -> Seq<MetadataView> {
    entries.map_values(|m: Metadata| m@)
}

/// One entry: name, type name, the payload size (a `u32`, at most
/// `MAX_STRING_LENGTH`), then the payload.
pub open spec fn spec_metadata_entry(data: Seq<u8>, pos: int) -> Result<(MetadataView, int), Failure> {
    match spec_string(data, pos) {
        Ok((name, p1)) => match spec_string(data, p1) {
            Ok((value_type, p2)) => match spec_u32(data, p2) {
                Ok((size, p3)) => if size > MAX_STRING_LENGTH {
                    Err((ErrorView::MetadataPayloadTooLarge { name, size: size as usize }, p3))
                } else {
                    match spec_take(data, p3, size as int) {
                        Ok((payload, p4)) => Ok((MetadataView { name, value_type, payload }, p4)),
                        Err(e) => Err(e),
                    }
                },
                Err(e) => Err(e),
            },
            Err(e) => Err(e),
        },
        Err(e) => Err(e),
    }
}

/// The first `n` entries.
pub open spec fn spec_metadata_entries(data: Seq<u8>, pos: int, n: int) -> Result<
    (Seq<MetadataView>, int),
    Failure,
>
    decreases n,
{
    if n <= 0 {
        Ok((Seq::empty(), pos))
    } else {
        match spec_metadata_entries(data, pos, n - 1) {
            Ok((es, q)) => match spec_metadata_entry(data, q) {
                Ok((e, q2)) => Ok((es.push(e), q2)),
                Err(err) => Err(err),
            },
            Err(err) => Err(err),
        }
    }
}

/// A metadata block: the entry count (a `u32`, at most
/// `MAX_METADATA_COUNT`), then the entries.
pub open spec fn spec_metadata(data: Seq<u8>, pos: int) -> Result<(Seq<MetadataView>, int), Failure> {
    match spec_u32(data, pos) {
        Ok((count, p1)) => if count > MAX_METADATA_COUNT {
            Err((ErrorView::InvalidMetadataCount(count), p1))
        } else {
            spec_metadata_entries(data, p1, count as int)
        },
        Err(e) => Err(e),
    }
}

/// What reading a block of metadata gave, against [`spec_metadata`].
pub open spec fn metadata_outcome(
    r: Result<Vec<Metadata>, HeliumError>,
    spec: Result<(Seq<MetadataView>, int), Failure>,
    end: u64,
) -> bool {
    match spec {
        Ok((es, q)) => r matches Ok(v) && metadata_view(v@) == es && end == q,
        Err((e, q)) => r matches Err(x) && x@ == e && end == q,
    }
}

proof fn lemma_metadata_entries_err(data: Seq<u8>, pos: int, n: int, m: int)
    requires
        n <= m,
        spec_metadata_entries(data, pos, n) is Err,
    ensures
        spec_metadata_entries(data, pos, m) == spec_metadata_entries(data, pos, n),
    decreases m - n,
{
    if n < m {
        lemma_metadata_entries_err(data, pos, n, m - 1);
    }
}

impl Metadata {
    /// Reads a block of metadata entries.
    pub fn read(reader: &mut ByteReader) -> (r: Result<Vec<Self>, HeliumError>)
        ensures
            final(reader).bytes == old(reader).bytes,
            metadata_outcome(r, spec_metadata(old(reader).data(), old(reader).pos as int), final(reader).pos),
    {
        let metadata_count = match Helper::read_u32_le(reader) {
            Ok(v) => v,
            Err(e) => return Err(e),
        };
        if metadata_count > MAX_METADATA_COUNT {
            return Err(HeliumError::InvalidMetadataCount(metadata_count));
        }
        let ghost d = reader.data();
        let ghost p = reader.pos as int;
        let mut metadata: Vec<Metadata> = Vec::new();
        assert(metadata_view(metadata@) =~= Seq::empty());
        let mut i: u32 = 0;
        while i < metadata_count
            invariant
                0 <= i <= metadata_count,
                reader.bytes == old(reader).bytes,
                d == reader.data(),
                d == old(reader).data(),
                spec_u32(d, old(reader).pos as int) == Ok::<(u32, int), Failure>((metadata_count, p)),
                metadata_count <= MAX_METADATA_COUNT,
                spec_metadata_entries(d, p, i as int) == Ok::<(Seq<MetadataView>, int), Failure>(
                    (metadata_view(metadata@), reader.pos as int),
                ),
            decreases metadata_count - i,
        {
            let name = match Helper::read_string(reader) {
                Ok(s) => s,
                Err(e) => {
                    proof {
                        lemma_metadata_entries_err(d, p, i + 1, metadata_count as int);
                    }
                    return Err(e);
                },
            };
            let value_type = match Helper::read_string(reader) {
                Ok(s) => s,
                Err(e) => {
                    proof {
                        lemma_metadata_entries_err(d, p, i + 1, metadata_count as int);
                    }
                    return Err(e);
                },
            };
            let payload_size = match Helper::read_u32_le(reader) {
                Ok(v) => v as usize,
                Err(e) => {
                    proof {
                        lemma_metadata_entries_err(d, p, i + 1, metadata_count as int);
                    }
                    return Err(e);
                },
            };
            if payload_size > MAX_STRING_LENGTH {
                proof {
                    lemma_metadata_entries_err(d, p, i + 1, metadata_count as int);
                }
                return Err(HeliumError::MetadataPayloadTooLarge { name, size: payload_size });
            }
            let payload = match reader.read_exact(payload_size) {
                Ok(b) => b,
                Err(e) => {
                    proof {
                        lemma_metadata_entries_err(d, p, i + 1, metadata_count as int);
                    }
                    return Err(e);
                },
            };
            let ghost before = metadata@;
            let entry = Metadata { name, value_type, payload };
            metadata.push(entry);
            assert(metadata_view(metadata@) =~= metadata_view(before).push(entry@));
            i = i + 1;
        }
        Ok(metadata)
    }
}

} // verus!
