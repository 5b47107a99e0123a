use vstd::prelude::*;

use crate::reader::byte_reader::ByteReader;
use crate::reader::error::HeliumError;
use crate::reader::grids_reader::{spec_all_grids, Grids, GridsView};
use crate::reader::header::{spec_header, Header, HeaderView};
use crate::reader::metadata::{metadata_view, spec_metadata, Metadata, MetadataView};

verus! {

/// A VDB file: where it is, and what has been read of it.
#[derive(Debug)]
pub struct HeliumReader {
    file_path: String,
    header: Header,
    file_metadata: Vec<Metadata>,
    grids: Grids,
}

/// The mathematical value of a [`HeliumReader`].
pub struct HeliumReaderView {
    pub file_path: Seq<char>,
    pub header: HeaderView,
    pub file_metadata: Seq<MetadataView>,
    pub grids: GridsView,
}

impl View for HeliumReader {
    type V = HeliumReaderView;

    closed spec fn view(&self) -> HeliumReaderView {
        HeliumReaderView {
            file_path: self.file_path@,
            header: self.header@,
            file_metadata: metadata_view(self.file_metadata@),
            grids: self.grids@,
        }
    }
}

impl HeliumReader {
    /// A reader for the file at `file_path`, with nothing read yet: an empty
    /// header, no metadata and no grids.
    pub fn new(file_path: &str) -> (r: Self)
        ensures
            r@.file_path == file_path@,
            r@.header.file_version == 0,
            r@.header.library_major == 0,
            r@.header.library_minor == 0,
            !r@.header.has_grid_offsets,
            r@.header.uuid.len() == 0,
            r@.file_metadata.len() == 0,
            r@.grids.count == 0,
            r@.grids.descriptors.len() == 0,
            r@.grids.grids.len() == 0,
    {
        let r = Self {
            file_path: file_path.to_owned(),
            header: Header::new(),
            file_metadata: Vec::new(),
            grids: Grids::new(),
        };
        assert(metadata_view(r.file_metadata@).len() == 0);
        r
    }

    /// Reads the contents of the file, given as `bytes`: the header, the
    /// file metadata, then the grids. Each part is stored once it has been
    /// read; on a failure the parts before it are stored and the rest are
    /// left as they were.
    pub fn read_from_bytes(&mut self, bytes: &[u8]) -> (r: Result<(), HeliumError>)
        ensures
            final(self)@.file_path == old(self)@.file_path,
            match spec_header(bytes@, 0) {
                Err((e, _)) => r matches Err(x) && x@ == e && final(self)@ == old(self)@,
                Ok((h, p1)) => final(self)@.header == h && match spec_metadata(bytes@, p1) {
                    Err((e, _)) => r matches Err(x) && x@ == e && final(self)@.file_metadata == old(
                        self,
                    )@.file_metadata && final(self)@.grids == old(self)@.grids,
                    Ok((m, p2)) => final(self)@.file_metadata == m && match spec_all_grids(
                        bytes@,
                        p2,
                        h,
                        bytes@.len() as u64,
                    ) {
                        Err((e, _)) => r matches Err(x) && x@ == e && final(self)@.grids == old(
                            self,
                        )@.grids,
                        Ok((g, _)) => r is Ok && final(self)@.grids == g,
                    },
                },
            },
    {
        let file_length = bytes.len() as u64;
        let mut reader = ByteReader::new(bytes);
        self.header = match Header::read(&mut reader) {
            Ok(h) => h,
            Err(e) => return Err(e),
        };
        self.file_metadata = match Metadata::read(&mut reader) {
            Ok(m) => m,
            Err(e) => return Err(e),
        };
        self.grids = match Grids::read(&mut reader, &self.header, file_length) {
            Ok(g) => g,
            Err(e) => return Err(e),
        };
        Ok(())
    }

    /// The path of the file.
    pub fn file_path(&self) -> (p: &str)
        ensures
            p@ == self@.file_path,
    {
        self.file_path.as_str()
    }

    /// The header read so far.
    pub fn header(&self) -> (h: &Header)
        ensures
            h@ == self@.header,
    {
        &self.header
    }

    /// The file metadata read so far.
    pub fn file_metadata(&self) -> (m: &Vec<Metadata>)
        ensures
            metadata_view(m@) == self@.file_metadata,
    {
        &self.file_metadata
    }

    /// The grids read so far.
    pub fn grids(&self) -> (g: &Grids)
        ensures
            g@ == self@.grids,
    {
        &self.grids
    }
}

} // verus!
