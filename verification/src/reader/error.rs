use vstd::prelude::*;

use crate::tree::coord::Coord;

verus! {

/// Everything that can go wrong while reading a VDB file.
#[derive(Debug)]
#[allow(inconsistent_fields)]
pub enum HeliumError {
    /// The input ended before a value could be read in full.
    UnexpectedEof,
    InvalidMagic { expected: u64, found: u64 },
    UnsupportedVersion(u32),
    InvalidUuidEncoding,
    InvalidBoolean { field: &'static str, value: u8 },
    /// The bytes of a string are not well-formed UTF-8; the decoder's error
    /// comes with them.
    InvalidStringEncoding(std::string::FromUtf8Error),
    StringTooLarge(usize),
    InvalidMetadataCount(u32),
    MetadataPayloadTooLarge { name: String, size: usize },
    InvalidGridCount(i32),
    GridOffsetsRequired,
    NegativeGridOffsets {
        grid_index: usize,
        grid_position: i64,
        block_position: i64,
        end_position: i64,
    },
    InvalidGridOffsets {
        grid_index: usize,
        grid_position: i64,
        block_position: i64,
        end_position: i64,
    },
    GridOffsetPastEnd { grid_index: usize, end_position: u64, file_length: u64 },
    UnknownCompressionFlags { grid_index: usize, flags: u32 },
    GridSectionOverlap { grid_index: usize, topology_start: u64, block_position: u64 },
    NegativeStreamPosition { field: &'static str, value: i64 },
    InvalidByteRange { start: u64, end: u64 },
    ByteRangeTooLarge { start: u64, end: u64 },
    UnsupportedTransform(String),
    HalfFloatNotImplemented,
    CompressedValuesNotImplemented { flags: u32 },
    InvalidTreeBufferCount(i32),
    /// The origin of the child in `slot` of an internal node at `origin`
    /// does not fit in 32-bit coordinates.
    ChildOriginOverflow { origin: Coord, slot: usize },
}

/// The mathematical value of a [`HeliumError`]: strings become sequences of
/// characters, and the UTF-8 decoder's error is left out.
#[allow(inconsistent_fields)]
pub enum ErrorView {
    UnexpectedEof,
    InvalidMagic { expected: u64, found: u64 },
    UnsupportedVersion(u32),
    InvalidUuidEncoding,
    InvalidBoolean { field: Seq<char>, value: u8 },
    InvalidStringEncoding,
    StringTooLarge(usize),
    InvalidMetadataCount(u32),
    MetadataPayloadTooLarge { name: Seq<char>, size: usize },
    InvalidGridCount(i32),
    GridOffsetsRequired,
    NegativeGridOffsets {
        grid_index: usize,
        grid_position: i64,
        block_position: i64,
        end_position: i64,
    },
    InvalidGridOffsets {
        grid_index: usize,
        grid_position: i64,
        block_position: i64,
        end_position: i64,
    },
    GridOffsetPastEnd { grid_index: usize, end_position: u64, file_length: u64 },
    UnknownCompressionFlags { grid_index: usize, flags: u32 },
    GridSectionOverlap { grid_index: usize, topology_start: u64, block_position: u64 },
    NegativeStreamPosition { field: Seq<char>, value: i64 },
    InvalidByteRange { start: u64, end: u64 },
    ByteRangeTooLarge { start: u64, end: u64 },
    UnsupportedTransform(Seq<char>),
    HalfFloatNotImplemented,
    CompressedValuesNotImplemented { flags: u32 },
    InvalidTreeBufferCount(i32),
    ChildOriginOverflow { origin: Coord, slot: usize },
}

impl View for HeliumError {
    type V = ErrorView;

    open spec fn view(&self) -> ErrorView {
        match self {
            HeliumError::UnexpectedEof => ErrorView::UnexpectedEof,
            HeliumError::InvalidMagic { expected, found } => ErrorView::InvalidMagic {
                expected: *expected,
                found: *found,
            },
            HeliumError::UnsupportedVersion(v) => ErrorView::UnsupportedVersion(*v),
            HeliumError::InvalidUuidEncoding => ErrorView::InvalidUuidEncoding,
            HeliumError::InvalidBoolean { field, value } => ErrorView::InvalidBoolean {
                field: field@,
                value: *value,
            },
            HeliumError::InvalidStringEncoding(_) => ErrorView::InvalidStringEncoding,
            HeliumError::StringTooLarge(n) => ErrorView::StringTooLarge(*n),
            HeliumError::InvalidMetadataCount(n) => ErrorView::InvalidMetadataCount(*n),
            HeliumError::MetadataPayloadTooLarge { name, size } =>
                ErrorView::MetadataPayloadTooLarge { name: name@, size: *size },
            HeliumError::InvalidGridCount(n) => ErrorView::InvalidGridCount(*n),
            HeliumError::GridOffsetsRequired => ErrorView::GridOffsetsRequired,
            HeliumError::NegativeGridOffsets {
                grid_index,
                grid_position,
                block_position,
                end_position,
            } => ErrorView::NegativeGridOffsets {
                grid_index: *grid_index,
                grid_position: *grid_position,
                block_position: *block_position,
                end_position: *end_position,
            },
            HeliumError::InvalidGridOffsets {
                grid_index,
                grid_position,
                block_position,
                end_position,
            } => ErrorView::InvalidGridOffsets {
                grid_index: *grid_index,
                grid_position: *grid_position,
                block_position: *block_position,
                end_position: *end_position,
            },
            HeliumError::GridOffsetPastEnd { grid_index, end_position, file_length } =>
                ErrorView::GridOffsetPastEnd {
                grid_index: *grid_index,
                end_position: *end_position,
                file_length: *file_length,
            },
            HeliumError::UnknownCompressionFlags { grid_index, flags } =>
                ErrorView::UnknownCompressionFlags { grid_index: *grid_index, flags: *flags },
            HeliumError::GridSectionOverlap { grid_index, topology_start, block_position } =>
                ErrorView::GridSectionOverlap {
                grid_index: *grid_index,
                topology_start: *topology_start,
                block_position: *block_position,
            },
            HeliumError::NegativeStreamPosition { field, value } =>
                ErrorView::NegativeStreamPosition { field: field@, value: *value },
            HeliumError::InvalidByteRange { start, end } => ErrorView::InvalidByteRange {
                start: *start,
                end: *end,
            },
            HeliumError::ByteRangeTooLarge { start, end } => ErrorView::ByteRangeTooLarge {
                start: *start,
                end: *end,
            },
            HeliumError::UnsupportedTransform(name) => ErrorView::UnsupportedTransform(name@),
            HeliumError::HalfFloatNotImplemented => ErrorView::HalfFloatNotImplemented,
            HeliumError::CompressedValuesNotImplemented { flags } =>
                ErrorView::CompressedValuesNotImplemented { flags: *flags },
            HeliumError::InvalidTreeBufferCount(n) => ErrorView::InvalidTreeBufferCount(*n),
            HeliumError::ChildOriginOverflow { origin, slot } => ErrorView::ChildOriginOverflow {
                origin: *origin,
                slot: *slot,
            },
        }
    }
}

/// A failure of the format specification: the error, and the position
/// where the reader is left.
pub type Failure = (ErrorView, int);

/// Relates what a parser returned to what the format specification says:
/// on success the value (by its view) and the position after it, on failure
/// the error (by its view) and where the reader is left.
pub open spec fn outcome<T: View>(
    r: Result<T, HeliumError>,
    spec: Result<(T::V, int), Failure>,
    end: u64,
) -> bool {
    match spec {
        Ok((v, q)) => r matches Ok(x) && x@ == v && end == q,
        Err((e, q)) => r matches Err(x) && x@ == e && end == q,
    }
}

/// Relates the outcome of a step that fills in a value in place to what the
/// format specification says: the value afterwards (by its view), and either
/// success with the position after it or the first failure, with where the
/// reader is left.
pub open spec fn fill_outcome<V>(
    r: Result<(), HeliumError>,
    after: V,
    end: u64,
    spec: (V, int, Option<Failure>),
) -> bool {
    &&& after == spec.0
    &&& match spec.2 {
        None => r is Ok && end == spec.1,
        Some((e, q)) => r matches Err(x) && x@ == e && end == q,
    }
}

} // verus!
