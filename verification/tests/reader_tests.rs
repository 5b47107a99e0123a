use helium::reader::byte_reader::ByteReader;
use helium::reader::grid::{CompressionFlags, Grid};
use helium::reader::grid_descriptor::GridDescriptor;
use helium::reader::grids::Grids;
use helium::reader::grids_reader::Grids as AllGrids;
use helium::reader::header::Header;
use helium::reader::helpers::{F32Bits, F64Bits, Helper};
use helium::reader::metadata::Metadata;
use helium::reader::reader::HeliumReader;
use helium::reader::transform::Transform;
use helium::reader::vdb_constants::{MAX_STRING_LENGTH, OPENVDB_MAGIC};
use helium::reader::HeliumError;

fn string_bytes(s: &str) -> Vec<u8> {
    let mut out = (s.len() as u32).to_le_bytes().to_vec();
    out.extend_from_slice(s.as_bytes());
    out
}

fn header_bytes(version: u32, has_offsets: u8) -> Vec<u8> {
    let mut out = OPENVDB_MAGIC.to_le_bytes().to_vec();
    out.extend_from_slice(&version.to_le_bytes());
    out.extend_from_slice(&9u32.to_le_bytes());
    out.extend_from_slice(&1u32.to_le_bytes());
    out.push(has_offsets);
    out.extend_from_slice(b"01234567-89ab-cdef-0123-456789abcdef");
    out
}

fn descriptor_bytes(name: &str, grid_type: &str, parent: &str, g: i64, b: i64, e: i64) -> Vec<u8> {
    let mut out = string_bytes(name);
    out.extend(string_bytes(grid_type));
    out.extend(string_bytes(parent));
    out.extend_from_slice(&g.to_le_bytes());
    out.extend_from_slice(&b.to_le_bytes());
    out.extend_from_slice(&e.to_le_bytes());
    out
}

fn translation_bytes() -> Vec<u8> {
    let mut out = string_bytes("TranslationMap");
    for v in [1.0f64, 2.0, 3.0] {
        out.extend_from_slice(&v.to_le_bytes());
    }
    out
}

/// A grid section: compression flags, no metadata, a translation.
fn grid_head_bytes(flags: u32) -> Vec<u8> {
    let mut out = flags.to_le_bytes().to_vec();
    out.extend_from_slice(&0u32.to_le_bytes());
    out.extend(translation_bytes());
    out
}

// ---------------------------------------------------------------------------
// Primitive readers
// ---------------------------------------------------------------------------

#[test]
fn reads_little_endian_integers() {
    let mut data = vec![0xAB];
    data.extend_from_slice(&(-2i16).to_le_bytes());
    data.extend_from_slice(&0xDEAD_BEEFu32.to_le_bytes());
    data.extend_from_slice(&(-5i32).to_le_bytes());
    data.extend_from_slice(&0x0123_4567_89AB_CDEFu64.to_le_bytes());
    data.extend_from_slice(&i64::MIN.to_le_bytes());
    let mut r = ByteReader::new(&data);
    assert_eq!(Helper::read_u8(&mut r).unwrap(), 0xAB);
    assert_eq!(Helper::read_i16_le(&mut r).unwrap(), -2);
    assert_eq!(Helper::read_u32_le(&mut r).unwrap(), 0xDEAD_BEEF);
    assert_eq!(Helper::read_i32_le(&mut r).unwrap(), -5);
    assert_eq!(Helper::read_u64_le(&mut r).unwrap(), 0x0123_4567_89AB_CDEF);
    assert_eq!(Helper::read_i64_le(&mut r).unwrap(), i64::MIN);
    assert_eq!(r.stream_position(), data.len() as u64);
    assert!(matches!(Helper::read_u8(&mut r), Err(HeliumError::UnexpectedEof)));
}

#[test]
fn short_input_is_unexpected_eof() {
    let data = [1u8, 2, 3];
    let mut r = ByteReader::new(&data);
    assert!(matches!(Helper::read_u32_le(&mut r), Err(HeliumError::UnexpectedEof)));
    let mut r = ByteReader::new(&data);
    assert!(matches!(Helper::read_i64_le(&mut r), Err(HeliumError::UnexpectedEof)));
    let mut r = ByteReader::new(&data);
    r.seek(10);
    assert!(matches!(Helper::read_u8(&mut r), Err(HeliumError::UnexpectedEof)));
}

#[test]
fn reads_strings() {
    let mut data = string_bytes("grid");
    data.extend(string_bytes("héllo"));
    data.extend(string_bytes(""));
    let mut r = ByteReader::new(&data);
    assert_eq!(Helper::read_string(&mut r).unwrap(), "grid");
    assert_eq!(Helper::read_string(&mut r).unwrap(), "héllo");
    assert_eq!(Helper::read_string(&mut r).unwrap(), "");
    assert_eq!(r.stream_position(), data.len() as u64);
}

#[test]
fn rejects_invalid_strings() {
    let mut data = 2u32.to_le_bytes().to_vec();
    data.extend_from_slice(&[0xC3, 0x28]);
    let mut r = ByteReader::new(&data);
    match Helper::read_string(&mut r) {
        Err(HeliumError::InvalidStringEncoding(e)) => {
            assert_eq!(e.as_bytes(), &[0xC3, 0x28]);
            assert_eq!(e.utf8_error().valid_up_to(), 0);
        }
        other => panic!("expected an encoding error, got {:?}", other),
    }

    let data = ((MAX_STRING_LENGTH + 1) as u32).to_le_bytes();
    let mut r = ByteReader::new(&data);
    assert!(matches!(
        Helper::read_string(&mut r),
        Err(HeliumError::StringTooLarge(n)) if n == MAX_STRING_LENGTH + 1
    ));

    let mut data = 5u32.to_le_bytes().to_vec();
    data.extend_from_slice(b"abc");
    let mut r = ByteReader::new(&data);
    assert!(matches!(Helper::read_string(&mut r), Err(HeliumError::UnexpectedEof)));
}

#[test]
fn reads_booleans() {
    let data = [0u8, 1, 7];
    let mut r = ByteReader::new(&data);
    assert!(!Helper::read_bool(&mut r, "flag").unwrap());
    assert!(Helper::read_bool(&mut r, "flag").unwrap());
    match Helper::read_bool(&mut r, "flag") {
        Err(HeliumError::InvalidBoolean { field, value }) => {
            assert_eq!(field, "flag");
            assert_eq!(value, 7);
        }
        other => panic!("unexpected {:?}", other),
    }
}

#[test]
fn reads_floats_as_bits() {
    let mut data = 1.5f32.to_le_bytes().to_vec();
    data.extend_from_slice(&(-2.25f64).to_le_bytes());
    let mut r = ByteReader::new(&data);
    assert_eq!(Helper::read_f32_le(&mut r).unwrap(), F32Bits(1.5f32.to_bits()));
    assert_eq!(Helper::read_f64_le(&mut r).unwrap(), F64Bits((-2.25f64).to_bits()));
}

#[test]
fn reads_vectors_and_matrices() {
    let mut data = Vec::new();
    for i in 0..19 {
        data.extend_from_slice(&(i as f64).to_le_bytes());
    }
    let mut r = ByteReader::new(&data);
    let v = Helper::read_vec3d(&mut r).unwrap();
    assert_eq!(v, [F64Bits(0f64.to_bits()), F64Bits(1f64.to_bits()), F64Bits(2f64.to_bits())]);
    let m = Helper::read_mat4d(&mut r).unwrap();
    for row in 0..4 {
        for col in 0..4 {
            assert_eq!(m[row][col], F64Bits(((3 + 4 * row + col) as f64).to_bits()));
        }
    }
    assert!(matches!(Helper::read_vec3d(&mut r), Err(HeliumError::UnexpectedEof)));
    let mut r = ByteReader::new(&data[..100]);
    assert!(matches!(Helper::read_mat4d(&mut r), Err(HeliumError::UnexpectedEof)));
}

#[test]
fn reads_byte_ranges() {
    let data: Vec<u8> = (0..10).collect();
    let mut r = ByteReader::new(&data);
    assert_eq!(Helper::read_byte_range(&mut r, 2, 5).unwrap(), vec![2, 3, 4]);
    assert_eq!(r.stream_position(), 5);
    assert!(Helper::read_byte_range(&mut r, 4, 4).unwrap().is_empty());
    assert!(matches!(
        Helper::read_byte_range(&mut r, 6, 3),
        Err(HeliumError::InvalidByteRange { start: 6, end: 3 })
    ));
    assert!(matches!(Helper::read_byte_range(&mut r, 8, 12), Err(HeliumError::UnexpectedEof)));
}

#[test]
fn checks_offsets() {
    assert_eq!(Helper::checked_offset(42, "grid_position").unwrap(), 42);
    assert_eq!(Helper::checked_offset(0, "grid_position").unwrap(), 0);
    match Helper::checked_offset(-1, "end_position") {
        Err(HeliumError::NegativeStreamPosition { field, value }) => {
            assert_eq!(field, "end_position");
            assert_eq!(value, -1);
        }
        other => panic!("unexpected {:?}", other),
    }
}

// ---------------------------------------------------------------------------
// Compression flags
// ---------------------------------------------------------------------------

#[test]
fn compression_flags_from_raw() {
    let f = CompressionFlags::from_raw(0x5);
    assert_eq!(f.raw, 5);
    assert!(f.zip);
    assert!(!f.active_mask);
    assert!(f.blosc);
    assert_eq!(f.unknown_bits(), 0);
    let f = CompressionFlags::from_raw(0x2);
    assert!(!f.zip && f.active_mask && !f.blosc);
    let f = CompressionFlags::from_raw(0x1A);
    assert_eq!(f.unknown_bits(), 0x18);
    assert!(f.active_mask);
    assert_eq!(CompressionFlags::ZIP | CompressionFlags::ACTIVE_MASK | CompressionFlags::BLOSC, 7);
}

// ---------------------------------------------------------------------------
// Header and metadata
// ---------------------------------------------------------------------------

#[test]
fn reads_a_header() {
    let data = header_bytes(224, 1);
    let mut r = ByteReader::new(&data);
    let h = Header::read(&mut r).unwrap();
    assert_eq!(h.file_version, 224);
    assert_eq!(h.library_major, 9);
    assert_eq!(h.library_minor, 1);
    assert!(h.has_grid_offsets);
    assert_eq!(h.uuid, "01234567-89ab-cdef-0123-456789abcdef");
    assert_eq!(r.stream_position(), 57);
}

#[test]
fn new_header_is_empty() {
    let h = Header::new();
    assert_eq!(h.file_version, 0);
    assert_eq!(h.library_major, 0);
    assert_eq!(h.library_minor, 0);
    assert!(!h.has_grid_offsets);
    assert!(h.uuid.is_empty());
}

#[test]
fn header_errors() {
    let mut data = header_bytes(224, 0);
    data[0] = 0;
    let mut r = ByteReader::new(&data);
    assert!(matches!(
        Header::read(&mut r),
        Err(HeliumError::InvalidMagic { expected, found }) if expected == OPENVDB_MAGIC && found == 0x5644_4200
    ));

    for version in [221u32, 226] {
        let data = header_bytes(version, 0);
        let mut r = ByteReader::new(&data);
        assert!(matches!(Header::read(&mut r), Err(HeliumError::UnsupportedVersion(v)) if v == version));
    }
    for version in [222u32, 225] {
        let data = header_bytes(version, 0);
        let mut r = ByteReader::new(&data);
        assert_eq!(Header::read(&mut r).unwrap().file_version, version);
    }

    let data = header_bytes(222, 2);
    let mut r = ByteReader::new(&data);
    match Header::read(&mut r) {
        Err(HeliumError::InvalidBoolean { field, value }) => {
            assert_eq!(field, "has_grid_offsets");
            assert_eq!(value, 2);
        }
        other => panic!("unexpected {:?}", other),
    }

    let mut data = header_bytes(222, 0);
    data[30] = 0xFF;
    let mut r = ByteReader::new(&data);
    assert!(matches!(Header::read(&mut r), Err(HeliumError::InvalidUuidEncoding)));

    let data = header_bytes(222, 0);
    let mut r = ByteReader::new(&data[..50]);
    assert!(matches!(Header::read(&mut r), Err(HeliumError::UnexpectedEof)));
}

#[test]
fn reads_metadata() {
    let mut data = 2u32.to_le_bytes().to_vec();
    data.extend(string_bytes("class"));
    data.extend(string_bytes("string"));
    data.extend_from_slice(&3u32.to_le_bytes());
    data.extend_from_slice(b"fog");
    data.extend(string_bytes("empty"));
    data.extend(string_bytes("bool"));
    data.extend_from_slice(&0u32.to_le_bytes());
    let mut r = ByteReader::new(&data);
    let m = Metadata::read(&mut r).unwrap();
    assert_eq!(m.len(), 2);
    assert_eq!(m[0].name, "class");
    assert_eq!(m[0].value_type, "string");
    assert_eq!(m[0].payload, b"fog".to_vec());
    assert_eq!(m[1].name, "empty");
    assert!(m[1].payload.is_empty());
    assert_eq!(r.stream_position(), data.len() as u64);
}

#[test]
fn metadata_errors() {
    let data = 1_000_001u32.to_le_bytes();
    let mut r = ByteReader::new(&data);
    assert!(matches!(Metadata::read(&mut r), Err(HeliumError::InvalidMetadataCount(1_000_001))));

    let mut data = 1u32.to_le_bytes().to_vec();
    data.extend(string_bytes("big"));
    data.extend(string_bytes("blob"));
    data.extend_from_slice(&((MAX_STRING_LENGTH + 1) as u32).to_le_bytes());
    let mut r = ByteReader::new(&data);
    match Metadata::read(&mut r) {
        Err(HeliumError::MetadataPayloadTooLarge { name, size }) => {
            assert_eq!(name, "big");
            assert_eq!(size, MAX_STRING_LENGTH + 1);
        }
        other => panic!("unexpected {:?}", other),
    }

    let mut data = 1u32.to_le_bytes().to_vec();
    data.extend(string_bytes("short"));
    data.extend(string_bytes("blob"));
    data.extend_from_slice(&4u32.to_le_bytes());
    data.extend_from_slice(b"ab");
    let mut r = ByteReader::new(&data);
    assert!(matches!(Metadata::read(&mut r), Err(HeliumError::UnexpectedEof)));
}

// ---------------------------------------------------------------------------
// Transforms
// ---------------------------------------------------------------------------

fn floats(n: usize, first: f64) -> Vec<u8> {
    let mut out = Vec::new();
    for i in 0..n {
        out.extend_from_slice(&(first + i as f64).to_le_bytes());
    }
    out
}

fn bits(v: f64) -> F64Bits {
    F64Bits(v.to_bits())
}

#[test]
fn reads_each_transform() {
    for name in ["AffineMap", "UnitaryMap"] {
        let mut data = string_bytes(name);
        data.extend(floats(16, 0.0));
        let mut r = ByteReader::new(&data);
        let t = Transform::read(&mut r).unwrap();
        let matrix = match (name, t) {
            ("AffineMap", Transform::Affine { matrix }) => matrix,
            ("UnitaryMap", Transform::Unitary { matrix }) => matrix,
            (_, other) => panic!("unexpected {:?}", other),
        };
        assert_eq!(matrix[1][2], bits(6.0));
        assert_eq!(r.stream_position(), data.len() as u64);
    }

    for name in ["ScaleMap", "UniformScaleMap"] {
        let mut data = string_bytes(name);
        data.extend(floats(15, 10.0));
        let mut r = ByteReader::new(&data);
        match Transform::read(&mut r).unwrap() {
            Transform::Scale { map_type, scale, voxel_size, inverse_scale, inverse_scale_squared, inverse_twice_scale } => {
                assert_eq!(map_type, name);
                assert_eq!(scale, [bits(10.0), bits(11.0), bits(12.0)]);
                assert_eq!(voxel_size[0], bits(13.0));
                assert_eq!(inverse_scale[0], bits(16.0));
                assert_eq!(inverse_scale_squared[0], bits(19.0));
                assert_eq!(inverse_twice_scale[2], bits(24.0));
            }
            other => panic!("unexpected {:?}", other),
        }
    }

    let data = translation_bytes();
    let mut r = ByteReader::new(&data);
    match Transform::read(&mut r).unwrap() {
        Transform::Translation { translation } => {
            assert_eq!(translation, [bits(1.0), bits(2.0), bits(3.0)]);
        }
        other => panic!("unexpected {:?}", other),
    }

    for name in ["ScaleTranslateMap", "UniformScaleTranslateMap"] {
        let mut data = string_bytes(name);
        data.extend(floats(18, 0.0));
        let mut r = ByteReader::new(&data);
        match Transform::read(&mut r).unwrap() {
            Transform::ScaleTranslate { map_type, translation, scale, inverse_twice_scale, .. } => {
                assert_eq!(map_type, name);
                assert_eq!(translation[0], bits(0.0));
                assert_eq!(scale[0], bits(3.0));
                assert_eq!(inverse_twice_scale[2], bits(17.0));
            }
            other => panic!("unexpected {:?}", other),
        }
        assert_eq!(r.stream_position(), data.len() as u64);
    }
}

#[test]
fn unsupported_transform() {
    let mut data = string_bytes("NonlinearFrustumMap");
    data.extend(floats(16, 0.0));
    let mut r = ByteReader::new(&data);
    match Transform::read(&mut r) {
        Err(HeliumError::UnsupportedTransform(name)) => assert_eq!(name, "NonlinearFrustumMap"),
        other => panic!("unexpected {:?}", other),
    }
    let mut data = string_bytes("ScaleMap");
    data.extend(floats(14, 0.0));
    let mut r = ByteReader::new(&data);
    assert!(matches!(Transform::read(&mut r), Err(HeliumError::UnexpectedEof)));
}

// ---------------------------------------------------------------------------
// Grid descriptors
// ---------------------------------------------------------------------------

#[test]
fn reads_a_descriptor() {
    let data = descriptor_bytes("density", "Tree_float_5_4_3", "", 100, 200, 300);
    let mut r = ByteReader::new(&data);
    let d = GridDescriptor::read(&mut r).unwrap();
    assert_eq!(d.unique_name, "density");
    assert_eq!(d.grid_type, "Tree_float_5_4_3");
    assert_eq!(d.instance_parent_name, "");
    assert_eq!((d.grid_position, d.block_position, d.end_position), (100, 200, 300));
    assert!(!d.save_float_as_half);
    let c = d.clone();
    assert_eq!(c.unique_name, d.unique_name);
    assert_eq!(c.end_position, 300);
}

#[test]
fn half_float_suffix_is_removed() {
    let data = descriptor_bytes("v", "Tree_vec3s_5_4_3_HalfFloat", "", 1, 2, 3);
    let mut r = ByteReader::new(&data);
    let d = GridDescriptor::read(&mut r).unwrap();
    assert_eq!(d.grid_type, "Tree_vec3s_5_4_3");
    assert!(d.save_float_as_half);

    let data = descriptor_bytes("v", "_HalfFloat", "", 1, 2, 3);
    let mut r = ByteReader::new(&data);
    let d = GridDescriptor::read(&mut r).unwrap();
    assert_eq!(d.grid_type, "");
    assert!(d.save_float_as_half);

    let data = descriptor_bytes("v", "HalfFloat", "", 1, 2, 3);
    let mut r = ByteReader::new(&data);
    let d = GridDescriptor::read(&mut r).unwrap();
    assert_eq!(d.grid_type, "HalfFloat");
    assert!(!d.save_float_as_half);
}

fn descriptor(g: i64, b: i64, e: i64) -> GridDescriptor {
    GridDescriptor {
        unique_name: "g".to_string(),
        grid_type: "t".to_string(),
        instance_parent_name: String::new(),
        grid_position: g,
        block_position: b,
        end_position: e,
        save_float_as_half: false,
    }
}

#[test]
fn validates_descriptors() {
    assert!(descriptor(0, 10, 20).validate(0, 20).is_ok());
    assert!(descriptor(5, 5, 5).validate(0, 5).is_ok());
    assert!(matches!(
        descriptor(-1, 10, 20).validate(3, 100),
        Err(HeliumError::NegativeGridOffsets { grid_index: 3, grid_position: -1, block_position: 10, end_position: 20 })
    ));
    assert!(matches!(
        descriptor(0, 10, -20).validate(0, 100),
        Err(HeliumError::NegativeGridOffsets { .. })
    ));
    assert!(matches!(
        descriptor(11, 10, 20).validate(1, 100),
        Err(HeliumError::InvalidGridOffsets { grid_index: 1, grid_position: 11, block_position: 10, end_position: 20 })
    ));
    assert!(matches!(
        descriptor(0, 21, 20).validate(2, 100),
        Err(HeliumError::InvalidGridOffsets { grid_index: 2, .. })
    ));
    assert!(matches!(
        descriptor(0, 10, 20).validate(4, 19),
        Err(HeliumError::GridOffsetPastEnd { grid_index: 4, end_position: 20, file_length: 19 })
    ));
}

// ---------------------------------------------------------------------------
// Grids
// ---------------------------------------------------------------------------

/// A file with one non-instance grid whose topology is `topology` and
/// whose buffers are `buffers`.
fn grid_file(topology: &[u8], buffers: &[u8]) -> (Vec<u8>, GridDescriptor) {
    let mut data = vec![0xEE; 4];
    let grid_position = data.len() as i64;
    data.extend(grid_head_bytes(0));
    data.extend_from_slice(topology);
    let block_position = data.len() as i64;
    data.extend_from_slice(buffers);
    let end_position = data.len() as i64;
    let mut d = descriptor(grid_position, block_position, end_position);
    d.unique_name = "density".to_string();
    (data, d)
}

#[test]
fn reads_a_grid() {
    let (data, d) = grid_file(&[1, 2, 3], &[4, 5]);
    let mut r = ByteReader::new(&data);
    let g = Grid::read(&mut r, &d, 0, data.len() as u64).unwrap();
    assert_eq!(g.descriptor.unique_name, "density");
    assert_eq!(g.compression.raw, 0);
    assert!(g.metadata.is_empty());
    assert!(matches!(g.transform, Transform::Translation { .. }));
    assert_eq!(g.raw_topology, vec![1, 2, 3]);
    assert_eq!(g.raw_buffers, vec![4, 5]);
    assert_eq!(r.stream_position(), data.len() as u64);
}

#[test]
fn instance_grids_hold_no_data() {
    let (data, mut d) = grid_file(&[1, 2, 3], &[4, 5]);
    d.instance_parent_name = "density_parent".to_string();
    let mut r = ByteReader::new(&data);
    let g = Grid::read(&mut r, &d, 0, data.len() as u64).unwrap();
    assert!(g.raw_topology.is_empty());
    assert!(g.raw_buffers.is_empty());
    assert_eq!(g.descriptor.instance_parent_name, "density_parent");
}

#[test]
fn grid_errors() {
    let (data, d) = grid_file(&[1, 2, 3], &[4, 5]);
    let len = data.len() as u64;

    let mut r = ByteReader::new(&data);
    assert!(matches!(
        Grid::read(&mut r, &d, 7, len - 1),
        Err(HeliumError::GridOffsetPastEnd { grid_index: 7, .. })
    ));

    let mut bad = descriptor(-4, d.block_position, d.end_position);
    bad.unique_name = "x".to_string();
    let mut r = ByteReader::new(&data);
    match Grid::read(&mut r, &bad, 0, len) {
        Err(HeliumError::NegativeStreamPosition { field, value }) => {
            assert_eq!(field, "grid_position");
            assert_eq!(value, -4);
        }
        other => panic!("unexpected {:?}", other),
    }

    let mut flagged = data.clone();
    flagged[4..8].copy_from_slice(&0x9u32.to_le_bytes());
    let mut r = ByteReader::new(&flagged);
    assert!(matches!(
        Grid::read(&mut r, &d, 2, len),
        Err(HeliumError::UnknownCompressionFlags { grid_index: 2, flags: 9 })
    ));

    let early = descriptor(d.grid_position, d.grid_position + 5, d.end_position);
    let mut r = ByteReader::new(&data);
    assert!(matches!(
        Grid::read(&mut r, &early, 1, len),
        Err(HeliumError::GridSectionOverlap { grid_index: 1, .. })
    ));

    let backwards = descriptor(d.grid_position, d.end_position, d.block_position);
    let mut r = ByteReader::new(&data);
    assert!(matches!(Grid::read(&mut r, &backwards, 0, len), Err(HeliumError::InvalidByteRange { .. })));
}

fn grids_file(has_offsets: u8, names: &[&str]) -> Vec<u8> {
    let mut data = header_bytes(224, has_offsets);
    data.extend_from_slice(&0u32.to_le_bytes());
    data.extend_from_slice(&(names.len() as i32).to_le_bytes());
    for name in names {
        // Descriptor, then the grid it describes right behind it.
        let desc_len = 4 + name.len() + 4 + 1 + 4 + 0 + 24;
        let grid_position = (data.len() + desc_len) as i64;
        let head = grid_head_bytes(0);
        let block_position = grid_position + head.len() as i64 + 2;
        let end_position = block_position + 3;
        data.extend(descriptor_bytes(name, "t", "", grid_position, block_position, end_position));
        data.extend(head);
        data.extend_from_slice(&[7, 7, 8, 8, 8]);
    }
    data
}

#[test]
fn reads_grid_descriptors_and_finds_them() {
    let data = grids_file(1, &["a", "b", "a"]);
    let mut r = ByteReader::new(&data);
    let header = Header::read(&mut r).unwrap();
    Metadata::read(&mut r).unwrap();
    let grids = Grids::read(&mut r, &header, data.len() as u64).unwrap();
    assert_eq!(grids.descriptors.len(), 3);
    assert_eq!(r.stream_position(), data.len() as u64);
    let first = grids.descriptor("a").unwrap();
    assert_eq!(first.grid_position, grids.descriptors[0].grid_position);
    assert_eq!(grids.descriptor("b").unwrap().unique_name, "b");
    assert!(grids.descriptor("c").is_none());
    assert!(Grids::new().descriptors.is_empty());

    let all = Grids::read_grids(&mut r, &grids.descriptors, data.len() as u64).unwrap();
    assert_eq!(all.len(), 3);
    for g in &all {
        assert_eq!(g.raw_topology, vec![7, 7]);
        assert_eq!(g.raw_buffers, vec![8, 8, 8]);
    }
}

#[test]
fn grid_count_and_offsets_are_checked() {
    let data = grids_file(0, &["a"]);
    let mut r = ByteReader::new(&data);
    let header = Header::read(&mut r).unwrap();
    Metadata::read(&mut r).unwrap();
    assert!(matches!(Grids::read(&mut r, &header, data.len() as u64), Err(HeliumError::GridOffsetsRequired)));

    let mut data = grids_file(1, &[]);
    let at = data.len() - 4;
    data[at..].copy_from_slice(&(-1i32).to_le_bytes());
    let mut r = ByteReader::new(&data);
    let header = Header::read(&mut r).unwrap();
    Metadata::read(&mut r).unwrap();
    assert!(matches!(Grids::read(&mut r, &header, data.len() as u64), Err(HeliumError::InvalidGridCount(-1))));

    let mut data = grids_file(1, &[]);
    let at = data.len() - 4;
    data[at..].copy_from_slice(&1_000_001i32.to_le_bytes());
    let mut r = ByteReader::new(&data);
    let header = Header::read(&mut r).unwrap();
    Metadata::read(&mut r).unwrap();
    assert!(matches!(Grids::read(&mut r, &header, data.len() as u64), Err(HeliumError::InvalidGridCount(1_000_001))));

    let data = grids_file(1, &["a"]);
    let mut r = ByteReader::new(&data);
    let header = Header::read(&mut r).unwrap();
    Metadata::read(&mut r).unwrap();
    assert!(matches!(
        Grids::read(&mut r, &header, data.len() as u64 - 1),
        Err(HeliumError::GridOffsetPastEnd { grid_index: 0, .. })
    ));
}

#[test]
fn reads_all_grids() {
    let data = grids_file(1, &["a", "b"]);
    let mut r = ByteReader::new(&data);
    let header = Header::read(&mut r).unwrap();
    Metadata::read(&mut r).unwrap();
    let grids = AllGrids::read(&mut r, &header, data.len() as u64).unwrap();
    assert_eq!(grids.count, 2);
    assert_eq!(grids.descriptors.len(), 2);
    assert_eq!(grids.grids.len(), 2);
    assert_eq!(grids.grids[1].descriptor.unique_name, "b");
    let empty = AllGrids::new();
    assert_eq!(empty.count, 0);
    assert!(empty.grids.is_empty());
}

// ---------------------------------------------------------------------------
// The file reader
// ---------------------------------------------------------------------------

#[test]
fn reads_a_whole_file() {
    let data = grids_file(1, &["density", "velocity"]);
    let mut reader = HeliumReader::new("smoke.vdb");
    assert_eq!(reader.file_path(), "smoke.vdb");
    assert_eq!(reader.header().file_version, 0);
    reader.read_from_bytes(&data).unwrap();
    assert_eq!(reader.header().file_version, 224);
    assert!(reader.file_metadata().is_empty());
    assert_eq!(reader.grids().count, 2);
    assert_eq!(reader.grids().grids[0].descriptor.unique_name, "density");
    assert_eq!(reader.grids().grids[1].raw_buffers, vec![8, 8, 8]);
}

#[test]
fn a_failed_read_keeps_what_was_read() {
    let mut data = grids_file(1, &["density"]);
    let count_at = 57 + 4;
    data[count_at..count_at + 4].copy_from_slice(&(-3i32).to_le_bytes());
    let mut reader = HeliumReader::new("broken.vdb");
    assert!(matches!(reader.read_from_bytes(&data), Err(HeliumError::InvalidGridCount(-3))));
    assert_eq!(reader.header().file_version, 224);
    assert_eq!(reader.grids().count, 0);

    let mut reader = HeliumReader::new("bad.vdb");
    assert!(matches!(reader.read_from_bytes(&[0u8; 8]), Err(HeliumError::InvalidMagic { .. })));
    assert_eq!(reader.header().file_version, 0);
}

#[test]
fn known_flags_describe_the_raw_value() {
    for raw in 0u32..32 {
        let f = CompressionFlags::from_raw(raw);
        let rebuilt = (f.zip as u32) | ((f.active_mask as u32) << 1) | ((f.blosc as u32) << 2);
        assert_eq!(f.unknown_bits() == 0, rebuilt == raw);
        assert_eq!(f.unknown_bits() == 0, raw < 8);
    }
}

#[test]
fn read_descriptors_have_ordered_offsets() {
    let data = grids_file(1, &["a", "b", "c"]);
    let mut r = ByteReader::new(&data);
    let header = Header::read(&mut r).unwrap();
    Metadata::read(&mut r).unwrap();
    let grids = Grids::read(&mut r, &header, data.len() as u64).unwrap();
    for d in &grids.descriptors {
        assert!(0 <= d.grid_position);
        assert!(d.grid_position <= d.block_position);
        assert!(d.block_position <= d.end_position);
        assert!(d.end_position as u64 <= data.len() as u64);
    }
}

// ---------------------------------------------------------------------------
// Where a failed read leaves the reader
// ---------------------------------------------------------------------------

#[test]
fn failed_header_reads_stop_after_the_bad_field() {
    let mut data = header_bytes(224, 1);
    data[0] = 0;
    let mut r = ByteReader::new(&data);
    assert!(Header::read(&mut r).is_err());
    assert_eq!(r.stream_position(), 8);

    let data = header_bytes(226, 1);
    let mut r = ByteReader::new(&data);
    assert!(matches!(Header::read(&mut r), Err(HeliumError::UnsupportedVersion(226))));
    assert_eq!(r.stream_position(), 12);

    let data = header_bytes(224, 5);
    let mut r = ByteReader::new(&data);
    assert!(matches!(Header::read(&mut r), Err(HeliumError::InvalidBoolean { .. })));
    assert_eq!(r.stream_position(), 21);
}

#[test]
fn failed_primitive_reads_stop_after_the_bad_value() {
    let data = ((MAX_STRING_LENGTH + 1) as u32).to_le_bytes();
    let mut r = ByteReader::new(&data);
    assert!(Helper::read_string(&mut r).is_err());
    assert_eq!(r.stream_position(), 4);

    let mut data = 3u32.to_le_bytes().to_vec();
    data.extend_from_slice(&[0x61, 0xFF, 0x62, 0x00]);
    let mut r = ByteReader::new(&data);
    assert!(matches!(Helper::read_string(&mut r), Err(HeliumError::InvalidStringEncoding(_))));
    assert_eq!(r.stream_position(), 7);

    let data = [9u8, 0];
    let mut r = ByteReader::new(&data);
    assert!(Helper::read_bool(&mut r, "f").is_err());
    assert_eq!(r.stream_position(), 1);

    let data = [0u8; 4];
    let mut r = ByteReader::new(&data);
    r.seek(2);
    assert!(matches!(Helper::read_byte_range(&mut r, 3, 1), Err(HeliumError::InvalidByteRange { .. })));
    assert_eq!(r.stream_position(), 2);
}

#[test]
fn failed_block_reads_stop_where_the_check_fails() {
    let mut data = 1_000_001u32.to_le_bytes().to_vec();
    data.extend_from_slice(&[0; 8]);
    let mut r = ByteReader::new(&data);
    assert!(Metadata::read(&mut r).is_err());
    assert_eq!(r.stream_position(), 4);

    let mut data = string_bytes("PolarMap");
    data.extend(floats(16, 0.0));
    let mut r = ByteReader::new(&data);
    assert!(matches!(Transform::read(&mut r), Err(HeliumError::UnsupportedTransform(_))));
    assert_eq!(r.stream_position(), 12);
}

#[test]
fn failed_grid_reads_leave_the_reader_where_the_checks_say() {
    let (data, d) = grid_file(&[1, 2, 3], &[4, 5]);
    let len = data.len() as u64;

    let mut r = ByteReader::new(&data);
    r.seek(1);
    let negative = descriptor(d.grid_position, -1, d.end_position);
    assert!(matches!(Grid::read(&mut r, &negative, 0, len), Err(HeliumError::NegativeStreamPosition { .. })));
    assert_eq!(r.stream_position(), 1);

    let mut r = ByteReader::new(&data);
    r.seek(2);
    assert!(matches!(Grid::read(&mut r, &d, 0, len - 1), Err(HeliumError::GridOffsetPastEnd { .. })));
    assert_eq!(r.stream_position(), 2);

    let mut flagged = data.clone();
    flagged[4..8].copy_from_slice(&0x10u32.to_le_bytes());
    let mut r = ByteReader::new(&flagged);
    assert!(matches!(Grid::read(&mut r, &d, 0, len), Err(HeliumError::UnknownCompressionFlags { .. })));
    assert_eq!(r.stream_position(), d.grid_position as u64 + 4);

    let data = grids_file(0, &["a"]);
    let mut r = ByteReader::new(&data);
    let header = Header::read(&mut r).unwrap();
    Metadata::read(&mut r).unwrap();
    let at = r.stream_position();
    assert!(matches!(Grids::read(&mut r, &header, data.len() as u64), Err(HeliumError::GridOffsetsRequired)));
    assert_eq!(r.stream_position(), at + 4);
}

#[test]
fn running_out_of_input_leaves_the_reader_at_the_short_value() {
    let data = [1u8, 2, 3];
    let mut r = ByteReader::new(&data);
    r.seek(1);
    assert!(matches!(Helper::read_u32_le(&mut r), Err(HeliumError::UnexpectedEof)));
    assert_eq!(r.stream_position(), 1);

    let data = floats(2, 1.0);
    let mut r = ByteReader::new(&data);
    assert!(matches!(Helper::read_vec3d(&mut r), Err(HeliumError::UnexpectedEof)));
    assert_eq!(r.stream_position(), 0);
    let mut r = ByteReader::new(&data);
    assert!(matches!(Helper::read_mat4d(&mut r), Err(HeliumError::UnexpectedEof)));
    assert_eq!(r.stream_position(), 0);

    let data = [0u8; 10];
    let mut r = ByteReader::new(&data);
    r.seek(2);
    assert!(matches!(Helper::read_f32_array(&mut r, 3), Err(HeliumError::UnexpectedEof)));
    assert_eq!(r.stream_position(), 2);

    let mut data = 5u32.to_le_bytes().to_vec();
    data.extend_from_slice(b"abc");
    let mut r = ByteReader::new(&data);
    assert!(matches!(Helper::read_string(&mut r), Err(HeliumError::UnexpectedEof)));
    assert_eq!(r.stream_position(), 4);

    let data = [0u8; 6];
    let mut r = ByteReader::new(&data);
    assert!(matches!(Helper::read_byte_range(&mut r, 2, 9), Err(HeliumError::UnexpectedEof)));
    assert_eq!(r.stream_position(), 2);
}

#[test]
fn a_grid_cut_short_leaves_the_reader_where_its_buffers_start() {
    let (data, d) = grid_file(&[1, 2, 3], &[4, 5]);
    let short = &data[..data.len() - 1];
    let mut r = ByteReader::new(short);
    assert!(matches!(Grid::read(&mut r, &d, 0, data.len() as u64), Err(HeliumError::UnexpectedEof)));
    assert_eq!(r.stream_position(), d.block_position as u64);
}

#[test]
fn reading_a_grid_twice_gives_the_same_outcome() {
    let (data, d) = grid_file(&[1, 2, 3], &[4, 5]);
    let mut first = ByteReader::new(&data);
    let mut second = ByteReader::new(&data);
    let a = Grid::read(&mut first, &d, 0, data.len() as u64).unwrap();
    let b = Grid::read(&mut second, &d, 0, data.len() as u64).unwrap();
    assert_eq!(a.raw_topology, b.raw_topology);
    assert_eq!(a.raw_buffers, b.raw_buffers);
    assert_eq!(a.compression.raw, b.compression.raw);
    assert_eq!(first.stream_position(), second.stream_position());

    let short = &data[..data.len() - 4];
    let mut first = ByteReader::new(short);
    let mut second = ByteReader::new(short);
    let a = Grid::read(&mut first, &d, 0, data.len() as u64);
    let b = Grid::read(&mut second, &d, 0, data.len() as u64);
    assert!(matches!(a, Err(HeliumError::UnexpectedEof)));
    assert!(matches!(b, Err(HeliumError::UnexpectedEof)));
    assert_eq!(first.stream_position(), second.stream_position());
}
