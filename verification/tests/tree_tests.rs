use helium::reader::byte_reader::ByteReader;
use helium::reader::grid::CompressionFlags;
use helium::reader::helpers::F32Bits;
use helium::reader::vdb_constants::{LEAF_NODE_SIZE, LOWER_NODE_SIZE, UPPER_NODE_SIZE};
use helium::reader::HeliumError;
use helium::tree::coord::Coord;
use helium::tree::internal_node::{LowerInternalNode, UpperInternalNode};
use helium::tree::leaf_node::LeafNode;
use helium::tree::node_mask::NodeMask;
use helium::tree::root_node::RootNode;
use helium::tree::tree::Tree;

fn plain() -> CompressionFlags {
    CompressionFlags::from_raw(0)
}

/// The words of a mask of `bit_count` bits with the given slots set.
fn mask_bytes(bit_count: usize, set: &[usize]) -> Vec<u8> {
    let mut words = vec![0u64; bit_count.div_ceil(64)];
    for &s in set {
        words[s / 64] |= 1u64 << (s % 64);
    }
    words.iter().flat_map(|w| w.to_le_bytes()).collect()
}

fn f32s(n: usize, first: f32) -> Vec<u8> {
    (0..n).flat_map(|i| (first + i as f32).to_le_bytes()).collect()
}

fn coord_bytes(x: i32, y: i32, z: i32) -> Vec<u8> {
    [x, y, z].iter().flat_map(|v| v.to_le_bytes()).collect()
}

/// The topology of a lower node whose children are in `child_slots`.
fn lower_topology(child_slots: &[usize]) -> Vec<u8> {
    let mut out = mask_bytes(LOWER_NODE_SIZE, child_slots);
    out.extend(mask_bytes(LOWER_NODE_SIZE, &[]));
    out.extend(f32s(LOWER_NODE_SIZE - child_slots.len(), 0.0));
    for _ in child_slots {
        out.extend(mask_bytes(LEAF_NODE_SIZE, &[0]));
    }
    out
}

/// The topology of an upper node with one lower child in `slot`, which has
/// leaves in `leaf_slots`.
fn upper_topology(slot: usize, leaf_slots: &[usize]) -> Vec<u8> {
    let mut out = mask_bytes(UPPER_NODE_SIZE, &[slot]);
    out.extend(mask_bytes(UPPER_NODE_SIZE, &[]));
    out.extend(f32s(UPPER_NODE_SIZE - 1, 0.0));
    out.extend(lower_topology(leaf_slots));
    out
}

#[test]
fn reads_a_coord() {
    let data = coord_bytes(-8, 16, 2147483647);
    let mut r = ByteReader::new(&data);
    assert_eq!(Coord::read(&mut r).unwrap(), Coord { x: -8, y: 16, z: i32::MAX });
    assert!(matches!(Coord::read(&mut r), Err(HeliumError::UnexpectedEof)));
}

#[test]
fn node_mask_bits() {
    let data = mask_bytes(512, &[0, 63, 64, 511]);
    let mut r = ByteReader::new(&data);
    let m = NodeMask::read(&mut r, 512).unwrap();
    assert_eq!(m.bit_count, 512);
    assert_eq!(m.words.len(), 8);
    assert!(m.is_on(0) && m.is_on(63) && m.is_on(64) && m.is_on(511));
    assert!(!m.is_on(1) && !m.is_on(65) && !m.is_on(510));
    assert_eq!(m.count_on(), 4);
    assert_eq!(r.stream_position(), 64);
}

#[test]
fn node_mask_rounds_up_to_words() {
    let data = mask_bytes(65, &[64]);
    let mut r = ByteReader::new(&data);
    let m = NodeMask::read(&mut r, 65).unwrap();
    assert_eq!(m.words.len(), 2);
    assert!(m.is_on(64));
    assert_eq!(m.count_on(), 1);

    let mut r = ByteReader::new(&data);
    let empty = NodeMask::read(&mut r, 0).unwrap();
    assert!(empty.words.is_empty());
    assert_eq!(empty.count_on(), 0);

    let mut r = ByteReader::new(&data[..15]);
    assert!(matches!(NodeMask::read(&mut r, 65), Err(HeliumError::UnexpectedEof)));
    assert_eq!(r.stream_position(), 0);
}

#[test]
fn count_on_counts_every_set_bit() {
    let m = NodeMask { bit_count: 128, words: vec![u64::MAX, 0x8000_0000_0000_0001] };
    assert_eq!(m.count_on(), 66);
    let on = (0..128).filter(|&i| m.is_on(i)).count();
    assert_eq!(on, 66);
}

#[test]
fn leaf_topology_and_buffer() {
    let mut data = mask_bytes(LEAF_NODE_SIZE, &[3]);
    data.extend(f32s(LEAF_NODE_SIZE, 1.0));
    let mut r = ByteReader::new(&data);
    let mut leaf = LeafNode::read_topology(&mut r, Coord { x: 8, y: 0, z: 0 }).unwrap();
    assert_eq!(leaf.origin, Coord { x: 8, y: 0, z: 0 });
    assert!(leaf.value_mask.is_on(3));
    assert!(leaf.values.is_empty());
    leaf.read_buffer(&mut r, plain(), false).unwrap();
    assert_eq!(leaf.values.len(), LEAF_NODE_SIZE);
    assert_eq!(leaf.values[0], F32Bits(1.0f32.to_bits()));
    assert_eq!(leaf.values[511], F32Bits(512.0f32.to_bits()));
    assert_eq!(r.stream_position(), data.len() as u64);
}

#[test]
fn leaf_buffer_errors_leave_the_leaf_alone() {
    let data = mask_bytes(LEAF_NODE_SIZE, &[]);
    let mut r = ByteReader::new(&data);
    let mut leaf = LeafNode::read_topology(&mut r, Coord { x: 0, y: 0, z: 0 }).unwrap();
    assert!(matches!(leaf.read_buffer(&mut r, plain(), true), Err(HeliumError::HalfFloatNotImplemented)));
    for raw in [1u32, 2, 4] {
        assert!(matches!(
            leaf.read_buffer(&mut r, CompressionFlags::from_raw(raw), false),
            Err(HeliumError::CompressedValuesNotImplemented { flags }) if flags == raw
        ));
    }
    let short = f32s(10, 0.0);
    let mut r = ByteReader::new(&short);
    assert!(matches!(leaf.read_buffer(&mut r, plain(), false), Err(HeliumError::UnexpectedEof)));
    assert!(leaf.values.is_empty());
}

#[test]
fn lower_node_topology() {
    // Slot 273 = (1, 1, 1); slot 4095 = (15, 15, 15).
    let data = lower_topology(&[273, 4095]);
    let mut r = ByteReader::new(&data);
    let origin = Coord { x: 128, y: -128, z: 0 };
    let node = LowerInternalNode::read_topology(&mut r, origin, F32Bits(0), plain(), false).unwrap();
    assert_eq!(node.values.len(), LOWER_NODE_SIZE - 2);
    assert_eq!(node.children.len(), 2);
    assert_eq!(node.values.len() + node.children.len(), LOWER_NODE_SIZE);
    assert_eq!(node.children[0].origin, Coord { x: 136, y: -120, z: 8 });
    assert_eq!(node.children[1].origin, Coord { x: 248, y: -8, z: 120 });
    assert_eq!(r.stream_position(), data.len() as u64);
}

#[test]
fn lower_node_buffers() {
    let mut data = lower_topology(&[0, 1]);
    data.extend(f32s(LEAF_NODE_SIZE, 0.0));
    data.extend(f32s(LEAF_NODE_SIZE, 1000.0));
    let mut r = ByteReader::new(&data);
    let mut node =
        LowerInternalNode::read_topology(&mut r, Coord { x: 0, y: 0, z: 0 }, F32Bits(0), plain(), false)
            .unwrap();
    node.read_buffers(&mut r, plain(), false).unwrap();
    assert_eq!(node.children[0].values[5], F32Bits(5.0f32.to_bits()));
    assert_eq!(node.children[1].values[0], F32Bits(1000.0f32.to_bits()));
    assert_eq!(r.stream_position(), data.len() as u64);
}

#[test]
fn a_failed_buffer_read_keeps_earlier_leaves() {
    let mut data = lower_topology(&[0, 1]);
    data.extend(f32s(LEAF_NODE_SIZE, 0.0));
    data.extend(f32s(3, 0.0));
    let mut r = ByteReader::new(&data);
    let mut node =
        LowerInternalNode::read_topology(&mut r, Coord { x: 0, y: 0, z: 0 }, F32Bits(0), plain(), false)
            .unwrap();
    assert!(matches!(node.read_buffers(&mut r, plain(), false), Err(HeliumError::UnexpectedEof)));
    assert_eq!(node.children[0].values.len(), LEAF_NODE_SIZE);
    assert!(node.children[1].values.is_empty());
}

#[test]
fn internal_values_refuse_compression() {
    let data = lower_topology(&[]);
    let mut r = ByteReader::new(&data);
    assert!(matches!(
        LowerInternalNode::read_topology(&mut r, Coord { x: 0, y: 0, z: 0 }, F32Bits(0), CompressionFlags::from_raw(1), false),
        Err(HeliumError::CompressedValuesNotImplemented { flags: 1 })
    ));
    let mut r = ByteReader::new(&data);
    assert!(matches!(
        LowerInternalNode::read_topology(&mut r, Coord { x: 0, y: 0, z: 0 }, F32Bits(0), plain(), true),
        Err(HeliumError::HalfFloatNotImplemented)
    ));
}

#[test]
fn child_origins_must_fit() {
    let data = lower_topology(&[4095]);
    let mut r = ByteReader::new(&data);
    let origin = Coord { x: i32::MAX - 100, y: 0, z: 0 };
    assert!(matches!(
        LowerInternalNode::read_topology(&mut r, origin, F32Bits(0), plain(), false),
        Err(HeliumError::ChildOriginOverflow { origin: o, slot: 4095 }) if o == origin
    ));
    // A child at local x 0 still fits.
    let data = lower_topology(&[15]);
    let mut r = ByteReader::new(&data);
    let node = LowerInternalNode::read_topology(&mut r, origin, F32Bits(0), plain(), false).unwrap();
    assert_eq!(node.children[0].origin, Coord { x: i32::MAX - 100, y: 0, z: 120 });
}

#[test]
fn upper_node_topology() {
    // Slot 1057 = (1, 1, 1) in a 32^3 node.
    let data = upper_topology(1057, &[0]);
    let mut r = ByteReader::new(&data);
    let node =
        UpperInternalNode::read_topology(&mut r, Coord { x: 0, y: 0, z: 4096 }, F32Bits(0), plain(), false)
            .unwrap();
    assert_eq!(node.children.len(), 1);
    assert_eq!(node.values.len() + node.children.len(), UPPER_NODE_SIZE);
    assert_eq!(node.children[0].origin, Coord { x: 128, y: 128, z: 4224 });
    assert_eq!(node.children[0].children[0].origin, Coord { x: 128, y: 128, z: 4224 });
    assert_eq!(r.stream_position(), data.len() as u64);
}

fn root_bytes(background: f32, tiles: &[(i32, f32, u8)], children: &[(i32, usize)]) -> Vec<u8> {
    let mut out = background.to_le_bytes().to_vec();
    out.extend_from_slice(&(tiles.len() as u32).to_le_bytes());
    out.extend_from_slice(&(children.len() as u32).to_le_bytes());
    for &(x, v, a) in tiles {
        out.extend(coord_bytes(x, 0, 0));
        out.extend_from_slice(&v.to_le_bytes());
        out.push(a);
    }
    for &(x, slot) in children {
        out.extend(coord_bytes(x, 0, 0));
        out.extend(upper_topology(slot, &[7]));
    }
    out
}

#[test]
fn root_topology_and_buffers() {
    let mut data = root_bytes(0.5, &[(4096, 2.0, 1), (8192, 3.0, 0)], &[(0, 0), (-4096, 5)]);
    data.extend(f32s(LEAF_NODE_SIZE, 0.0));
    data.extend(f32s(LEAF_NODE_SIZE, 100.0));
    let mut r = ByteReader::new(&data);
    let mut root = RootNode::read_topology(&mut r, plain(), false).unwrap();
    assert_eq!(root.background, F32Bits(0.5f32.to_bits()));
    assert_eq!(root.tiles.len(), 2);
    assert_eq!(root.tiles[0].origin, Coord { x: 4096, y: 0, z: 0 });
    assert!(root.tiles[0].active);
    assert!(!root.tiles[1].active);
    assert_eq!(root.tiles[1].value, F32Bits(3.0f32.to_bits()));
    assert_eq!(root.children.len(), 2);
    assert_eq!(root.children[1].origin, Coord { x: -4096, y: 0, z: 0 });
    assert_eq!(root.children[1].node.children[0].origin, Coord { x: -4096, y: 0, z: 640 });
    root.read_buffers(&mut r, plain(), false).unwrap();
    assert_eq!(root.children[1].node.children[0].children[0].values[0], F32Bits(100.0f32.to_bits()));
    assert_eq!(r.stream_position(), data.len() as u64);
}

#[test]
fn root_errors() {
    let mut data = root_bytes(0.0, &[(0, 1.0, 2)], &[]);
    let mut r = ByteReader::new(&data);
    match RootNode::read_topology(&mut r, plain(), false) {
        Err(HeliumError::InvalidBoolean { field, value }) => {
            assert_eq!(field, "root_tile_active");
            assert_eq!(value, 2);
        }
        other => panic!("unexpected {:?}", other),
    }
    let mut r = ByteReader::new(&data);
    assert!(matches!(RootNode::read_topology(&mut r, plain(), true), Err(HeliumError::HalfFloatNotImplemented)));
    data.truncate(20);
    let mut r = ByteReader::new(&data);
    assert!(matches!(RootNode::read_topology(&mut r, plain(), false), Err(HeliumError::UnexpectedEof)));
}

#[test]
fn tree_topology_and_buffers() {
    let mut data = 1i32.to_le_bytes().to_vec();
    data.extend(root_bytes(0.0, &[], &[(0, 0)]));
    data.extend(f32s(LEAF_NODE_SIZE, 7.0));
    let mut r = ByteReader::new(&data);
    let mut tree = Tree::read_topology(&mut r, plain(), false).unwrap();
    assert_eq!(tree.root.children.len(), 1);
    tree.read_buffers(&mut r, plain(), false).unwrap();
    assert_eq!(tree.root.children[0].node.children[0].children[0].values[0], F32Bits(7.0f32.to_bits()));

    for count in [0i32, -1] {
        let mut data = count.to_le_bytes().to_vec();
        data.extend(root_bytes(0.0, &[], &[]));
        let mut r = ByteReader::new(&data);
        assert!(matches!(
            Tree::read_topology(&mut r, plain(), false),
            Err(HeliumError::InvalidTreeBufferCount(c)) if c == count
        ));
    }
}

#[test]
fn children_lie_inside_the_node_at_distinct_origins() {
    let slots = [0usize, 1, 16, 255, 256, 1000, 4095];
    let data = lower_topology(&slots);
    let mut r = ByteReader::new(&data);
    let origin = Coord { x: -64, y: 32, z: 1024 };
    let node = LowerInternalNode::read_topology(&mut r, origin, F32Bits(0), plain(), false).unwrap();
    assert_eq!(node.children.len(), slots.len());
    for (i, a) in node.children.iter().enumerate() {
        for d in [a.origin.x - origin.x, a.origin.y - origin.y, a.origin.z - origin.z] {
            assert!((0..128).contains(&d));
        }
        for b in &node.children[i + 1..] {
            assert_ne!(a.origin, b.origin);
        }
    }
}

#[test]
fn reading_buffers_keeps_the_topology() {
    let mut data = 1i32.to_le_bytes().to_vec();
    data.extend(root_bytes(2.0, &[(0, 1.0, 1)], &[(0, 3)]));
    data.extend(f32s(LEAF_NODE_SIZE, 1.0));
    let mut r = ByteReader::new(&data);
    let mut tree = Tree::read_topology(&mut r, plain(), false).unwrap();
    let before = format!("{:?}", tree.root.children[0].node.child_mask);
    let lower_values = tree.root.children[0].node.children[0].values.clone();
    let leaf_origin = tree.root.children[0].node.children[0].children[0].origin;
    tree.read_buffers(&mut r, plain(), false).unwrap();
    assert_eq!(format!("{:?}", tree.root.children[0].node.child_mask), before);
    assert_eq!(tree.root.children[0].node.children[0].values, lower_values);
    assert_eq!(tree.root.children[0].node.children[0].children[0].origin, leaf_origin);
    assert_eq!(tree.root.tiles.len(), 1);
    assert_eq!(tree.root.background, F32Bits(2.0f32.to_bits()));
    assert_eq!(tree.root.children[0].node.children[0].children[0].values.len(), LEAF_NODE_SIZE);
}

#[test]
fn failed_tree_reads_stop_where_the_check_fails() {
    let mut data = 0i32.to_le_bytes().to_vec();
    data.extend(root_bytes(0.0, &[], &[]));
    let mut r = ByteReader::new(&data);
    assert!(Tree::read_topology(&mut r, plain(), false).is_err());
    assert_eq!(r.stream_position(), 4);

    let data = root_bytes(0.0, &[], &[]);
    let mut r = ByteReader::new(&data);
    assert!(RootNode::read_topology(&mut r, plain(), true).is_err());
    assert_eq!(r.stream_position(), 0);

    let data = upper_topology(0, &[]);
    let mut r = ByteReader::new(&data);
    assert!(matches!(
        UpperInternalNode::read_topology(&mut r, Coord { x: 0, y: 0, z: 0 }, F32Bits(0), CompressionFlags::from_raw(4), false),
        Err(HeliumError::CompressedValuesNotImplemented { flags: 4 })
    ));
    assert_eq!(r.stream_position(), 8192);

    let data = f32s(LEAF_NODE_SIZE, 0.0);
    let mut r = ByteReader::new(&data);
    let mut leaf = LeafNode { origin: Coord { x: 0, y: 0, z: 0 }, value_mask: NodeMask { bit_count: 512, words: vec![0; 8] }, values: Vec::new() };
    assert!(leaf.read_buffer(&mut r, plain(), true).is_err());
    assert_eq!(r.stream_position(), 0);
    assert!(leaf.values.is_empty());
}
