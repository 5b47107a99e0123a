use vstd::prelude::*;

use crate::reader::error::{fill_outcome, outcome, HeliumError};
use crate::reader::grid::CompressionFlags;
use crate::reader::helpers::{le_u32, le_u64, twos_complement, F32Bits};
use crate::reader::layout::f32_at;
use crate::tree::coord::{spec_coord, Coord};
use crate::tree::internal_node::{
    child_origin, child_origin_fits, lemma_lower_children_len, lemma_upper_children_len,
    spec_leaves_buffers, spec_lower_buffers, spec_lower_children, spec_lower_topology,
    spec_lowers_buffers, spec_upper_buffers, spec_upper_children, spec_upper_topology,
    LowerInternalNode, LowerInternalNodeView, UpperInternalNode, UpperInternalNodeView,
};
use crate::tree::leaf_node::{spec_leaf_buffer, spec_leaf_topology, LeafNode, LeafNodeView};
use crate::tree::root_node::{
    spec_root_buffers, spec_root_children, spec_root_children_buffers, spec_root_tile, spec_root_tiles,
    spec_root_topology, RootChildView, RootNode, RootNodeView, RootTile,
};
use crate::tree::tree::{spec_tree_buffers, spec_tree_topology, Tree, TreeView};
use crate::tree::node_mask::{lemma_count_on_counts_slots, spec_node_mask, NodeMaskView};

verus! {

/// The `n` little-endian 64-bit words in the `8 * n` bytes at `at`.
pub open spec fn words_at(data: Seq<u8>, at: int, n: int) -> Seq<u64> {
    Seq::new(n as nat, |k: int| le_u64(data.subrange(at + 8 * k, at + 8 * k + 8)) as u64)
}

/// The `n` 32-bit floats in the `4 * n` bytes at `at`.
pub open spec fn f32s_at(data: Seq<u8>, at: int, n: int) -> Seq<F32Bits> {
    Seq::new(n as nat, |k: int| f32_at(data, at + 4 * k))
}

/// The mask of `bit_count` slots whose words are the `words` words at `at`.
pub open spec fn mask_at(data: Seq<u8>, at: int, bit_count: usize, words: int) -> NodeMaskView {
    NodeMaskView { bit_count, words: words_at(data, at, words) }
}

/// A mask that is read is the words at its position.
proof fn lemma_mask_at(data: Seq<u8>, pos: int, bit_count: usize, words: int)
    requires
        words == bit_count / 64 + if bit_count % 64 == 0 {
            0int
        } else {
            1int
        },
    ensures
        spec_node_mask(data, pos, bit_count) matches Ok((m, q)) ==> m == mask_at(
            data,
            pos,
            bit_count,
            words,
        ) && q == pos + 8 * words,
{
    if let Ok((m, q)) = spec_node_mask(data, pos, bit_count) {
        assert(m.words =~= words_at(data, pos, words));
    }
}

/// The leaves of a lower node lie one after the other, 64 bytes each: the
/// value mask of leaf `i` is the 8 words at `pos + 64 * i`. Leaf `i` sits
/// at `slots[i]`, a set slot of the child mask below `n`, in increasing
/// slot order.
proof fn lemma_lower_children_at(
    data: Seq<u8>,
    pos: int,
    origin: Coord,
    child_mask: NodeMaskView,
    n: int,
) -> (slots: Seq<int>)
    ensures
        spec_lower_children(data, pos, origin, child_mask, n) matches Ok((cs, q)) ==> {
            &&& q == pos + 64 * cs.len()
            &&& slots.len() == cs.len()
            &&& forall|i: int|
                0 <= i < cs.len() ==> (#[trigger] cs[i]).value_mask == mask_at(
                    data,
                    pos + 64 * i,
                    512,
                    8,
                ) && cs[i].values.len() == 0
            &&& forall|i: int|
                0 <= i < cs.len() ==> 0 <= #[trigger] slots[i] < n && child_mask.is_on(slots[i])
                    && cs[i].origin == child_origin(origin, slots[i], 16, 8)
            &&& forall|i: int, j: int| 0 <= i < j < cs.len() ==> slots[i] < slots[j]
        },
    decreases n,
{
    if n <= 0 {
        Seq::empty()
    } else {
        let prev = lemma_lower_children_at(data, pos, origin, child_mask, n - 1);
        if let Ok((cs, q)) = spec_lower_children(data, pos, origin, child_mask, n - 1) {
            lemma_mask_at(data, q, 512, 8);
            if child_mask.is_on(n - 1) && child_origin_fits(origin, n - 1, 16, 8) {
                if let Ok((c, q2)) = spec_leaf_topology(data, q, child_origin(origin, n - 1, 16, 8)) {
                    let slots = prev.push(n - 1);
                    let all = cs.push(c);
                    assert forall|i: int| 0 <= i < all.len() implies 0 <= #[trigger] slots[i] < n
                        && child_mask.is_on(slots[i]) && all[i].origin == child_origin(
                        origin,
                        slots[i],
                        16,
                        8,
                    ) by {
                        if i < cs.len() {
                            assert(all[i] == cs[i]);
                            assert(slots[i] == prev[i]);
                        }
                    }
                    assert forall|i: int| 0 <= i < all.len() implies (#[trigger] all[i]).value_mask
                        == mask_at(data, pos + 64 * i, 512, 8) && all[i].values.len() == 0 by {
                        if i < cs.len() {
                            assert(all[i] == cs[i]);
                        }
                    }
                    assert forall|i: int, j: int| 0 <= i < j < all.len() implies slots[i]
                        < slots[j] by {
                        if j < cs.len() {
                            assert(slots[i] == prev[i]);
                            assert(slots[j] == prev[j]);
                        } else {
                            assert(slots[i] == prev[i]);
                        }
                    }
                    return slots;
                }
            }
        }
        prev
    }
}

/// The lower nodes of an upper node: node `i` sits at `slots[i]`, a set
/// slot of the child mask below `n`, in increasing slot order.
proof fn lemma_upper_children_slots(
    data: Seq<u8>,
    pos: int,
    origin: Coord,
    child_mask: NodeMaskView,
    compression: CompressionFlags,
    save_float_as_half: bool,
    n: int,
) -> (slots: Seq<int>)
    ensures
        spec_upper_children(data, pos, origin, child_mask, compression, save_float_as_half, n) matches Ok(
            (cs, q),
        ) ==> {
            &&& slots.len() == cs.len()
            &&& forall|i: int|
                0 <= i < cs.len() ==> 0 <= #[trigger] slots[i] < n && child_mask.is_on(slots[i])
                    && cs[i].origin == child_origin(origin, slots[i], 32, 128)
            &&& forall|i: int, j: int| 0 <= i < j < cs.len() ==> slots[i] < slots[j]
        },
    decreases n,
{
    if n <= 0 {
        Seq::empty()
    } else {
        let prev = lemma_upper_children_slots(
            data,
            pos,
            origin,
            child_mask,
            compression,
            save_float_as_half,
            n - 1,
        );
        if let Ok((cs, q)) = spec_upper_children(
            data,
            pos,
            origin,
            child_mask,
            compression,
            save_float_as_half,
            n - 1,
        ) {
            if child_mask.is_on(n - 1) && child_origin_fits(origin, n - 1, 32, 128) {
                if let Ok((c, q2)) = spec_lower_topology(
                    data,
                    q,
                    child_origin(origin, n - 1, 32, 128),
                    compression,
                    save_float_as_half,
                ) {
                    let slots = prev.push(n - 1);
                    let all = cs.push(c);
                    assert forall|i: int| 0 <= i < all.len() implies 0 <= #[trigger] slots[i] < n
                        && child_mask.is_on(slots[i]) && all[i].origin == child_origin(
                        origin,
                        slots[i],
                        32,
                        128,
                    ) by {
                        if i < cs.len() {
                            assert(all[i] == cs[i]);
                            assert(slots[i] == prev[i]);
                        }
                    }
                    assert forall|i: int, j: int| 0 <= i < j < all.len() implies slots[i]
                        < slots[j] by {
                        assert(slots[i] == prev[i]);
                        if j < cs.len() {
                            assert(slots[j] == prev[j]);
                        }
                    }
                    return slots;
                }
            }
        }
        prev
    }
}

/// What [`LeafNode::read_topology`] gives: a leaf at `origin` with no values
/// whose value mask of 512 slots is the 8 words at the read position.
pub proof fn lemma_leaf_topology_layout(
    data: Seq<u8>,
    pos: int,
    origin: Coord,
    r: Result<LeafNode, HeliumError>,
    end: u64,
)
    requires
        outcome(r, spec_leaf_topology(data, pos, origin), end),
    ensures
        r matches Ok(leaf) ==> {
            &&& leaf.origin == origin
            &&& leaf@.value_mask == mask_at(data, pos, 512, 8)
            &&& leaf@.values.len() == 0
            &&& end == pos + 64
        },
{
    lemma_mask_at(data, pos, 512, 8);
}

/// What [`LowerInternalNode::read_topology`] gives: a node at `origin` whose
/// child mask is the first 64 words at the read position and whose value
/// mask is the 64 words that follow (512 bytes later); then one value for
/// each slot that holds no child (the values being uncompressed full
/// floats), and one leaf for each set slot of the child mask, in slot order,
/// each at its slot's origin and each leaf's value mask being the next 8
/// words.
pub proof fn lemma_lower_topology_layout(
    data: Seq<u8>,
    pos: int,
    origin: Coord,
    compression: CompressionFlags,
    save_float_as_half: bool,
    r: Result<LowerInternalNode, HeliumError>,
    end: u64,
)
    requires
        outcome(r, spec_lower_topology(data, pos, origin, compression, save_float_as_half), end),
    ensures
        r matches Ok(node) ==> {
            let values_at = pos + 1024;
            let leaves_at = values_at + 4 * node@.values.len();
            &&& node.origin == origin
            &&& node@.child_mask == mask_at(data, pos, 4096, 64)
            &&& node@.value_mask == mask_at(data, pos + 512, 4096, 64)
            &&& node@.children.len() == node@.child_mask.count_on()
            &&& node@.values == f32s_at(data, values_at, 4096 - node@.child_mask.count_on())
            &&& !save_float_as_half
            &&& !compression.zip && !compression.active_mask && !compression.blosc
            &&& forall|i: int|
                0 <= i < node@.children.len() ==> (#[trigger] node@.children[i]).value_mask
                    == mask_at(data, leaves_at + 64 * i, 512, 8)
            &&& exists|slots: Seq<int>|
                #![trigger slots.len()]
                {
                &&& slots.len() == node@.children.len()
                &&& forall|i: int|
                    0 <= i < slots.len() ==> 0 <= #[trigger] slots[i] < 4096
                        && node@.child_mask.is_on(slots[i]) && node@.children[i].origin
                        == child_origin(origin, slots[i], 16, 8)
                &&& forall|i: int, j: int| 0 <= i < j < slots.len() ==> slots[i] < slots[j]
            }
            &&& end == leaves_at + 64 * node@.children.len()
        },
{
    lemma_mask_at(data, pos, 4096, 64);
    lemma_mask_at(data, pos + 512, 4096, 64);
    if let Ok((nv, q)) = spec_lower_topology(data, pos, origin, compression, save_float_as_half) {
        let cm = nv.child_mask;
        lemma_count_on_counts_slots(cm, 64);
        let p3 = pos + 1024 + 4 * nv.values.len();
        lemma_lower_children_len(data, p3, origin, cm, 4096);
        let slots = lemma_lower_children_at(data, p3, origin, cm, 4096);
        assert(slots.len() == nv.children.len());
        assert(nv.values =~= f32s_at(data, pos + 1024, 4096 - cm.count_on()));
    }
}

/// What [`UpperInternalNode::read_topology`] gives: a node at `origin` whose
/// child mask is the first 512 words at the read position and whose value
/// mask is the 512 words that follow (4096 bytes later); then one value for
/// each slot that holds no child (the values being uncompressed full
/// floats), then one lower node for each set slot of the child mask, in
/// slot order, each at its slot's origin.
pub proof fn lemma_upper_topology_layout(
    data: Seq<u8>,
    pos: int,
    origin: Coord,
    compression: CompressionFlags,
    save_float_as_half: bool,
    r: Result<UpperInternalNode, HeliumError>,
    end: u64,
)
    requires
        outcome(r, spec_upper_topology(data, pos, origin, compression, save_float_as_half), end),
    ensures
        r matches Ok(node) ==> {
            &&& node.origin == origin
            &&& node@.child_mask == mask_at(data, pos, 32768, 512)
            &&& node@.value_mask == mask_at(data, pos + 4096, 32768, 512)
            &&& node@.children.len() == node@.child_mask.count_on()
            &&& node@.values == f32s_at(data, pos + 8192, 32768 - node@.child_mask.count_on())
            &&& exists|slots: Seq<int>|
                #![trigger slots.len()]
                {
                &&& slots.len() == node@.children.len()
                &&& forall|i: int|
                    0 <= i < slots.len() ==> 0 <= #[trigger] slots[i] < 32768
                        && node@.child_mask.is_on(slots[i]) && node@.children[i].origin
                        == child_origin(origin, slots[i], 32, 128)
                &&& forall|i: int, j: int| 0 <= i < j < slots.len() ==> slots[i] < slots[j]
            }
            &&& !save_float_as_half
            &&& !compression.zip && !compression.active_mask && !compression.blosc
        },
{
    lemma_mask_at(data, pos, 32768, 512);
    lemma_mask_at(data, pos + 4096, 32768, 512);
    if let Ok((nv, q)) = spec_upper_topology(data, pos, origin, compression, save_float_as_half) {
        let cm = nv.child_mask;
        lemma_count_on_counts_slots(cm, 512);
        let p3 = pos + 8192 + 4 * nv.values.len();
        lemma_upper_children_len(data, p3, origin, cm, compression, save_float_as_half, 32768);
        let slots = lemma_upper_children_slots(
            data,
            p3,
            origin,
            cm,
            compression,
            save_float_as_half,
            32768,
        );
        assert(slots.len() == nv.children.len());
        assert(nv.values =~= f32s_at(data, pos + 8192, 32768 - cm.count_on()));
    }
}

/// The coordinate in the 12 bytes at `at`: three little-endian `i32`s, x
/// then y then z.
pub open spec fn coord_at(data: Seq<u8>, at: int) -> Coord {
    Coord {
        x: twos_complement(le_u32(data.subrange(at, at + 4)), 32) as i32,
        y: twos_complement(le_u32(data.subrange(at + 4, at + 8)), 32) as i32,
        z: twos_complement(le_u32(data.subrange(at + 8, at + 12)), 32) as i32,
    }
}

/// What [`Coord::read`] gives is the coordinate in the 12 bytes at the read
/// position, x then y then z; the reader ends after them.
pub proof fn lemma_coord_layout(data: Seq<u8>, pos: int, r: Result<Coord, HeliumError>, end: u64)
    requires
        outcome(r, spec_coord(data, pos), end),
    ensures
        r matches Ok(c) ==> c == coord_at(data, pos) && end == pos + 12,
{
}

/// A root tile in the 17 bytes at `at`: its origin, its value (a 32-bit
/// float) at byte 12, and whether it is active at byte 16 (0 or 1).
pub open spec fn tile_at(data: Seq<u8>, at: int, t: RootTile) -> bool {
    &&& t.origin == coord_at(data, at)
    &&& t.value == f32_at(data, at + 12)
    &&& data[at + 16] == 0 || data[at + 16] == 1
    &&& t.active == (data[at + 16] == 1)
}

proof fn lemma_root_tiles_at(data: Seq<u8>, pos: int, n: int)
    requires
        0 <= n,
    ensures
        spec_root_tiles(data, pos, n) matches Ok((ts, q)) ==> {
            &&& ts.len() == n
            &&& q == pos + 17 * n
            &&& forall|i: int| 0 <= i < n ==> tile_at(data, pos + 17 * i, #[trigger] ts[i])
        },
    decreases n,
{
    if n > 0 {
        lemma_root_tiles_at(data, pos, n - 1);
        if let Ok((ts, q)) = spec_root_tiles(data, pos, n - 1) {
            if let Ok((t, q2)) = spec_root_tile(data, q) {
                assert(data.subrange(q + 16, q + 17)[0] == data[q + 16]);
                let all = ts.push(t);
                assert forall|i: int| 0 <= i < n implies tile_at(
                    data,
                    pos + 17 * i,
                    #[trigger] all[i],
                ) by {
                    if i < n - 1 {
                        assert(all[i] == ts[i]);
                    }
                }
            }
        }
    }
}

proof fn lemma_root_children_origins(
    data: Seq<u8>,
    pos: int,
    compression: CompressionFlags,
    save_float_as_half: bool,
    n: int,
)
    requires
        0 <= n,
    ensures
        spec_root_children(data, pos, compression, save_float_as_half, n) matches Ok((cs, q)) ==> {
            &&& cs.len() == n
            &&& n > 0 ==> cs[0].origin == coord_at(data, pos)
            &&& forall|i: int| 0 <= i < n ==> (#[trigger] cs[i]).node.origin == cs[i].origin
        },
    decreases n,
{
    if n > 0 {
        lemma_root_children_origins(data, pos, compression, save_float_as_half, n - 1);
        if let Ok((cs, q)) = spec_root_children(data, pos, compression, save_float_as_half, n - 1) {
            if n == 1 {
                assert(q == pos);
            }
            if let Ok((origin, q1)) = spec_coord(data, q) {
                if let Ok((node, q2)) = spec_upper_topology(
                    data,
                    q1,
                    origin,
                    compression,
                    save_float_as_half,
                ) {
                    let all = cs.push(RootChildView { origin, node });
                    assert forall|i: int| 0 <= i < n implies (#[trigger] all[i]).node.origin
                        == all[i].origin by {
                        if i < n - 1 {
                            assert(all[i] == cs[i]);
                        }
                    }
                }
            }
        }
    }
}

/// A root whose topology is laid out at `pos`: see
/// [`lemma_root_topology_layout`].
pub open spec fn root_at(
    data: Seq<u8>,
    pos: int,
    save_float_as_half: bool,
    root: RootNodeView,
) -> bool {
    let tiles_at = pos + 12;
    &&& !save_float_as_half
    &&& root.background == f32_at(data, pos)
    &&& root.tiles.len() == le_u32(data.subrange(pos + 4, pos + 8))
    &&& root.children.len() == le_u32(data.subrange(pos + 8, pos + 12))
    &&& forall|i: int|
        0 <= i < root.tiles.len() ==> tile_at(data, tiles_at + 17 * i, #[trigger] root.tiles[i])
    &&& root.children.len() > 0 ==> root.children[0].origin == coord_at(
        data,
        tiles_at + 17 * root.tiles.len(),
    )
    &&& forall|i: int|
        0 <= i < root.children.len() ==> (#[trigger] root.children[i]).node.origin
            == root.children[i].origin
}

/// What [`RootNode::read_topology`] gives: the background is the 32-bit
/// float at the read position, and there are as many tiles and children as
/// the `u32`s at bytes 4 and 8 say. The tiles follow at byte 12, 17 bytes
/// each, in order; the first child's origin follows the last tile, and each
/// child's upper node lies at the child's origin. Half floats are refused.
pub proof fn lemma_root_topology_layout(
    data: Seq<u8>,
    pos: int,
    compression: CompressionFlags,
    save_float_as_half: bool,
    r: Result<RootNode, HeliumError>,
    end: u64,
)
    requires
        outcome(r, spec_root_topology(data, pos, compression, save_float_as_half), end),
    ensures
        r matches Ok(root) ==> root_at(data, pos, save_float_as_half, root@),
{
    lemma_root_at(data, pos, compression, save_float_as_half);
}

proof fn lemma_root_at(
    data: Seq<u8>,
    pos: int,
    compression: CompressionFlags,
    save_float_as_half: bool,
)
    ensures
        spec_root_topology(data, pos, compression, save_float_as_half) matches Ok((rv, q))
            ==> root_at(data, pos, save_float_as_half, rv),
{
    if let Ok((rv, q)) = spec_root_topology(data, pos, compression, save_float_as_half) {
        let a = data.subrange(pos + 4, pos + 8);
        let b = data.subrange(pos + 8, pos + 12);
        assert(0 <= le_u32(a) <= 0xffff_ffff);
        assert(0 <= le_u32(b) <= 0xffff_ffff);
        let nt = le_u32(a);
        let nc = le_u32(b);
        lemma_root_tiles_at(data, pos + 12, nt);
        lemma_root_children_origins(data, pos + 12 + 17 * nt, compression, save_float_as_half, nc);
    }
}

/// What [`LeafNode::read_buffer`] does to a leaf: where the values are
/// uncompressed full floats, the leaf gets the 512 floats at the read
/// position as its values, keeping its origin and mask, and the reader ends
/// after them; any other encoding is refused and the leaf is left as it was.
pub proof fn lemma_leaf_buffer_layout(
    data: Seq<u8>,
    pos: int,
    compression: CompressionFlags,
    save_float_as_half: bool,
    before: LeafNodeView,
    after: LeafNodeView,
    r: Result<(), HeliumError>,
    end: u64,
)
    requires
        match spec_leaf_buffer(data, pos, compression, save_float_as_half) {
            Ok((vs, q)) => r is Ok && after == (LeafNodeView { values: vs, ..before }) && end == q,
            Err((e, q)) => r matches Err(x) && x@ == e && after == before && end == q,
        },
    ensures
        r is Ok ==> {
            &&& !save_float_as_half
            &&& !compression.zip && !compression.active_mask && !compression.blosc
            &&& after.origin == before.origin
            &&& after.value_mask == before.value_mask
            &&& after.values == f32s_at(data, pos, 512)
            &&& end == pos + 2048
        },
        r is Err ==> after == before,
{
    if let Ok((vs, q)) = spec_leaf_buffer(data, pos, compression, save_float_as_half) {
        assert(vs =~= f32s_at(data, pos, 512));
    }
}

/// The leaves `before` with their buffers read from `at`: leaf `i` keeps
/// its origin and mask and gets the 512 floats at `at + 2048 * i`.
pub open spec fn leaves_filled_at(
    data: Seq<u8>,
    at: int,
    before: Seq<LeafNodeView>,
    after: Seq<LeafNodeView>,
) -> bool {
    &&& after.len() == before.len()
    &&& forall|i: int|
        0 <= i < before.len() ==> #[trigger] after[i] == (LeafNodeView {
            values: f32s_at(data, at + 2048 * i, 512),
            ..before[i]
        })
}

proof fn lemma_leaves_buffers_at(
    data: Seq<u8>,
    pos: int,
    leaves: Seq<LeafNodeView>,
    compression: CompressionFlags,
    save_float_as_half: bool,
    n: int,
)
    requires
        0 <= n <= leaves.len(),
    ensures
        ({
            let r = spec_leaves_buffers(data, pos, leaves, compression, save_float_as_half, n);
            r.2 is None ==> {
                &&& r.1 == pos + 2048 * n
                &&& r.0.len() == leaves.len()
                &&& forall|i: int|
                    0 <= i < n ==> #[trigger] r.0[i] == (LeafNodeView {
                        values: f32s_at(data, pos + 2048 * i, 512),
                        ..leaves[i]
                    })
                &&& forall|i: int| n <= i < leaves.len() ==> #[trigger] r.0[i] == leaves[i]
                &&& n > 0 ==> !save_float_as_half && !compression.zip && !compression.active_mask
                    && !compression.blosc
            }
        }),
    decreases n,
{
    if n > 0 {
        lemma_leaves_buffers_at(data, pos, leaves, compression, save_float_as_half, n - 1);
        let prev = spec_leaves_buffers(data, pos, leaves, compression, save_float_as_half, n - 1);
        if prev.2 is None {
            if let Ok((vs, q)) = spec_leaf_buffer(data, prev.1, compression, save_float_as_half) {
                assert(vs =~= f32s_at(data, pos + 2048 * (n - 1), 512));
            }
        }
    }
}

/// What [`LowerInternalNode::read_buffers`] does when it succeeds: where
/// the node has leaves, their values are uncompressed full floats; leaf
/// `i` gets the 512 floats at `2048 * i` bytes past the read position,
/// keeping its origin and mask; the node's origin, masks and values stay as
/// they were; and the reader ends after the last leaf's values.
pub proof fn lemma_lower_buffers_layout(
    data: Seq<u8>,
    pos: int,
    before: LowerInternalNodeView,
    after: LowerInternalNodeView,
    compression: CompressionFlags,
    save_float_as_half: bool,
    r: Result<(), HeliumError>,
    end: u64,
)
    requires
        fill_outcome(
            r,
            after,
            end,
            spec_lower_buffers(data, pos, before, compression, save_float_as_half),
        ),
    ensures
        r is Ok ==> {
            &&& after.origin == before.origin
            &&& after.child_mask == before.child_mask
            &&& after.value_mask == before.value_mask
            &&& after.values == before.values
            &&& leaves_filled_at(data, pos, before.children, after.children)
            &&& before.children.len() > 0 ==> !save_float_as_half && !compression.zip
                && !compression.active_mask && !compression.blosc
            &&& end == pos + 2048 * before.children.len()
        },
{
    lemma_leaves_buffers_at(
        data,
        pos,
        before.children,
        compression,
        save_float_as_half,
        before.children.len() as int,
    );
}

/// A lower node `after` that is `before` with the buffers of its leaves
/// read from `at`: only the leaves' values change (see
/// [`leaves_filled_at`]).
pub open spec fn lower_filled_at(
    data: Seq<u8>,
    at: int,
    before: LowerInternalNodeView,
    after: LowerInternalNodeView,
) -> bool {
    &&& after.origin == before.origin
    &&& after.child_mask == before.child_mask
    &&& after.value_mask == before.value_mask
    &&& after.values == before.values
    &&& leaves_filled_at(data, at, before.children, after.children)
}

/// The number of bytes of leaf values under the first `n` lower nodes:
/// 2048 per leaf.
pub open spec fn lowers_bytes(lowers: Seq<LowerInternalNodeView>, n: int) -> int
    decreases n,
{
    if n <= 0 {
        0
    } else {
        lowers_bytes(lowers, n - 1) + 2048 * lowers[n - 1].children.len()
    }
}

proof fn lemma_lower_filled(
    data: Seq<u8>,
    pos: int,
    node: LowerInternalNodeView,
    compression: CompressionFlags,
    save_float_as_half: bool,
)
    ensures
        ({
            let r = spec_lower_buffers(data, pos, node, compression, save_float_as_half);
            r.2 is None ==> lower_filled_at(data, pos, node, r.0) && r.1 == pos + 2048
                * node.children.len()
        }),
{
    lemma_leaves_buffers_at(
        data,
        pos,
        node.children,
        compression,
        save_float_as_half,
        node.children.len() as int,
    );
}

proof fn lemma_lowers_buffers_at(
    data: Seq<u8>,
    pos: int,
    lowers: Seq<LowerInternalNodeView>,
    compression: CompressionFlags,
    save_float_as_half: bool,
    n: int,
)
    requires
        0 <= n <= lowers.len(),
    ensures
        ({
            let r = spec_lowers_buffers(data, pos, lowers, compression, save_float_as_half, n);
            r.2 is None ==> {
                &&& r.1 == pos + lowers_bytes(lowers, n)
                &&& r.0.len() == lowers.len()
                &&& forall|i: int|
                    0 <= i < n ==> lower_filled_at(
                        data,
                        pos + lowers_bytes(lowers, i),
                        lowers[i],
                        #[trigger] r.0[i],
                    )
                &&& forall|i: int| n <= i < lowers.len() ==> #[trigger] r.0[i] == lowers[i]
            }
        }),
    decreases n,
{
    if n > 0 {
        lemma_lowers_buffers_at(data, pos, lowers, compression, save_float_as_half, n - 1);
        let prev = spec_lowers_buffers(data, pos, lowers, compression, save_float_as_half, n - 1);
        if prev.2 is None {
            lemma_lower_filled(data, prev.1, prev.0[n - 1], compression, save_float_as_half);
        }
    }
}

/// An upper node `after` that is `before` with the buffers of all its
/// leaves read from `at`: the lower nodes are filled one after the other,
/// lower node `i` from `at` plus the bytes of the leaves before it, and
/// nothing but the leaves' values changes.
pub open spec fn upper_filled_at(
    data: Seq<u8>,
    at: int,
    before: UpperInternalNodeView,
    after: UpperInternalNodeView,
) -> bool {
    &&& after.origin == before.origin
    &&& after.child_mask == before.child_mask
    &&& after.value_mask == before.value_mask
    &&& after.values == before.values
    &&& after.children.len() == before.children.len()
    &&& forall|i: int|
        0 <= i < before.children.len() ==> lower_filled_at(
            data,
            at + lowers_bytes(before.children, i),
            before.children[i],
            #[trigger] after.children[i],
        )
}

/// The number of bytes of leaf values under an upper node.
pub open spec fn upper_bytes(node: UpperInternalNodeView) -> int {
    lowers_bytes(node.children, node.children.len() as int)
}

proof fn lemma_upper_filled(
    data: Seq<u8>,
    pos: int,
    node: UpperInternalNodeView,
    compression: CompressionFlags,
    save_float_as_half: bool,
)
    ensures
        ({
            let r = spec_upper_buffers(data, pos, node, compression, save_float_as_half);
            r.2 is None ==> upper_filled_at(data, pos, node, r.0) && r.1 == pos + upper_bytes(node)
        }),
{
    lemma_lowers_buffers_at(
        data,
        pos,
        node.children,
        compression,
        save_float_as_half,
        node.children.len() as int,
    );
}

/// What [`UpperInternalNode::read_buffers`] does when it succeeds: the
/// leaves under the node get their values one after the other from the
/// read position, 512 floats each, in the order of the lower nodes and of
/// their leaves, and nothing else changes ([`upper_filled_at`]); the reader
/// ends after the last leaf's values.
pub proof fn lemma_upper_buffers_layout(
    data: Seq<u8>,
    pos: int,
    before: UpperInternalNodeView,
    after: UpperInternalNodeView,
    compression: CompressionFlags,
    save_float_as_half: bool,
    r: Result<(), HeliumError>,
    end: u64,
)
    requires
        fill_outcome(
            r,
            after,
            end,
            spec_upper_buffers(data, pos, before, compression, save_float_as_half),
        ),
    ensures
        r is Ok ==> upper_filled_at(data, pos, before, after) && end == pos + upper_bytes(before),
{
    lemma_upper_filled(data, pos, before, compression, save_float_as_half);
}

/// The number of bytes of leaf values under the first `n` children of a
/// root.
pub open spec fn root_children_bytes(children: Seq<RootChildView>, n: int) -> int
    decreases n,
{
    if n <= 0 {
        0
    } else {
        root_children_bytes(children, n - 1) + upper_bytes(children[n - 1].node)
    }
}

proof fn lemma_root_children_buffers_at(
    data: Seq<u8>,
    pos: int,
    children: Seq<RootChildView>,
    compression: CompressionFlags,
    save_float_as_half: bool,
    n: int,
)
    requires
        0 <= n <= children.len(),
    ensures
        ({
            let r = spec_root_children_buffers(
                data,
                pos,
                children,
                compression,
                save_float_as_half,
                n,
            );
            r.2 is None ==> {
                &&& r.1 == pos + root_children_bytes(children, n)
                &&& r.0.len() == children.len()
                &&& forall|i: int|
                    0 <= i < n ==> (#[trigger] r.0[i]).origin == children[i].origin
                        && upper_filled_at(
                        data,
                        pos + root_children_bytes(children, i),
                        children[i].node,
                        r.0[i].node,
                    )
                &&& forall|i: int| n <= i < children.len() ==> #[trigger] r.0[i] == children[i]
            }
        }),
    decreases n,
{
    if n > 0 {
        lemma_root_children_buffers_at(data, pos, children, compression, save_float_as_half, n - 1);
        let prev = spec_root_children_buffers(
            data,
            pos,
            children,
            compression,
            save_float_as_half,
            n - 1,
        );
        if prev.2 is None {
            lemma_upper_filled(data, prev.1, prev.0[n - 1].node, compression, save_float_as_half);
        }
    }
}

/// What [`RootNode::read_buffers`] does when it succeeds: the leaves under
/// the root's children get their values one after the other from the read
/// position, child by child in order, each child's upper node being filled
/// as [`upper_filled_at`] says; the background, the tiles and the children's
/// origins stay as they were.
pub proof fn lemma_root_buffers_layout(
    data: Seq<u8>,
    pos: int,
    before: RootNodeView,
    after: RootNodeView,
    compression: CompressionFlags,
    save_float_as_half: bool,
    r: Result<(), HeliumError>,
    end: u64,
)
    requires
        fill_outcome(
            r,
            after,
            end,
            spec_root_buffers(data, pos, before, compression, save_float_as_half),
        ),
    ensures
        r is Ok ==> {
            &&& after.background == before.background
            &&& after.tiles == before.tiles
            &&& after.children.len() == before.children.len()
            &&& forall|i: int|
                0 <= i < before.children.len() ==> (#[trigger] after.children[i]).origin
                    == before.children[i].origin && upper_filled_at(
                    data,
                    pos + root_children_bytes(before.children, i),
                    before.children[i].node,
                    after.children[i].node,
                )
            &&& end == pos + root_children_bytes(before.children, before.children.len() as int)
        },
{
    lemma_root_children_buffers_at(
        data,
        pos,
        before.children,
        compression,
        save_float_as_half,
        before.children.len() as int,
    );
}

/// What [`Tree::read_topology`] gives: the buffer count, the `i32` at the
/// read position, is positive, and the root's topology follows it
/// ([`root_at`]).
pub proof fn lemma_tree_topology_layout(
    data: Seq<u8>,
    pos: int,
    compression: CompressionFlags,
    save_float_as_half: bool,
    r: Result<Tree, HeliumError>,
    end: u64,
)
    requires
        outcome(r, spec_tree_topology(data, pos, compression, save_float_as_half), end),
    ensures
        r matches Ok(t) ==> {
            &&& twos_complement(le_u32(data.subrange(pos, pos + 4)), 32) > 0
            &&& root_at(data, pos + 4, save_float_as_half, t@.root)
        },
{
    lemma_root_at(data, pos + 4, compression, save_float_as_half);
    let b = data.subrange(pos, pos + 4);
    assert(0 <= le_u32(b) <= 0xffff_ffff);
    vstd::arithmetic::power2::lemma2_to64();
}

/// What [`Tree::read_buffers`] does when it succeeds: the root is filled
/// from the read position as [`lemma_root_buffers_layout`] says.
pub proof fn lemma_tree_buffers_layout(
    data: Seq<u8>,
    pos: int,
    before: TreeView,
    after: TreeView,
    compression: CompressionFlags,
    save_float_as_half: bool,
    r: Result<(), HeliumError>,
    end: u64,
)
    requires
        fill_outcome(
            r,
            after,
            end,
            spec_tree_buffers(data, pos, before, compression, save_float_as_half),
        ),
    ensures
        r is Ok ==> {
            &&& after.root.background == before.root.background
            &&& after.root.tiles == before.root.tiles
            &&& after.root.children.len() == before.root.children.len()
            &&& forall|i: int|
                0 <= i < before.root.children.len() ==> (#[trigger] after.root.children[i]).origin
                    == before.root.children[i].origin && upper_filled_at(
                    data,
                    pos + root_children_bytes(before.root.children, i),
                    before.root.children[i].node,
                    after.root.children[i].node,
                )
            &&& end == pos + root_children_bytes(
                before.root.children,
                before.root.children.len() as int,
            )
        },
{
    lemma_root_children_buffers_at(
        data,
        pos,
        before.root.children,
        compression,
        save_float_as_half,
        before.root.children.len() as int,
    );
}

/// Bit `8 * j + c` of a word is bit `c` of its byte `j`, bytes being taken
/// least significant first.
proof fn lemma_word_bits_bytes(
    w: u64,
    b0: u8,
    b1: u8,
    b2: u8,
    b3: u8,
    b4: u8,
    b5: u8,
    b6: u8,
    b7: u8,
    c: u64,
)
    by (bit_vector)
    requires
        w == b0 as u64 | (b1 as u64) << 8u64 | (b2 as u64) << 16u64 | (b3 as u64) << 24u64 | (
        b4 as u64) << 32u64 | (b5 as u64) << 40u64 | (b6 as u64) << 48u64 | (b7 as u64) << 56u64,
        c < 8,
    ensures
        (w >> c) & 1 == (b0 as u64 >> c) & 1,
        (w >> (c + 8)) & 1 == (b1 as u64 >> c) & 1,
        (w >> (c + 16)) & 1 == (b2 as u64 >> c) & 1,
        (w >> (c + 24)) & 1 == (b3 as u64 >> c) & 1,
        (w >> (c + 32)) & 1 == (b4 as u64 >> c) & 1,
        (w >> (c + 40)) & 1 == (b5 as u64 >> c) & 1,
        (w >> (c + 48)) & 1 == (b6 as u64 >> c) & 1,
        (w >> (c + 56)) & 1 == (b7 as u64 >> c) & 1,
{
}

/// Eight bytes, least significant first, make the word that ORs them in at
/// their places.
proof fn lemma_bytes_word(b0: u8, b1: u8, b2: u8, b3: u8, b4: u8, b5: u8, b6: u8, b7: u8)
    by (bit_vector)
    ensures
        b0 as u64 | (b1 as u64) << 8u64 | (b2 as u64) << 16u64 | (b3 as u64) << 24u64 | (
        b4 as u64) << 32u64 | (b5 as u64) << 40u64 | (b6 as u64) << 48u64 | (b7 as u64) << 56u64
            == b0 + 0x100 * b1 + 0x1_0000 * b2 + 0x100_0000 * b3 + 0x1_0000_0000 * b4
            + 0x100_0000_0000 * b5 + 0x1_0000_0000_0000 * b6 + 0x100_0000_0000_0000 * b7,
{
}

/// Slot `i` of a mask read from the bytes at `at` is set exactly when bit
/// `i % 8` of byte `i / 8` is: the slots run through the bytes in order,
/// least significant bit first.
pub proof fn lemma_mask_bits_are_bytes(data: Seq<u8>, at: int, bit_count: usize, words: int, i: int)
    requires
        0 <= at,
        at + 8 * words <= data.len(),
        0 <= i < 64 * words,
    ensures
        mask_at(data, at, bit_count, words).is_on(i) == ((data[at + i / 8] >> ((i % 8) as u8)) & 1
            == 1),
{
    let k = i / 64;
    let b = i % 64;
    let j = b / 8;
    let c = b % 8;
    let p = at + 8 * k;
    assert(0 <= k < words);
    assert(i / 8 == 8 * k + j);
    assert(i % 8 == c);
    let s = data.subrange(p, p + 8);
    let t = s.subrange(4, 8);
    assert(s[0] == data[p] && s[1] == data[p + 1] && s[2] == data[p + 2] && s[3] == data[p + 3]);
    assert(t[0] == data[p + 4] && t[1] == data[p + 5] && t[2] == data[p + 6] && t[3] == data[p + 7]);
    let w = le_u64(s) as u64;
    assert(w == mask_at(data, at, bit_count, words).words[k]);
    lemma_bytes_word(
        data[p],
        data[p + 1],
        data[p + 2],
        data[p + 3],
        data[p + 4],
        data[p + 5],
        data[p + 6],
        data[p + 7],
    );
    assert(0 <= le_u64(s) < 0x1_0000_0000_0000_0000);
    lemma_word_bits_bytes(
        w,
        data[p],
        data[p + 1],
        data[p + 2],
        data[p + 3],
        data[p + 4],
        data[p + 5],
        data[p + 6],
        data[p + 7],
        c as u64,
    );
    let byte = data[at + i / 8];
    let cc = c as u64;
    assert(((byte >> (cc as u8)) & 1 == 1) == ((byte as u64 >> cc) & 1 == 1)) by (bit_vector)
        requires
            cc < 8,
    ;
    assert(b == 8 * j + c);
}

} // verus!
