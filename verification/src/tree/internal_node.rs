use vstd::arithmetic::div_mod::{lemma_div_denominator, lemma_fundamental_div_mod};
use vstd::arithmetic::power2::{lemma2_to64, lemma_pow2_adds, pow2};
use vstd::bits::{
    lemma_usize_low_bits_mask_is_mod, lemma_usize_pow2_no_overflow, lemma_usize_shl_is_mul,
    lemma_usize_shr_is_div, low_bits_mask,
};
use vstd::prelude::*;

use crate::reader::byte_reader::ByteReader;
use crate::reader::error::{Failure, fill_outcome, outcome, ErrorView, HeliumError};
use crate::reader::grid::CompressionFlags;
use crate::reader::helpers::{spec_f32_array, F32Bits, Helper};
use crate::reader::vdb_constants::{
    LOWER_NODE_LOG2_DIM, LOWER_NODE_SIZE, UPPER_NODE_LOG2_DIM, UPPER_NODE_SIZE,
};
use crate::tree::coord::Coord;
use crate::tree::leaf_node::{
    check_value_encoding, leaf_filled, same_leaf_topology, spec_leaf_buffer, spec_leaf_topology,
    spec_value_encoding, LeafNode, LeafNodeView,
};
use crate::tree::node_mask::{lemma_count_on_counts_slots, spec_node_mask, NodeMask, NodeMaskView};

verus! {

/// The local coordinates of slot `offset` in a node of side `dim`: slots
/// run through z fastest, then y, then x.
pub open spec fn local_coords(offset: int, dim: int) -> (int, int, int) {
    (offset / (dim * dim), (offset / dim) % dim, offset % dim)
}

/// Each slot of a node of side `dim` has local coordinates inside the node,
/// and the slot is recovered from them.
pub proof fn lemma_local_coords_inverse(offset: int, dim: int)
    requires
        dim > 0,
        0 <= offset < dim * dim * dim,
    ensures
        ({
            let (x, y, z) = local_coords(offset, dim);
            &&& 0 <= x < dim
            &&& 0 <= y < dim
            &&& 0 <= z < dim
            &&& offset == (x * dim + y) * dim + z
        }),
{
    let (x, y, z) = local_coords(offset, dim);
    let q = offset / dim;
    lemma_fundamental_div_mod(offset, dim);
    lemma_fundamental_div_mod(q, dim);
    lemma_div_denominator(offset, dim, dim);
    assert(0 <= z < dim);
    assert(0 <= y < dim);
    assert(x == q / dim);
    assert(0 <= q) by (nonlinear_arith)
        requires
            0 <= offset,
            dim > 0,
            q == offset / dim,
    ;
    assert(q < dim * dim) by (nonlinear_arith)
        requires
            offset == dim * q + z,
            0 <= z,
            offset < dim * dim * dim,
            dim > 0,
    ;
    assert(0 <= x < dim) by (nonlinear_arith)
        requires
            q == dim * x + y,
            0 <= y < dim,
            0 <= q < dim * dim,
            dim > 0,
    ;
    assert(offset == (x * dim + y) * dim + z) by (nonlinear_arith)
        requires
            offset == dim * q + z,
            q == dim * x + y,
    ;
}

/// The local coordinates of slot `offset` in a node of side
/// `1 << log2_dim`. A slot inside the node has local coordinates inside the
/// node, from which it is recovered.
fn offset_to_local(offset: usize, log2_dim: usize) -> (r: [usize; 3])
    requires
        2 * log2_dim < usize::BITS,
    ensures
        r@.len() == 3,
        (r@[0] as int, r@[1] as int, r@[2] as int) == local_coords(
            offset as int,
            pow2(log2_dim as nat) as int,
        ),
        ({
            let d = pow2(log2_dim as nat) as int;
            offset < d * d * d ==> {
                &&& r@[0] < d
                &&& r@[1] < d
                &&& r@[2] < d
                &&& offset == (r@[0] * d + r@[1]) * d + r@[2]
            }
        }),
{
    let ghost d = pow2(log2_dim as nat);
    proof {
        lemma_usize_pow2_no_overflow(log2_dim as nat);
        lemma_usize_pow2_no_overflow(2 * log2_dim as nat);
        lemma_usize_shl_is_mul(1, log2_dim);
        lemma_pow2_adds(log2_dim as nat, log2_dim as nat);
        lemma_usize_shr_is_div(offset, (2 * log2_dim) as usize);
        lemma_usize_shr_is_div(offset, log2_dim);
        lemma_usize_low_bits_mask_is_mod(offset, log2_dim as nat);
        lemma_usize_low_bits_mask_is_mod(offset >> log2_dim, log2_dim as nat);
        if offset < d * d * d {
            lemma_local_coords_inverse(offset as int, d as int);
        }
    }
    let dimension = 1usize << log2_dim;
    let mask = dimension - 1;
    assert(mask == low_bits_mask(log2_dim as nat) as usize);
    let x = offset >> (2 * log2_dim);
    let y = (offset >> log2_dim) & mask;
    let z = offset & mask;
    [x, y, z]
}

/// The origin of the child in `slot` of a node at `origin` with side `dim`,
/// whose children each span `extent` voxels along every axis.
pub open spec fn child_origin(origin: Coord, slot: int, dim: int, extent: int) -> Coord {
    let (x, y, z) = local_coords(slot, dim);
    Coord {
        x: (origin.x + x * extent) as i32,
        y: (origin.y + y * extent) as i32,
        z: (origin.z + z * extent) as i32,
    }
}

/// The child origin of `slot` fits in 32-bit coordinates.
pub open spec fn child_origin_fits(origin: Coord, slot: int, dim: int, extent: int) -> bool {
    let (x, y, z) = local_coords(slot, dim);
    &&& origin.x + x * extent <= i32::MAX
    &&& origin.y + y * extent <= i32::MAX
    &&& origin.z + z * extent <= i32::MAX
}

/// The children of a node lie inside the node, at distinct origins: the
/// child in slot `s` of a node at `origin` with side `dim` and child extent
/// `extent` lies within `dim * extent` voxels of `origin` along each axis,
/// and two distinct slots give two distinct origins.
pub proof fn lemma_child_origins(origin: Coord, s1: int, s2: int, dim: int, extent: int)
    requires
        dim > 0,
        extent > 0,
        0 <= s1 < dim * dim * dim,
        0 <= s2 < dim * dim * dim,
        child_origin_fits(origin, s1, dim, extent),
        child_origin_fits(origin, s2, dim, extent),
    ensures
        ({
            let c = child_origin(origin, s1, dim, extent);
            &&& 0 <= c.x - origin.x < dim * extent
            &&& 0 <= c.y - origin.y < dim * extent
            &&& 0 <= c.z - origin.z < dim * extent
        }),
        s1 != s2 ==> child_origin(origin, s1, dim, extent) != child_origin(
            origin,
            s2,
            dim,
            extent,
        ),
{
    lemma_local_coords_inverse(s1, dim);
    lemma_local_coords_inverse(s2, dim);
    let (x1, y1, z1) = local_coords(s1, dim);
    let (x2, y2, z2) = local_coords(s2, dim);
    assert(0 <= x1 * extent < dim * extent && 0 <= y1 * extent < dim * extent && 0 <= z1 * extent
        < dim * extent) by (nonlinear_arith)
        requires
            0 <= x1 < dim,
            0 <= y1 < dim,
            0 <= z1 < dim,
            extent > 0,
    ;
    assert(0 <= x2 * extent && 0 <= y2 * extent && 0 <= z2 * extent) by (nonlinear_arith)
        requires
            0 <= x2,
            0 <= y2,
            0 <= z2,
            extent > 0,
    ;
    if s1 != s2 && child_origin(origin, s1, dim, extent) == child_origin(origin, s2, dim, extent) {
        assert(x1 * extent == x2 * extent && y1 * extent == y2 * extent && z1 * extent == z2
            * extent);
        assert(x1 == x2 && y1 == y2 && z1 == z2) by (nonlinear_arith)
            requires
                x1 * extent == x2 * extent,
                y1 * extent == y2 * extent,
                z1 * extent == z2 * extent,
                extent > 0,
        ;
    }
}

/// Whether the child origin at local coordinates `local` fits in 32 bits.
fn local_origin_fits(origin: Coord, local: [usize; 3], extent: i32) -> (b: bool)
    requires
        local@.len() == 3,
        local@[0] < 32,
        local@[1] < 32,
        local@[2] < 32,
        0 < extent <= 128,
    ensures
        b == (origin.x + local@[0] * extent <= i32::MAX && origin.y + local@[1] * extent
            <= i32::MAX && origin.z + local@[2] * extent <= i32::MAX),
{
    assert(local@[0] * extent <= 31 * 128) by (nonlinear_arith)
        requires
            local@[0] < 32,
            0 < extent <= 128,
    ;
    assert(local@[1] * extent <= 31 * 128) by (nonlinear_arith)
        requires
            local@[1] < 32,
            0 < extent <= 128,
    ;
    assert(local@[2] * extent <= 31 * 128) by (nonlinear_arith)
        requires
            local@[2] < 32,
            0 < extent <= 128,
    ;
    let dx = local[0] as i32 * extent;
    let dy = local[1] as i32 * extent;
    let dz = local[2] as i32 * extent;
    origin.x <= i32::MAX - dx && origin.y <= i32::MAX - dy && origin.z <= i32::MAX - dz
}

/// The origin of the child in `slot` of an upper node at `node_origin`: a
/// lower node spanning 16 * 8 voxels per axis.
fn upper_child_origin(node_origin: Coord, slot: usize) -> (c: Coord)
    requires
        slot < UPPER_NODE_SIZE,
        child_origin_fits(node_origin, slot as int, 32, 128),
    ensures
        c == child_origin(node_origin, slot as int, 32, 128),
{
    proof {
        lemma2_to64();
    }
    let local = offset_to_local(slot, UPPER_NODE_LOG2_DIM);
    let x = local[0];
    let y = local[1];
    let z = local[2];
    let lower_voxel_extent: i32 = 16 * 8;
    Coord {
        x: node_origin.x + x as i32 * lower_voxel_extent,
        y: node_origin.y + y as i32 * lower_voxel_extent,
        z: node_origin.z + z as i32 * lower_voxel_extent,
    }
}

/// The origin of the child in `slot` of a lower node at `node_origin`: a
/// leaf spanning 8 voxels per axis.
fn lower_child_origin(node_origin: Coord, slot: usize) -> (c: Coord)
    requires
        slot < LOWER_NODE_SIZE,
        child_origin_fits(node_origin, slot as int, 16, 8),
    ensures
        c == child_origin(node_origin, slot as int, 16, 8),
{
    proof {
        lemma2_to64();
    }
    let local = offset_to_local(slot, LOWER_NODE_LOG2_DIM);
    let x = local[0];
    let y = local[1];
    let z = local[2];
    let leaf_voxel_extent: i32 = 8;
    Coord {
        x: node_origin.x + x as i32 * leaf_voxel_extent,
        y: node_origin.y + y as i32 * leaf_voxel_extent,
        z: node_origin.z + z as i32 * leaf_voxel_extent,
    }
}


/// The values of an internal node: one uncompressed 32-bit float per slot
/// that holds no child.
pub open spec fn spec_internal_values(
    data: Seq<u8>,
    pos: int,
    entry_count: int,
    child_mask: NodeMaskView,
    compression: CompressionFlags,
    save_float_as_half: bool,
) -> Result<(Seq<F32Bits>, int), Failure> {
    match spec_value_encoding(compression, save_float_as_half) {
        Ok(_) => spec_f32_array(data, pos, entry_count - child_mask.count_on()),
        Err(e) => Err((e, pos)),
    }
}

/// Reads the values of an internal node: one per slot of its `entry_count`
/// that the child mask does not set.
fn read_internal_values(
    reader: &mut ByteReader,
    entry_count: usize,
    child_mask: &NodeMask,
    compression: CompressionFlags,
    save_float_as_half: bool,
) -> (r: Result<Vec<F32Bits>, HeliumError>)
    requires
        64 * child_mask.words@.len() <= usize::MAX,
        child_mask@.count_on() <= entry_count,
    ensures
        final(reader).bytes == old(reader).bytes,
        outcome(
            r,
            spec_internal_values(
                old(reader).data(),
                old(reader).pos as int,
                entry_count as int,
                child_mask@,
                compression,
                save_float_as_half,
            ),
            final(reader).pos,
        ),
{
    match check_value_encoding(compression, save_float_as_half) {
        Ok(_) => {},
        Err(e) => return Err(e),
    }
    let value_count = entry_count - child_mask.count_on();
    Helper::read_f32_array(reader, value_count)
}

// ---------------------------------------------------------------------------
// Lower internal nodes: 16x16x16 slots, each a leaf or a value.
// ---------------------------------------------------------------------------
/// A lower internal node.
#[derive(Debug)]
pub struct LowerInternalNode {
    pub origin: Coord,
    pub child_mask: NodeMask,
    pub value_mask: NodeMask,
    pub values: Vec<F32Bits>,
    pub children: Vec<LeafNode>,
}

/// The mathematical value of a [`LowerInternalNode`].
pub struct LowerInternalNodeView {
    pub origin: Coord,
    pub child_mask: NodeMaskView,
    pub value_mask: NodeMaskView,
    pub values: Seq<F32Bits>,
    pub children: Seq<LeafNodeView>,
}

pub open spec fn leaves_view(children: Seq<LeafNode>) -> Seq<LeafNodeView> {
    children.map_values(|c: LeafNode| c@)
}

impl View for LowerInternalNode {
    type V = LowerInternalNodeView;

    open spec fn view(&self) -> LowerInternalNodeView {
        LowerInternalNodeView {
            origin: self.origin,
            child_mask: self.child_mask@,
            value_mask: self.value_mask@,
            values: self.values@,
            children: leaves_view(self.children@),
        }
    }
}

/// The leaves of a lower node at `origin` for the set slots among `0..n`,
/// in slot order.
pub open spec fn spec_lower_children(
    data: Seq<u8>,
    pos: int,
    origin: Coord,
    child_mask: NodeMaskView,
    n: int,
) -> Result<(Seq<LeafNodeView>, int), Failure>
    decreases n,
{
    if n <= 0 {
        Ok((Seq::empty(), pos))
    } else {
        match spec_lower_children(data, pos, origin, child_mask, n - 1) {
            Ok((cs, q)) => if !child_mask.is_on(n - 1) {
                Ok((cs, q))
            } else if !child_origin_fits(origin, n - 1, 16, 8) {
                Err((ErrorView::ChildOriginOverflow { origin, slot: (n - 1) as usize }, q))
            } else {
                match spec_leaf_topology(data, q, child_origin(origin, n - 1, 16, 8)) {
                    Ok((c, q2)) => Ok((cs.push(c), q2)),
                    Err(e) => Err(e),
                }
            },
            Err(e) => Err(e),
        }
    }
}

/// The topology of a lower node: child mask, value mask, the values, then
/// the topology of each child leaf.
pub open spec fn spec_lower_topology(
    data: Seq<u8>,
    pos: int,
    origin: Coord,
    compression: CompressionFlags,
    save_float_as_half: bool,
) -> Result<(LowerInternalNodeView, int), Failure> {
    match spec_node_mask(data, pos, LOWER_NODE_SIZE) {
        Ok((child_mask, p1)) => match spec_node_mask(data, p1, LOWER_NODE_SIZE) {
            Ok((value_mask, p2)) => match spec_internal_values(
                data,
                p2,
                LOWER_NODE_SIZE as int,
                child_mask,
                compression,
                save_float_as_half,
            ) {
                Ok((values, p3)) => match spec_lower_children(
                    data,
                    p3,
                    origin,
                    child_mask,
                    LOWER_NODE_SIZE as int,
                ) {
                    Ok((children, p4)) => Ok(
                        (
                            LowerInternalNodeView {
                                origin,
                                child_mask,
                                value_mask,
                                values,
                                children,
                            },
                            p4,
                        ),
                    ),
                    Err(e) => Err(e),
                },
                Err(e) => Err(e),
            },
            Err(e) => Err(e),
        },
        Err(e) => Err(e),
    }
}

proof fn lemma_lower_children_err(
    data: Seq<u8>,
    pos: int,
    origin: Coord,
    child_mask: NodeMaskView,
    n: int,
    m: int,
)
    requires
        n <= m,
        spec_lower_children(data, pos, origin, child_mask, n) is Err,
    ensures
        spec_lower_children(data, pos, origin, child_mask, m) == spec_lower_children(
            data,
            pos,
            origin,
            child_mask,
            n,
        ),
    decreases m - n,
{
    if n < m {
        lemma_lower_children_err(data, pos, origin, child_mask, n, m - 1);
    }
}

pub(crate) proof fn lemma_lower_children_len(
    data: Seq<u8>,
    pos: int,
    origin: Coord,
    child_mask: NodeMaskView,
    n: int,
)
    ensures
        spec_lower_children(data, pos, origin, child_mask, n) matches Ok((cs, _)) ==> cs.len()
            == child_mask.count_set(n),
    decreases n,
{
    if n > 0 {
        lemma_lower_children_len(data, pos, origin, child_mask, n - 1);
    }
}

/// The leaves of a lower node, one for each set slot of its child mask.
fn read_lower_children(reader: &mut ByteReader, origin: Coord, child_mask: &NodeMask) -> (r: Result<
    Vec<LeafNode>,
    HeliumError,
>)
    requires
        child_mask@.wf(),
        child_mask.bit_count == LOWER_NODE_SIZE,
    ensures
        final(reader).bytes == old(reader).bytes,
        match spec_lower_children(
            old(reader).data(),
            old(reader).pos as int,
            origin,
            child_mask@,
            LOWER_NODE_SIZE as int,
        ) {
            Ok((cs, q)) => r matches Ok(v) && leaves_view(v@) == cs && final(reader).pos == q,
            Err((e, q)) => r matches Err(x) && x@ == e && final(reader).pos == q,
        },
{
        let ghost d = reader.data();
        let ghost p3 = reader.pos as int;
        let mut children: Vec<LeafNode> = Vec::new();
        assert(leaves_view(children@) =~= Seq::empty());
        let mut slot: usize = 0;
        while slot < LOWER_NODE_SIZE
            invariant
                0 <= slot <= LOWER_NODE_SIZE,
                reader.bytes == old(reader).bytes,
                d == reader.data(),
                d == old(reader).data(),
                p3 == old(reader).pos,
                child_mask@.wf(),
                child_mask.bit_count == LOWER_NODE_SIZE,
                spec_lower_children(d, p3, origin, child_mask@, slot as int) == Ok::<
                    (Seq<LeafNodeView>, int),
                    Failure,
                >((leaves_view(children@), reader.pos as int)),
            decreases LOWER_NODE_SIZE - slot,
        {
            if child_mask.is_on(slot) {
                proof {
                    lemma2_to64();
                }
                let local = offset_to_local(slot, LOWER_NODE_LOG2_DIM);
                if !local_origin_fits(origin, local, 8) {
                    proof {
                        lemma_lower_children_err(d, p3, origin, child_mask@, slot + 1, LOWER_NODE_SIZE as int);
                    }
                    return Err(HeliumError::ChildOriginOverflow { origin, slot });
                }
                let child_origin = lower_child_origin(origin, slot);
                let child = match LeafNode::read_topology(reader, child_origin) {
                    Ok(c) => c,
                    Err(e) => {
                        proof {
                            lemma_lower_children_err(d, p3, origin, child_mask@, slot + 1, LOWER_NODE_SIZE as int);
                        }
                        return Err(e);
                    },
                };
                let ghost before = children@;
                children.push(child);
                assert(leaves_view(children@) =~= leaves_view(before).push(child@));
            }
            slot = slot + 1;
        }
        Ok(children)
}

/// Reading the buffers of the first `n` leaves, in order, stopping at the
/// first failure: the leaves afterwards (those read filled in), the
/// position, and the failure if there was one.
pub open spec fn spec_leaves_buffers(
    data: Seq<u8>,
    pos: int,
    leaves: Seq<LeafNodeView>,
    compression: CompressionFlags,
    save_float_as_half: bool,
    n: int,
) -> (Seq<LeafNodeView>, int, Option<Failure>)
    decreases n,
{
    if n <= 0 {
        (leaves, pos, None)
    } else {
        let prev = spec_leaves_buffers(data, pos, leaves, compression, save_float_as_half, n - 1);
        if prev.2 is Some {
            prev
        } else {
            match spec_leaf_buffer(data, prev.1, compression, save_float_as_half) {
                Ok((vs, q)) => (
                    prev.0.update(n - 1, LeafNodeView { values: vs, ..prev.0[n - 1] }),
                    q,
                    None,
                ),
                Err(e) => (prev.0, prev.1, Some(e)),
            }
        }
    }
}

/// Reading the buffers of all the leaves of a lower node.
pub open spec fn spec_lower_buffers(
    data: Seq<u8>,
    pos: int,
    node: LowerInternalNodeView,
    compression: CompressionFlags,
    save_float_as_half: bool,
) -> (LowerInternalNodeView, int, Option<Failure>) {
    let r = spec_leaves_buffers(
        data,
        pos,
        node.children,
        compression,
        save_float_as_half,
        node.children.len() as int,
    );
    (LowerInternalNodeView { children: r.0, ..node }, r.1, r.2)
}

proof fn lemma_leaves_buffers_stop(
    data: Seq<u8>,
    pos: int,
    leaves: Seq<LeafNodeView>,
    compression: CompressionFlags,
    save_float_as_half: bool,
    n: int,
    m: int,
)
    requires
        n <= m,
        spec_leaves_buffers(data, pos, leaves, compression, save_float_as_half, n).2 is Some,
    ensures
        spec_leaves_buffers(data, pos, leaves, compression, save_float_as_half, m)
            == spec_leaves_buffers(data, pos, leaves, compression, save_float_as_half, n),
    decreases m - n,
{
    if n < m {
        lemma_leaves_buffers_stop(data, pos, leaves, compression, save_float_as_half, n, m - 1);
    }
}

impl LowerInternalNode {
    /// Reads the topology of a lower node at `origin`: its masks, its
    /// values and the topology of its leaves. It has exactly one entry per
    /// slot: a leaf for each set slot of the child mask, else a value.
    pub fn read_topology(
        reader: &mut ByteReader,
        origin: Coord,
        _background: F32Bits,
        compression: CompressionFlags,
        save_float_as_half: bool,
    ) -> (r: Result<Self, HeliumError>)
        ensures
            final(reader).bytes == old(reader).bytes,
            outcome(
                r,
                spec_lower_topology(
                    old(reader).data(),
                    old(reader).pos as int,
                    origin,
                    compression,
                    save_float_as_half,
                ),
                final(reader).pos,
            ),
            r matches Ok(node) ==> node.values@.len() + node.children@.len() == LOWER_NODE_SIZE,
    {
        let child_mask = match NodeMask::read(reader, LOWER_NODE_SIZE) {
            Ok(m) => m,
            Err(e) => return Err(e),
        };
        let value_mask = match NodeMask::read(reader, LOWER_NODE_SIZE) {
            Ok(m) => m,
            Err(e) => return Err(e),
        };
        proof {
            crate::tree::node_mask::lemma_count_on_bound(child_mask@);
        }
        let values = match read_internal_values(
            reader,
            LOWER_NODE_SIZE,
            &child_mask,
            compression,
            save_float_as_half,
        ) {
            Ok(v) => v,
            Err(e) => return Err(e),
        };
        let ghost p3 = reader.pos as int;
        let children = match read_lower_children(reader, origin, &child_mask) {
            Ok(c) => c,
            Err(e) => return Err(e),
        };
        proof {
            lemma_lower_children_len(old(reader).data(), p3, origin, child_mask@, LOWER_NODE_SIZE as int);
            lemma_count_on_counts_slots(child_mask@, 64);
            assert(child_mask@.words.len() == 64);
            assert(child_mask@.count_on() == child_mask@.count_set(4096));
            assert(values@.len() == LOWER_NODE_SIZE - child_mask@.count_on());
            assert(leaves_view(children@).len() == children@.len());
        }
        Ok(Self { origin, child_mask, value_mask, values, children })
    }

    /// Reads the values of the leaves, in order, stopping at the first
    /// failure; only leaf values change.
    pub fn read_buffers(
        &mut self,
        reader: &mut ByteReader,
        compression: CompressionFlags,
        save_float_as_half: bool,
    ) -> (r: Result<(), HeliumError>)
        ensures
            final(reader).bytes == old(reader).bytes,
            fill_outcome(
                r,
                final(self)@,
                final(reader).pos,
                spec_lower_buffers(
                    old(reader).data(),
                    old(reader).pos as int,
                    old(self)@,
                    compression,
                    save_float_as_half,
                ),
            ),
    {
        let ghost d = reader.data();
        let ghost p = reader.pos as int;
        let ghost leaves = leaves_view(self.children@);
        let n = self.children.len();
        let mut i: usize = 0;
        while i < n
            invariant
                0 <= i <= n,
                n == self.children@.len(),
                reader.bytes == old(reader).bytes,
                d == reader.data(),
                d == old(reader).data(),
                p == old(reader).pos,
                leaves == leaves_view(old(self).children@),
                leaves.len() == n,
                self.origin == old(self).origin,
                self.child_mask == old(self).child_mask,
                self.value_mask == old(self).value_mask,
                self.values == old(self).values,
                spec_leaves_buffers(d, p, leaves, compression, save_float_as_half, i as int) == (
                    leaves_view(self.children@),
                    reader.pos as int,
                    None::<Failure>,
                ),
            decreases n - i,
        {
            let ghost before = self.children@;
            let res = self.children[i].read_buffer(reader, compression, save_float_as_half);
            match res {
                Ok(_) => {
                    assert(leaves_view(self.children@) =~= leaves_view(before).update(
                        i as int,
                        self.children@[i as int]@,
                    ));
                },
                Err(e) => {
                    assert(leaves_view(self.children@) =~= leaves_view(before));
                    proof {
                        lemma_leaves_buffers_stop(d, p, leaves, compression, save_float_as_half, i + 1, n as int);
                    }
                    return Err(e);
                },
            }
            i = i + 1;
        }
        Ok(())
    }
}


/// Two lower nodes have the same topology: they differ at most in the
/// values of their leaves.
pub open spec fn same_lower_topology(a: LowerInternalNodeView, b: LowerInternalNodeView) -> bool {
    &&& a.origin == b.origin
    &&& a.child_mask == b.child_mask
    &&& a.value_mask == b.value_mask
    &&& a.values == b.values
    &&& a.children.len() == b.children.len()
    &&& forall|i: int|
        0 <= i < a.children.len() ==> same_leaf_topology(#[trigger] a.children[i], b.children[i])
}

/// Every leaf of a lower node holds its values.
pub open spec fn lower_filled(a: LowerInternalNodeView) -> bool {
    forall|i: int| 0 <= i < a.children.len() ==> leaf_filled(#[trigger] a.children[i])
}

proof fn lemma_leaves_buffers_shape(
    data: Seq<u8>,
    pos: int,
    leaves: Seq<LeafNodeView>,
    compression: CompressionFlags,
    save_float_as_half: bool,
    n: int,
)
    requires
        0 <= n <= leaves.len(),
    ensures
        ({
            let r = spec_leaves_buffers(data, pos, leaves, compression, save_float_as_half, n);
            &&& r.0.len() == leaves.len()
            &&& forall|i: int|
                0 <= i < leaves.len() ==> same_leaf_topology(#[trigger] r.0[i], leaves[i])
            &&& r.2 is None ==> forall|i: int| 0 <= i < n ==> leaf_filled(#[trigger] r.0[i])
        }),
    decreases n,
{
    if n > 0 {
        lemma_leaves_buffers_shape(data, pos, leaves, compression, save_float_as_half, n - 1);
    }
}

/// Reading the buffers of a lower node changes only the values of its
/// leaves; when it succeeds, every leaf holds its values.
pub proof fn lemma_lower_buffers_shape(
    data: Seq<u8>,
    pos: int,
    node: LowerInternalNodeView,
    compression: CompressionFlags,
    save_float_as_half: bool,
)
    ensures
        ({
            let r = spec_lower_buffers(data, pos, node, compression, save_float_as_half);
            &&& same_lower_topology(r.0, node)
            &&& r.2 is None ==> lower_filled(r.0)
        }),
{
    lemma_leaves_buffers_shape(
        data,
        pos,
        node.children,
        compression,
        save_float_as_half,
        node.children.len() as int,
    );
}

// ---------------------------------------------------------------------------
// Upper internal nodes: 32x32x32 slots, each a lower node or a value.
// ---------------------------------------------------------------------------
/// An upper internal node.
#[derive(Debug)]
pub struct UpperInternalNode {
    pub origin: Coord,
    pub child_mask: NodeMask,
    pub value_mask: NodeMask,
    pub values: Vec<F32Bits>,
    pub children: Vec<LowerInternalNode>,
}

/// The mathematical value of a [`UpperInternalNode`].
pub struct UpperInternalNodeView {
    pub origin: Coord,
    pub child_mask: NodeMaskView,
    pub value_mask: NodeMaskView,
    pub values: Seq<F32Bits>,
    pub children: Seq<LowerInternalNodeView>,
}

pub open spec fn lowers_view(children: Seq<LowerInternalNode>) -> Seq<LowerInternalNodeView> {
    children.map_values(|c: LowerInternalNode| c@)
}

impl View for UpperInternalNode {
    type V = UpperInternalNodeView;

    open spec fn view(&self) -> UpperInternalNodeView {
        UpperInternalNodeView {
            origin: self.origin,
            child_mask: self.child_mask@,
            value_mask: self.value_mask@,
            values: self.values@,
            children: lowers_view(self.children@),
        }
    }
}

/// The lower nodes of an upper node at `origin` for the set slots among `0..n`,
/// in slot order.
pub open spec fn spec_upper_children(
    data: Seq<u8>,
    pos: int,
    origin: Coord,
    child_mask: NodeMaskView,
    compression: CompressionFlags,
    save_float_as_half: bool,
    n: int,
) -> Result<(Seq<LowerInternalNodeView>, int), Failure>
    decreases n,
{
    if n <= 0 {
        Ok((Seq::empty(), pos))
    } else {
        match spec_upper_children(data, pos, origin, child_mask, compression, save_float_as_half, n - 1) {
            Ok((cs, q)) => if !child_mask.is_on(n - 1) {
                Ok((cs, q))
            } else if !child_origin_fits(origin, n - 1, 32, 128) {
                Err((ErrorView::ChildOriginOverflow { origin, slot: (n - 1) as usize }, q))
            } else {
                match spec_lower_topology(
                    data,
                    q,
                    child_origin(origin, n - 1, 32, 128),
                    compression,
                    save_float_as_half,
                ) {
                    Ok((c, q2)) => Ok((cs.push(c), q2)),
                    Err(e) => Err(e),
                }
            },
            Err(e) => Err(e),
        }
    }
}

/// The topology of an upper node: child mask, value mask, the values, then
/// the topology of each of its lower-node children.
pub open spec fn spec_upper_topology(
    data: Seq<u8>,
    pos: int,
    origin: Coord,
    compression: CompressionFlags,
    save_float_as_half: bool,
) -> Result<(UpperInternalNodeView, int), Failure> {
    match spec_node_mask(data, pos, UPPER_NODE_SIZE) {
        Ok((child_mask, p1)) => match spec_node_mask(data, p1, UPPER_NODE_SIZE) {
            Ok((value_mask, p2)) => match spec_internal_values(
                data,
                p2,
                UPPER_NODE_SIZE as int,
                child_mask,
                compression,
                save_float_as_half,
            ) {
                Ok((values, p3)) => match spec_upper_children(
                    data,
                    p3,
                    origin,
                    child_mask,
                    compression,
                    save_float_as_half,
                    UPPER_NODE_SIZE as int,
                ) {
                    Ok((children, p4)) => Ok(
                        (
                            UpperInternalNodeView {
                                origin,
                                child_mask,
                                value_mask,
                                values,
                                children,
                            },
                            p4,
                        ),
                    ),
                    Err(e) => Err(e),
                },
                Err(e) => Err(e),
            },
            Err(e) => Err(e),
        },
        Err(e) => Err(e),
    }
}

proof fn lemma_upper_children_err(
    data: Seq<u8>,
    pos: int,
    origin: Coord,
    child_mask: NodeMaskView,
    compression: CompressionFlags,
    save_float_as_half: bool,
    n: int,
    m: int,
)
    requires
        n <= m,
        spec_upper_children(data, pos, origin, child_mask, compression, save_float_as_half, n) is Err,
    ensures
        spec_upper_children(data, pos, origin, child_mask, compression, save_float_as_half, m) == spec_upper_children(
            data,
            pos,
            origin,
            child_mask,
            compression,
            save_float_as_half,
            n,
        ),
    decreases m - n,
{
    if n < m {
        lemma_upper_children_err(data, pos, origin, child_mask, compression, save_float_as_half, n, m - 1);
    }
}

pub(crate) proof fn lemma_upper_children_len(
    data: Seq<u8>,
    pos: int,
    origin: Coord,
    child_mask: NodeMaskView,
    compression: CompressionFlags,
    save_float_as_half: bool,
    n: int,
)
    ensures
        spec_upper_children(data, pos, origin, child_mask, compression, save_float_as_half, n) matches Ok((cs, _)) ==> cs.len()
            == child_mask.count_set(n),
    decreases n,
{
    if n > 0 {
        lemma_upper_children_len(data, pos, origin, child_mask, compression, save_float_as_half, n - 1);
    }
}

/// The lower nodes of an upper node, one for each set slot of its child mask.
fn read_upper_children(
    reader: &mut ByteReader,
    origin: Coord,
    child_mask: &NodeMask,
    background: F32Bits,
    compression: CompressionFlags,
    save_float_as_half: bool,
) -> (r: Result<
    Vec<LowerInternalNode>,
    HeliumError,
>)
    requires
        child_mask@.wf(),
        child_mask.bit_count == UPPER_NODE_SIZE,
    ensures
        final(reader).bytes == old(reader).bytes,
        match spec_upper_children(
            old(reader).data(),
            old(reader).pos as int,
            origin,
            child_mask@,
            compression,
            save_float_as_half,
            UPPER_NODE_SIZE as int,
        ) {
            Ok((cs, q)) => r matches Ok(v) && lowers_view(v@) == cs && final(reader).pos == q,
            Err((e, q)) => r matches Err(x) && x@ == e && final(reader).pos == q,
        },
{
        let ghost d = reader.data();
        let ghost p3 = reader.pos as int;
        let mut children: Vec<LowerInternalNode> = Vec::new();
        assert(lowers_view(children@) =~= Seq::empty());
        let mut slot: usize = 0;
        while slot < UPPER_NODE_SIZE
            invariant
                0 <= slot <= UPPER_NODE_SIZE,
                reader.bytes == old(reader).bytes,
                d == reader.data(),
                d == old(reader).data(),
                p3 == old(reader).pos,
                child_mask@.wf(),
                child_mask.bit_count == UPPER_NODE_SIZE,
                spec_upper_children(d, p3, origin, child_mask@, compression, save_float_as_half, slot as int) == Ok::<
                    (Seq<LowerInternalNodeView>, int),
                    Failure,
                >((lowers_view(children@), reader.pos as int)),
            decreases UPPER_NODE_SIZE - slot,
        {
            if child_mask.is_on(slot) {
                proof {
                    lemma2_to64();
                }
                let local = offset_to_local(slot, UPPER_NODE_LOG2_DIM);
                if !local_origin_fits(origin, local, 128) {
                    proof {
                        lemma_upper_children_err(d, p3, origin, child_mask@, compression, save_float_as_half, slot + 1, UPPER_NODE_SIZE as int);
                    }
                    return Err(HeliumError::ChildOriginOverflow { origin, slot });
                }
                let child_origin = upper_child_origin(origin, slot);
                let child = match LowerInternalNode::read_topology(
                    reader,
                    child_origin,
                    background,
                    compression,
                    save_float_as_half,
                ) {
                    Ok(c) => c,
                    Err(e) => {
                        proof {
                            lemma_upper_children_err(d, p3, origin, child_mask@, compression, save_float_as_half, slot + 1, UPPER_NODE_SIZE as int);
                        }
                        return Err(e);
                    },
                };
                let ghost before = children@;
                children.push(child);
                assert(lowers_view(children@) =~= lowers_view(before).push(child@));
            }
            slot = slot + 1;
        }
        Ok(children)
}

/// Reading the buffers of the first `n` lower nodes, in order, stopping at
/// the first failure: the nodes afterwards, the position, and the failure if
/// there was one. A node that fails keeps the leaves read before the
/// failure.
pub open spec fn spec_lowers_buffers(
    data: Seq<u8>,
    pos: int,
    lowers: Seq<LowerInternalNodeView>,
    compression: CompressionFlags,
    save_float_as_half: bool,
    n: int,
) -> (Seq<LowerInternalNodeView>, int, Option<Failure>)
    decreases n,
{
    if n <= 0 {
        (lowers, pos, None)
    } else {
        let prev = spec_lowers_buffers(data, pos, lowers, compression, save_float_as_half, n - 1);
        if prev.2 is Some {
            prev
        } else {
            let r = spec_lower_buffers(data, prev.1, prev.0[n - 1], compression, save_float_as_half);
            (prev.0.update(n - 1, r.0), r.1, r.2)
        }
    }
}

/// Reading the buffers of all the leaves under an upper node.
pub open spec fn spec_upper_buffers(
    data: Seq<u8>,
    pos: int,
    node: UpperInternalNodeView,
    compression: CompressionFlags,
    save_float_as_half: bool,
) -> (UpperInternalNodeView, int, Option<Failure>) {
    let r = spec_lowers_buffers(
        data,
        pos,
        node.children,
        compression,
        save_float_as_half,
        node.children.len() as int,
    );
    (UpperInternalNodeView { children: r.0, ..node }, r.1, r.2)
}

proof fn lemma_lowers_buffers_stop(
    data: Seq<u8>,
    pos: int,
    lowers: Seq<LowerInternalNodeView>,
    compression: CompressionFlags,
    save_float_as_half: bool,
    n: int,
    m: int,
)
    requires
        n <= m,
        spec_lowers_buffers(data, pos, lowers, compression, save_float_as_half, n).2 is Some,
    ensures
        spec_lowers_buffers(data, pos, lowers, compression, save_float_as_half, m)
            == spec_lowers_buffers(data, pos, lowers, compression, save_float_as_half, n),
    decreases m - n,
{
    if n < m {
        lemma_lowers_buffers_stop(data, pos, lowers, compression, save_float_as_half, n, m - 1);
    }
}

impl UpperInternalNode {
    /// Reads the topology of an upper node at `origin`: its masks, its
    /// values and the topology of its lower nodes. It has exactly one entry
    /// per slot: a lower node for each set slot of the child mask, else a
    /// value.
    pub fn read_topology(
        reader: &mut ByteReader,
        origin: Coord,
        background: F32Bits,
        compression: CompressionFlags,
        save_float_as_half: bool,
    ) -> (r: Result<Self, HeliumError>)
        ensures
            final(reader).bytes == old(reader).bytes,
            outcome(
                r,
                spec_upper_topology(
                    old(reader).data(),
                    old(reader).pos as int,
                    origin,
                    compression,
                    save_float_as_half,
                ),
                final(reader).pos,
            ),
            r matches Ok(node) ==> node.values@.len() + node.children@.len() == UPPER_NODE_SIZE,
    {
        let child_mask = match NodeMask::read(reader, UPPER_NODE_SIZE) {
            Ok(m) => m,
            Err(e) => return Err(e),
        };
        let value_mask = match NodeMask::read(reader, UPPER_NODE_SIZE) {
            Ok(m) => m,
            Err(e) => return Err(e),
        };
        proof {
            crate::tree::node_mask::lemma_count_on_bound(child_mask@);
        }
        let values = match read_internal_values(
            reader,
            UPPER_NODE_SIZE,
            &child_mask,
            compression,
            save_float_as_half,
        ) {
            Ok(v) => v,
            Err(e) => return Err(e),
        };
        let ghost p3 = reader.pos as int;
        let children = match read_upper_children(
            reader,
            origin,
            &child_mask,
            background,
            compression,
            save_float_as_half,
        ) {
            Ok(c) => c,
            Err(e) => return Err(e),
        };
        proof {
            lemma_upper_children_len(
                old(reader).data(),
                p3,
                origin,
                child_mask@,
                compression,
                save_float_as_half,
                UPPER_NODE_SIZE as int,
            );
            lemma_count_on_counts_slots(child_mask@, 512);
            assert(child_mask@.words.len() == 512);
            assert(child_mask@.count_on() == child_mask@.count_set(32768));
            assert(values@.len() == UPPER_NODE_SIZE - child_mask@.count_on());
            assert(lowers_view(children@).len() == children@.len());
        }
        Ok(Self { origin, child_mask, value_mask, values, children })
    }

    /// Reads the values of all the leaves below, in order, stopping at the
    /// first failure; only leaf values change.
    pub fn read_buffers(
        &mut self,
        reader: &mut ByteReader,
        compression: CompressionFlags,
        save_float_as_half: bool,
    ) -> (r: Result<(), HeliumError>)
        ensures
            final(reader).bytes == old(reader).bytes,
            fill_outcome(
                r,
                final(self)@,
                final(reader).pos,
                spec_upper_buffers(
                    old(reader).data(),
                    old(reader).pos as int,
                    old(self)@,
                    compression,
                    save_float_as_half,
                ),
            ),
    {
        let ghost d = reader.data();
        let ghost p = reader.pos as int;
        let ghost lowers = lowers_view(self.children@);
        let n = self.children.len();
        let mut i: usize = 0;
        while i < n
            invariant
                0 <= i <= n,
                n == self.children@.len(),
                reader.bytes == old(reader).bytes,
                d == reader.data(),
                d == old(reader).data(),
                p == old(reader).pos,
                lowers == lowers_view(old(self).children@),
                lowers.len() == n,
                self.origin == old(self).origin,
                self.child_mask == old(self).child_mask,
                self.value_mask == old(self).value_mask,
                self.values == old(self).values,
                spec_lowers_buffers(d, p, lowers, compression, save_float_as_half, i as int) == (
                    lowers_view(self.children@),
                    reader.pos as int,
                    None::<Failure>,
                ),
            decreases n - i,
        {
            let ghost before = self.children@;
            let res = self.children[i].read_buffers(reader, compression, save_float_as_half);
            assert(lowers_view(self.children@) =~= lowers_view(before).update(
                i as int,
                self.children@[i as int]@,
            ));
            match res {
                Ok(_) => {},
                Err(e) => {
                    proof {
                        lemma_lowers_buffers_stop(d, p, lowers, compression, save_float_as_half, i + 1, n as int);
                    }
                    return Err(e);
                },
            }
            i = i + 1;
        }
        Ok(())
    }
}



/// Two upper nodes have the same topology: they differ at most in the
/// values of the leaves below them.
pub open spec fn same_upper_topology(a: UpperInternalNodeView, b: UpperInternalNodeView) -> bool {
    &&& a.origin == b.origin
    &&& a.child_mask == b.child_mask
    &&& a.value_mask == b.value_mask
    &&& a.values == b.values
    &&& a.children.len() == b.children.len()
    &&& forall|i: int|
        0 <= i < a.children.len() ==> same_lower_topology(#[trigger] a.children[i], b.children[i])
}

/// Every leaf below an upper node holds its values.
pub open spec fn upper_filled(a: UpperInternalNodeView) -> bool {
    forall|i: int| 0 <= i < a.children.len() ==> lower_filled(#[trigger] a.children[i])
}

proof fn lemma_lowers_buffers_shape(
    data: Seq<u8>,
    pos: int,
    lowers: Seq<LowerInternalNodeView>,
    compression: CompressionFlags,
    save_float_as_half: bool,
    n: int,
)
    requires
        0 <= n <= lowers.len(),
    ensures
        ({
            let r = spec_lowers_buffers(data, pos, lowers, compression, save_float_as_half, n);
            &&& r.0.len() == lowers.len()
            &&& forall|i: int|
                0 <= i < lowers.len() ==> same_lower_topology(#[trigger] r.0[i], lowers[i])
            &&& r.2 is None ==> forall|i: int| 0 <= i < n ==> lower_filled(#[trigger] r.0[i])
        }),
    decreases n,
{
    if n > 0 {
        lemma_lowers_buffers_shape(data, pos, lowers, compression, save_float_as_half, n - 1);
        let prev = spec_lowers_buffers(data, pos, lowers, compression, save_float_as_half, n - 1);
        if prev.2 is None {
            lemma_lower_buffers_shape(data, prev.1, prev.0[n - 1], compression, save_float_as_half);
        }
    }
}

/// Reading the buffers of an upper node changes only the values of the
/// leaves below it; when it succeeds, every leaf holds its values.
pub proof fn lemma_upper_buffers_shape(
    data: Seq<u8>,
    pos: int,
    node: UpperInternalNodeView,
    compression: CompressionFlags,
    save_float_as_half: bool,
)
    ensures
        ({
            let r = spec_upper_buffers(data, pos, node, compression, save_float_as_half);
            &&& same_upper_topology(r.0, node)
            &&& r.2 is None ==> upper_filled(r.0)
        }),
{
    lemma_lowers_buffers_shape(
        data,
        pos,
        node.children,
        compression,
        save_float_as_half,
        node.children.len() as int,
    );
}

} // verus!
