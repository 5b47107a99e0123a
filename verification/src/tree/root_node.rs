use vstd::prelude::*;

use crate::reader::byte_reader::ByteReader;
use crate::reader::error::{Failure, fill_outcome, outcome, ErrorView, HeliumError};
use crate::reader::grid::CompressionFlags;
use crate::reader::helpers::{spec_bool, spec_f32, spec_u32, F32Bits, Helper};
use crate::tree::coord::{spec_coord, Coord};
use crate::tree::internal_node::{
    lemma_upper_buffers_shape, same_upper_topology, spec_upper_buffers, spec_upper_topology,
    upper_filled, UpperInternalNode, UpperInternalNodeView,
};

verus! {

/// The root of a tree: a background value, tiles of constant value, and
/// upper internal nodes.
#[derive(Debug)]
pub struct RootNode {
    pub background: F32Bits,
    pub tiles: Vec<RootTile>,
    pub children: Vec<RootChild>,
}

/// A region of the root with one value.
#[derive(Debug)]
pub struct RootTile {
    pub origin: Coord,
    pub value: F32Bits,
    pub active: bool,
}

/// An upper internal node under the root.
#[derive(Debug)]
pub struct RootChild {
    pub origin: Coord,
    pub node: UpperInternalNode,
}

/// The mathematical value of a [`RootChild`].
pub struct RootChildView {
    pub origin: Coord,
    pub node: UpperInternalNodeView,
}

/// The mathematical value of a [`RootNode`].
pub struct RootNodeView {
    pub background: F32Bits,
    pub tiles: Seq<RootTile>,
    pub children: Seq<RootChildView>,
}

impl View for RootChild {
    type V = RootChildView;

    open spec fn view(&self) -> RootChildView {
        RootChildView { origin: self.origin, node: self.node@ }
    }
}

pub open spec fn root_children_view(children: Seq<RootChild>) -> Seq<RootChildView> {
    children.map_values(|c: RootChild| c@)
}

impl View for RootNode {
    type V = RootNodeView;

    open spec fn view(&self) -> RootNodeView {
        RootNodeView {
            background: self.background,
            tiles: self.tiles@,
            children: root_children_view(self.children@),
        }
    }
}

/// A root tile: origin, value, then whether it is active.
pub open spec fn spec_root_tile(data: Seq<u8>, pos: int) -> Result<(RootTile, int), Failure> {
    match spec_coord(data, pos) {
        Ok((origin, p1)) => match spec_f32(data, p1) {
            Ok((value, p2)) => match spec_bool(data, p2, "root_tile_active"@) {
                Ok((active, p3)) => Ok((RootTile { origin, value, active }, p3)),
                Err(e) => Err(e),
            },
            Err(e) => Err(e),
        },
        Err(e) => Err(e),
    }
}

/// The first `n` tiles of a root.
pub open spec fn spec_root_tiles(data: Seq<u8>, pos: int, n: int) -> Result<
    (Seq<RootTile>, int),
    Failure,
>
    decreases n,
{
    if n <= 0 {
        Ok((Seq::empty(), pos))
    } else {
        match spec_root_tiles(data, pos, n - 1) {
            Ok((ts, q)) => match spec_root_tile(data, q) {
                Ok((t, q2)) => Ok((ts.push(t), q2)),
                Err(e) => Err(e),
            },
            Err(e) => Err(e),
        }
    }
}

/// The first `n` children of a root: each an origin and the topology of an
/// upper node there.
pub open spec fn spec_root_children(
    data: Seq<u8>,
    pos: int,
    compression: CompressionFlags,
    save_float_as_half: bool,
    n: int,
) -> Result<(Seq<RootChildView>, int), Failure>
    decreases n,
{
    if n <= 0 {
        Ok((Seq::empty(), pos))
    } else {
        match spec_root_children(data, pos, compression, save_float_as_half, n - 1) {
            Ok((cs, q)) => match spec_coord(data, q) {
                Ok((origin, q1)) => match spec_upper_topology(
                    data,
                    q1,
                    origin,
                    compression,
                    save_float_as_half,
                ) {
                    Ok((node, q2)) => Ok((cs.push(RootChildView { origin, node }), q2)),
                    Err(e) => Err(e),
                },
                Err(e) => Err(e),
            },
            Err(e) => Err(e),
        }
    }
}

/// The topology of a root: background, tile count, child count, the tiles,
/// then the children.
pub open spec fn spec_root_topology(
    data: Seq<u8>,
    pos: int,
    compression: CompressionFlags,
    save_float_as_half: bool,
) -> Result<(RootNodeView, int), Failure> {
    if save_float_as_half {
        Err((ErrorView::HalfFloatNotImplemented, pos))
    } else {
        match spec_f32(data, pos) {
            Ok((background, p1)) => match spec_u32(data, p1) {
                Ok((tile_count, p2)) => match spec_u32(data, p2) {
                    Ok((child_count, p3)) => match spec_root_tiles(data, p3, tile_count as int) {
                        Ok((tiles, p4)) => match spec_root_children(
                            data,
                            p4,
                            compression,
                            save_float_as_half,
                            child_count as int,
                        ) {
                            Ok((children, p5)) => Ok(
                                (RootNodeView { background, tiles, children }, p5),
                            ),
                            Err(e) => Err(e),
                        },
                        Err(e) => Err(e),
                    },
                    Err(e) => Err(e),
                },
                Err(e) => Err(e),
            },
            Err(e) => Err(e),
        }
    }
}

proof fn lemma_root_tiles_err(data: Seq<u8>, pos: int, n: int, m: int)
    requires
        n <= m,
        spec_root_tiles(data, pos, n) is Err,
    ensures
        spec_root_tiles(data, pos, m) == spec_root_tiles(data, pos, n),
    decreases m - n,
{
    if n < m {
        lemma_root_tiles_err(data, pos, n, m - 1);
    }
}

proof fn lemma_root_children_err(
    data: Seq<u8>,
    pos: int,
    compression: CompressionFlags,
    save_float_as_half: bool,
    n: int,
    m: int,
)
    requires
        n <= m,
        spec_root_children(data, pos, compression, save_float_as_half, n) is Err,
    ensures
        spec_root_children(data, pos, compression, save_float_as_half, m) == spec_root_children(
            data,
            pos,
            compression,
            save_float_as_half,
            n,
        ),
    decreases m - n,
{
    if n < m {
        lemma_root_children_err(data, pos, compression, save_float_as_half, n, m - 1);
    }
}

fn read_root_tiles(reader: &mut ByteReader, count: usize) -> (r: Result<Vec<RootTile>, HeliumError>)
    ensures
        final(reader).bytes == old(reader).bytes,
        match spec_root_tiles(old(reader).data(), old(reader).pos as int, count as int) {
            Ok((ts, q)) => r matches Ok(v) && v@ == ts && final(reader).pos == q,
            Err((e, q)) => r matches Err(x) && x@ == e && final(reader).pos == q,
        },
{
    let ghost d = reader.data();
    let ghost p = reader.pos as int;
    let mut tiles: Vec<RootTile> = Vec::new();
    let mut i: usize = 0;
    while i < count
        invariant
            0 <= i <= count,
            reader.bytes == old(reader).bytes,
            d == reader.data(),
            d == old(reader).data(),
            p == old(reader).pos,
            spec_root_tiles(d, p, i as int) == Ok::<(Seq<RootTile>, int), Failure>(
                (tiles@, reader.pos as int),
            ),
        decreases count - i,
    {
        let origin = match Coord::read(reader) {
            Ok(c) => c,
            Err(e) => {
                proof {
                    lemma_root_tiles_err(d, p, i + 1, count as int);
                }
                return Err(e);
            },
        };
        let value = match Helper::read_f32_le(reader) {
            Ok(v) => v,
            Err(e) => {
                proof {
                    lemma_root_tiles_err(d, p, i + 1, count as int);
                }
                return Err(e);
            },
        };
        let active = match Helper::read_bool(reader, "root_tile_active") {
            Ok(b) => b,
            Err(e) => {
                proof {
                    lemma_root_tiles_err(d, p, i + 1, count as int);
                }
                return Err(e);
            },
        };
        tiles.push(RootTile { origin, value, active });
        i = i + 1;
    }
    Ok(tiles)
}

fn read_root_children(
    reader: &mut ByteReader,
    count: usize,
    background: F32Bits,
    compression: CompressionFlags,
    save_float_as_half: bool,
) -> (r: Result<Vec<RootChild>, HeliumError>)
    ensures
        final(reader).bytes == old(reader).bytes,
        match spec_root_children(
            old(reader).data(),
            old(reader).pos as int,
            compression,
            save_float_as_half,
            count as int,
        ) {
            Ok((cs, q)) => r matches Ok(v) && root_children_view(v@) == cs && final(reader).pos
                == q,
            Err((e, q)) => r matches Err(x) && x@ == e && final(reader).pos == q,
        },
{
    let ghost d = reader.data();
    let ghost p = reader.pos as int;
    let mut children: Vec<RootChild> = Vec::new();
    assert(root_children_view(children@) =~= Seq::empty());
    let mut i: usize = 0;
    while i < count
        invariant
            0 <= i <= count,
            reader.bytes == old(reader).bytes,
            d == reader.data(),
            d == old(reader).data(),
            p == old(reader).pos,
            spec_root_children(d, p, compression, save_float_as_half, i as int) == Ok::<
                (Seq<RootChildView>, int),
                Failure,
            >((root_children_view(children@), reader.pos as int)),
        decreases count - i,
    {
        let origin = match Coord::read(reader) {
            Ok(c) => c,
            Err(e) => {
                proof {
                    lemma_root_children_err(d, p, compression, save_float_as_half, i + 1, count as int);
                }
                return Err(e);
            },
        };
        let node = match UpperInternalNode::read_topology(
            reader,
            origin,
            background,
            compression,
            save_float_as_half,
        ) {
            Ok(n) => n,
            Err(e) => {
                proof {
                    lemma_root_children_err(d, p, compression, save_float_as_half, i + 1, count as int);
                }
                return Err(e);
            },
        };
        let ghost before = children@;
        let child = RootChild { origin, node };
        children.push(child);
        assert(root_children_view(children@) =~= root_children_view(before).push(child@));
        i = i + 1;
    }
    Ok(children)
}

/// Reading the buffers below the first `n` children of a root, in order,
/// stopping at the first failure: the children afterwards, the position,
/// and the failure if there was one.
pub open spec fn spec_root_children_buffers(
    data: Seq<u8>,
    pos: int,
    children: Seq<RootChildView>,
    compression: CompressionFlags,
    save_float_as_half: bool,
    n: int,
) -> (Seq<RootChildView>, int, Option<Failure>)
    decreases n,
{
    if n <= 0 {
        (children, pos, None)
    } else {
        let prev = spec_root_children_buffers(
            data,
            pos,
            children,
            compression,
            save_float_as_half,
            n - 1,
        );
        if prev.2 is Some {
            prev
        } else {
            let r = spec_upper_buffers(data, prev.1, prev.0[n - 1].node, compression, save_float_as_half);
            (prev.0.update(n - 1, RootChildView { node: r.0, ..prev.0[n - 1] }), r.1, r.2)
        }
    }
}

/// Reading the buffers of all the leaves of a root.
pub open spec fn spec_root_buffers(
    data: Seq<u8>,
    pos: int,
    root: RootNodeView,
    compression: CompressionFlags,
    save_float_as_half: bool,
) -> (RootNodeView, int, Option<Failure>) {
    let r = spec_root_children_buffers(
        data,
        pos,
        root.children,
        compression,
        save_float_as_half,
        root.children.len() as int,
    );
    (RootNodeView { children: r.0, ..root }, r.1, r.2)
}

proof fn lemma_root_children_buffers_stop(
    data: Seq<u8>,
    pos: int,
    children: Seq<RootChildView>,
    compression: CompressionFlags,
    save_float_as_half: bool,
    n: int,
    m: int,
)
    requires
        n <= m,
        spec_root_children_buffers(data, pos, children, compression, save_float_as_half, n).2 is Some,
    ensures
        spec_root_children_buffers(data, pos, children, compression, save_float_as_half, m)
            == spec_root_children_buffers(data, pos, children, compression, save_float_as_half, n),
    decreases m - n,
{
    if n < m {
        lemma_root_children_buffers_stop(data, pos, children, compression, save_float_as_half, n, m - 1);
    }
}

/// Two roots have the same topology: they differ at most in the values of
/// their leaves.
pub open spec fn same_root_topology(a: RootNodeView, b: RootNodeView) -> bool {
    &&& a.background == b.background
    &&& a.tiles == b.tiles
    &&& a.children.len() == b.children.len()
    &&& forall|i: int|
        0 <= i < a.children.len() ==> (#[trigger] a.children[i]).origin == b.children[i].origin
            && same_upper_topology(a.children[i].node, b.children[i].node)
}

/// Every leaf of a root holds its values.
pub open spec fn root_filled(a: RootNodeView) -> bool {
    forall|i: int| 0 <= i < a.children.len() ==> upper_filled((#[trigger] a.children[i]).node)
}

proof fn lemma_root_children_buffers_shape(
    data: Seq<u8>,
    pos: int,
    children: Seq<RootChildView>,
    compression: CompressionFlags,
    save_float_as_half: bool,
    n: int,
)
    requires
        0 <= n <= children.len(),
    ensures
        ({
            let r = spec_root_children_buffers(data, pos, children, compression, save_float_as_half, n);
            &&& r.0.len() == children.len()
            &&& forall|i: int|
                0 <= i < children.len() ==> (#[trigger] r.0[i]).origin == children[i].origin
                    && same_upper_topology(r.0[i].node, children[i].node)
            &&& r.2 is None ==> forall|i: int| 0 <= i < n ==> upper_filled((#[trigger] r.0[i]).node)
        }),
    decreases n,
{
    if n > 0 {
        lemma_root_children_buffers_shape(data, pos, children, compression, save_float_as_half, n - 1);
        let prev = spec_root_children_buffers(
            data,
            pos,
            children,
            compression,
            save_float_as_half,
            n - 1,
        );
        if prev.2 is None {
            lemma_upper_buffers_shape(data, prev.1, prev.0[n - 1].node, compression, save_float_as_half);
        }
    }
}

/// Reading the buffers of a root changes only the values of its leaves;
/// when it succeeds, every leaf holds its values.
pub proof fn lemma_root_buffers_shape(
    data: Seq<u8>,
    pos: int,
    root: RootNodeView,
    compression: CompressionFlags,
    save_float_as_half: bool,
)
    ensures
        ({
            let r = spec_root_buffers(data, pos, root, compression, save_float_as_half);
            &&& same_root_topology(r.0, root)
            &&& r.2 is None ==> root_filled(r.0)
        }),
{
    lemma_root_children_buffers_shape(
        data,
        pos,
        root.children,
        compression,
        save_float_as_half,
        root.children.len() as int,
    );
}

impl RootNode {
    /// Reads the topology of a root: its background, its tiles and the
    /// topology of its children.
    pub fn read_topology(
        reader: &mut ByteReader,
        compression: CompressionFlags,
        save_float_as_half: bool,
    ) -> (r: Result<Self, HeliumError>)
        ensures
            final(reader).bytes == old(reader).bytes,
            outcome(
                r,
                spec_root_topology(
                    old(reader).data(),
                    old(reader).pos as int,
                    compression,
                    save_float_as_half,
                ),
                final(reader).pos,
            ),
    {
        if save_float_as_half {
            return Err(HeliumError::HalfFloatNotImplemented);
        }
        let background = match Helper::read_f32_le(reader) {
            Ok(v) => v,
            Err(e) => return Err(e),
        };
        let tile_count = match Helper::read_u32_le(reader) {
            Ok(v) => v as usize,
            Err(e) => return Err(e),
        };
        let child_count = match Helper::read_u32_le(reader) {
            Ok(v) => v as usize,
            Err(e) => return Err(e),
        };
        let tiles = match read_root_tiles(reader, tile_count) {
            Ok(t) => t,
            Err(e) => return Err(e),
        };
        let children = match read_root_children(
            reader,
            child_count,
            background,
            compression,
            save_float_as_half,
        ) {
            Ok(c) => c,
            Err(e) => return Err(e),
        };
        Ok(Self { background, tiles, children })
    }

    /// Reads the values of all the leaves, in order, stopping at the first
    /// failure; only leaf values change.
    pub fn read_buffers(
        &mut self,
        reader: &mut ByteReader,
        compression: CompressionFlags,
        save_float_as_half: bool,
    ) -> (r: Result<(), HeliumError>)
        ensures
            final(reader).bytes == old(reader).bytes,
            fill_outcome(
                r,
                final(self)@,
                final(reader).pos,
                spec_root_buffers(
                    old(reader).data(),
                    old(reader).pos as int,
                    old(self)@,
                    compression,
                    save_float_as_half,
                ),
            ),
    {
        let ghost d = reader.data();
        let ghost p = reader.pos as int;
        let ghost kids = root_children_view(self.children@);
        let n = self.children.len();
        let mut i: usize = 0;
        while i < n
            invariant
                0 <= i <= n,
                n == self.children@.len(),
                reader.bytes == old(reader).bytes,
                d == reader.data(),
                d == old(reader).data(),
                p == old(reader).pos,
                kids == root_children_view(old(self).children@),
                kids.len() == n,
                self.background == old(self).background,
                self.tiles == old(self).tiles,
                spec_root_children_buffers(d, p, kids, compression, save_float_as_half, i as int)
                    == (root_children_view(self.children@), reader.pos as int, None::<Failure>),
            decreases n - i,
        {
            let ghost before = self.children@;
            let res = self.children[i].node.read_buffers(reader, compression, save_float_as_half);
            assert(root_children_view(self.children@) =~= root_children_view(before).update(
                i as int,
                self.children@[i as int]@,
            ));
            match res {
                Ok(_) => {},
                Err(e) => {
                    proof {
                        lemma_root_children_buffers_stop(d, p, kids, compression, save_float_as_half, i + 1, n as int);
                    }
                    return Err(e);
                },
            }
            i = i + 1;
        }
        Ok(())
    }
}

} // verus!
