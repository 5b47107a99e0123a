use vstd::prelude::*;
use vstd::utf8::decode_utf8;

use crate::reader::error::{outcome, HeliumError};
use crate::reader::grid::{spec_grid, Grid, GridView};
use crate::reader::grids::{
    descriptors_view, spec_descriptor_list, spec_grid_count, spec_grid_descriptors, spec_grid_list,
    spec_grids, spec_next_descriptor, Grids,
};
use crate::reader::grids_reader::{spec_all_grids, Grids as AllGrids, GridsView as AllGridsView};
use crate::reader::reader::HeliumReaderView;
use crate::reader::header::{spec_header, Header, HeaderView};
use crate::reader::metadata::{
    metadata_outcome, metadata_view, spec_metadata, spec_metadata_entries, spec_metadata_entry,
    Metadata, MetadataView,
};
use crate::reader::grid_descriptor::{
    lemma_half_float_suffix_roundtrip, spec_grid_descriptor, GridDescriptor, GridDescriptorView,
};
use crate::reader::helpers::{
    le_u32, le_u64, spec_bool, spec_byte_range, spec_f32_array, spec_f32, spec_f64, spec_i16, spec_i32, spec_i64, spec_mat4d,
    spec_string, spec_u32, spec_u64, spec_u8, spec_vec3d, twos_complement, F32Bits, F64Bits,
};
use crate::reader::transform::{spec_transform, Transform, TransformView};
use crate::reader::vdb_constants::{
    MAX_GRID_COUNT, MAX_METADATA_COUNT, MAX_SUPPORTED_VERSION, MIN_SUPPORTED_VERSION, OPENVDB_MAGIC,
};

verus! {

// ---------------------------------------------------------------------------
// Where the values of a record lie: each is read straight from the bytes at
// a fixed offset.
// ---------------------------------------------------------------------------
/// The little-endian `u32` in the four bytes at `at`.
pub open spec fn u32_at(data: Seq<u8>, at: int) -> int {
    le_u32(data.subrange(at, at + 4))
}

/// The little-endian `i64` in the eight bytes at `at`.
pub open spec fn i64_at(data: Seq<u8>, at: int) -> int {
    twos_complement(le_u64(data.subrange(at, at + 8)), 64)
}

/// The 64-bit float whose little-endian bits are the eight bytes at `at`.
pub open spec fn f64_at(data: Seq<u8>, at: int) -> F64Bits {
    F64Bits(le_u64(data.subrange(at, at + 8)) as u64)
}

/// The 32-bit float whose little-endian bits are the four bytes at `at`.
pub open spec fn f32_at(data: Seq<u8>, at: int) -> F32Bits {
    F32Bits(le_u32(data.subrange(at, at + 4)) as u32)
}

/// The three 64-bit floats in the 24 bytes at `at`.
pub open spec fn vec3_at(data: Seq<u8>, at: int) -> Seq<F64Bits> {
    seq![f64_at(data, at), f64_at(data, at + 8), f64_at(data, at + 16)]
}

/// The 4x4 matrix of 64-bit floats in the 128 bytes at `at`, row by row.
pub open spec fn mat_at(data: Seq<u8>, at: int) -> Seq<Seq<F64Bits>> {
    Seq::new(4, |r: int| Seq::new(4, |c: int| f64_at(data, at + 32 * r + 8 * c)))
}

/// The text of the length-prefixed string at `at`: a `u32` byte count, then
/// that many bytes of UTF-8.
pub open spec fn text_at(data: Seq<u8>, at: int) -> Seq<char> {
    decode_utf8(data.subrange(at + 4, at + 4 + u32_at(data, at)))
}

/// The position just after the length-prefixed string at `at`.
pub open spec fn after_text(data: Seq<u8>, at: int) -> int {
    at + 4 + u32_at(data, at)
}

// ---------------------------------------------------------------------------
// The primitive readers, by offset.
// ---------------------------------------------------------------------------
/// A string that is read is the text at its position, and ends after it.
pub proof fn lemma_string_at(data: Seq<u8>, pos: int)
    ensures
        spec_string(data, pos) matches Ok((s, q)) ==> s == text_at(data, pos) && q == after_text(
            data,
            pos,
        ) && pos + 4 <= q <= data.len(),
{
    if let Ok((s, q)) = spec_string(data, pos) {
        let b = data.subrange(pos, pos + 4);
        assert(0 <= le_u32(b) <= 0xffff_ffff);
        assert(le_u32(b) as u32 as int == le_u32(b));
        let n = le_u32(b);
        if n == 0 {
            assert(data.subrange(pos + 4, pos + 4) =~= Seq::<u8>::empty());
        }
    }
}

/// Three floats that are read are the three at their position.
pub proof fn lemma_vec3_at(data: Seq<u8>, pos: int)
    ensures
        spec_vec3d(data, pos) matches Ok((v, q)) ==> v == vec3_at(data, pos) && q == pos + 24,
{
    if let Ok((v, q)) = spec_vec3d(data, pos) {
        assert(v =~= vec3_at(data, pos));
    }
}

/// A matrix that is read is the one at its position.
pub proof fn lemma_mat_at(data: Seq<u8>, pos: int)
    ensures
        spec_mat4d(data, pos) matches Ok((m, q)) ==> m == mat_at(data, pos) && q == pos + 128,
{
    if let Ok((m, q)) = spec_mat4d(data, pos) {
        assert forall|r: int| 0 <= r < 4 implies #[trigger] m[r] == mat_at(data, pos)[r] by {
            assert(m[r] =~= mat_at(data, pos)[r]);
        }
        assert(m =~= mat_at(data, pos));
    }
}

// ---------------------------------------------------------------------------
// Transforms.
// ---------------------------------------------------------------------------
/// A transform record at `pos` that ends at `end`: the name of its map type
/// (a length-prefixed string) picks the variant, and each vector or matrix
/// of the variant is the one at its fixed offset after the name, in the
/// order of the fields: translation, scale, voxel size, inverse scale,
/// inverse scale squared, inverse twice scale (those the variant has).
pub open spec fn transform_at(data: Seq<u8>, pos: int, t: TransformView, end: int) -> bool {
    let name = text_at(data, pos);
    let b = after_text(data, pos);
    match t {
        TransformView::Affine { matrix } => {
            &&& name == "AffineMap"@
            &&& matrix == mat_at(data, b)
            &&& end == b + 128
        },
        TransformView::Unitary { matrix } => {
            &&& name == "UnitaryMap"@
            &&& matrix == mat_at(data, b)
            &&& end == b + 128
        },
        TransformView::Scale {
            map_type,
            scale,
            voxel_size,
            inverse_scale,
            inverse_scale_squared,
            inverse_twice_scale,
        } => {
            &&& map_type == name
            &&& name == "ScaleMap"@ || name == "UniformScaleMap"@
            &&& scale == vec3_at(data, b)
            &&& voxel_size == vec3_at(data, b + 24)
            &&& inverse_scale == vec3_at(data, b + 48)
            &&& inverse_scale_squared == vec3_at(data, b + 72)
            &&& inverse_twice_scale == vec3_at(data, b + 96)
            &&& end == b + 120
        },
        TransformView::Translation { translation } => {
            &&& name == "TranslationMap"@
            &&& translation == vec3_at(data, b)
            &&& end == b + 24
        },
        TransformView::ScaleTranslate {
            map_type,
            translation,
            scale,
            voxel_size,
            inverse_scale,
            inverse_scale_squared,
            inverse_twice_scale,
        } => {
            &&& map_type == name
            &&& name == "ScaleTranslateMap"@ || name == "UniformScaleTranslateMap"@
            &&& translation == vec3_at(data, b)
            &&& scale == vec3_at(data, b + 24)
            &&& voxel_size == vec3_at(data, b + 48)
            &&& inverse_scale == vec3_at(data, b + 72)
            &&& inverse_scale_squared == vec3_at(data, b + 96)
            &&& inverse_twice_scale == vec3_at(data, b + 120)
            &&& end == b + 144
        },
    }
}

/// What [`Transform::read`] gives is the transform laid out at the read
/// position: its variant is the one its map name names, and each of its
/// vectors or its matrix holds the floats at that field's offset after the
/// name; the reader ends just after the last of them.
pub proof fn lemma_transform_layout(
    data: Seq<u8>,
    pos: int,
    r: Result<Transform, HeliumError>,
    end: u64,
)
    requires
        outcome(r, spec_transform(data, pos), end),
    ensures
        r matches Ok(t) ==> transform_at(data, pos, t@, end as int),
{
    lemma_transform_at(data, pos);
}

proof fn lemma_transform_at(data: Seq<u8>, pos: int)
    ensures
        spec_transform(data, pos) matches Ok((t, q)) ==> transform_at(data, pos, t, q),
{
    lemma_string_at(data, pos);
    if let Ok((map_type, p1)) = spec_string(data, pos) {
        lemma_mat_at(data, p1);
        lemma_vec3_at(data, p1);
        lemma_vec3_at(data, p1 + 24);
        lemma_vec3_at(data, p1 + 48);
        lemma_vec3_at(data, p1 + 72);
        lemma_vec3_at(data, p1 + 96);
        lemma_vec3_at(data, p1 + 120);
    }
}

// ---------------------------------------------------------------------------
// Grids.
// ---------------------------------------------------------------------------
/// A grid described by `desc`, laid out in `data`, after whose reading the
/// reader is at `end`: see [`lemma_grid_layout`].
#[verifier::opaque]
pub open spec fn grid_at(data: Seq<u8>, desc: GridDescriptorView, g: GridView, end: int) -> bool {
        &&& g.descriptor == desc
        &&& g.compression.raw as int == u32_at(data, desc.grid_position as int)
        &&& g.compression.raw < 8
        &&& g.compression.zip == (g.compression.raw & 1u32 != 0)
        &&& g.compression.active_mask == (g.compression.raw & 2u32 != 0)
        &&& g.compression.blosc == (g.compression.raw & 4u32 != 0)
        &&& g.metadata.len() == u32_at(data, desc.grid_position + 4)
        &&& exists|ps: Seq<int>|
            #![trigger ps[0]]
            {
            let n = g.metadata.len() as int;
            let transform_end = if desc.instance_parent_name.len() != 0 {
                end
            } else {
                desc.block_position - g.raw_topology.len()
            };
            &&& ps.len() == n + 1
            &&& ps[0] == desc.grid_position + 8
            &&& forall|i: int|
                0 <= i < n ==> metadata_entry_at(data, ps[i], #[trigger] g.metadata[i], ps[i + 1])
            &&& transform_at(data, ps[n], g.transform, transform_end)
        }
        &&& desc.instance_parent_name.len() != 0 ==> g.raw_topology.len() == 0
            && g.raw_buffers.len() == 0
        &&& desc.instance_parent_name.len() == 0 ==> {
            &&& 0 <= desc.block_position - g.raw_topology.len()
            &&& g.raw_topology == data.subrange(
                desc.block_position - g.raw_topology.len(),
                desc.block_position as int,
            )
            &&& g.raw_buffers == data.subrange(
                desc.block_position as int,
                desc.end_position as int,
            )
            &&& end == desc.end_position
        }
}

/// What [`Grid::read`] gives for a grid described by `desc`: the grid
/// carries `desc`; its compression flags are the `u32` at the grid
/// position, which has no bit above the three known ones, with `zip` its
/// bit 0, `active_mask` its bit 1 and `blosc` its bit 2. Its metadata
/// follows (as many entries as the `u32` count says, one after the other)
/// and its transform follows the last entry. An instance of another grid
/// holds no bytes of its own and the reader ends after its transform; any
/// other grid holds the bytes from the end of its transform to the block
/// position as its topology and the bytes from the block position to the
/// end position as its buffers, and the reader ends at the end position.
pub proof fn lemma_grid_layout(
    data: Seq<u8>,
    pos: int,
    desc: GridDescriptorView,
    grid_index: usize,
    file_length: u64,
    r: Result<Grid, HeliumError>,
    end: u64,
)
    requires
        outcome(r, spec_grid(data, pos, desc, grid_index, file_length), end),
    ensures
        r matches Ok(g) ==> grid_at(data, desc, g@, end as int),
{
    lemma_grid_at(data, pos, desc, grid_index, file_length);
}

proof fn lemma_grid_at(
    data: Seq<u8>,
    pos: int,
    desc: GridDescriptorView,
    grid_index: usize,
    file_length: u64,
)
    ensures
        spec_grid(data, pos, desc, grid_index, file_length) matches Ok((g, q)) ==> grid_at(
            data,
            desc,
            g,
            q,
        ),
{
    reveal(grid_at);
    if let Ok((gv, q)) = spec_grid(data, pos, desc, grid_index, file_length) {
        let gp = desc.grid_position as int;
        let mb = data.subrange(gp + 4, gp + 8);
        assert(0 <= le_u32(mb) <= 0xffff_ffff);
        let n = u32_at(data, gp + 4);
        let ps = lemma_metadata_entries_at(data, gp + 8, n);
        lemma_transform_at(data, ps[n]);
        let s = data.subrange(gp, gp + 4);
        assert(0 <= le_u32(s) <= 0xffff_ffff);
        let raw = gv.compression.raw;
        assert(raw as int == le_u32(s));
        assert(raw & !0x7u32 == 0);
        assert((raw & !0x7u32 == 0) ==> raw < 8) by (bit_vector);
        if desc.instance_parent_name.len() == 0 {
            let block = desc.block_position as int;
            let e = desc.end_position as int;
            if gv.raw_topology.len() == 0 {
                assert(data.subrange(block, block) =~= Seq::<u8>::empty());
            }
            if gv.raw_buffers.len() == 0 {
                assert(data.subrange(block, e) =~= Seq::<u8>::empty());
            }
        }
    }
}

// ---------------------------------------------------------------------------
// Grid descriptors.
// ---------------------------------------------------------------------------
/// A grid descriptor record at `pos` that ends at `end`: see
/// [`lemma_grid_descriptor_layout`].
pub open spec fn descriptor_at(data: Seq<u8>, pos: int, d: GridDescriptorView, end: int) -> bool {
        let p1 = after_text(data, pos);
        let p2 = after_text(data, p1);
        let p3 = after_text(data, p2);
        let raw_type = text_at(data, p1);
        let suffix = "_HalfFloat"@;
        &&& d.unique_name == text_at(data, pos)
        &&& d.instance_parent_name == text_at(data, p2)
        &&& d.save_float_as_half == (raw_type.len() >= suffix.len() && raw_type.subrange(
            raw_type.len() - suffix.len(),
            raw_type.len() as int,
        ) == suffix)
        &&& d.save_float_as_half ==> raw_type == d.grid_type + suffix
        &&& !d.save_float_as_half ==> raw_type == d.grid_type
        &&& d.grid_position == i64_at(data, p3)
        &&& d.block_position == i64_at(data, p3 + 8)
        &&& d.end_position == i64_at(data, p3 + 16)
        &&& end == p3 + 24
}

/// What [`GridDescriptor::read`] gives for the record at `pos`: three
/// length-prefixed strings, then three `i64`s. The unique name is the first
/// string and the name of the parent of an instance is the third, as read.
/// The second string is the grid type: where it ends with `_HalfFloat` the
/// descriptor holds it without that suffix and saves floats as half
/// floats, else it holds it whole. The grid, block and end positions are
/// the three `i64`s in that order, and the reader ends after them.
pub proof fn lemma_grid_descriptor_layout(
    data: Seq<u8>,
    pos: int,
    r: Result<GridDescriptor, HeliumError>,
    end: u64,
)
    requires
        outcome(r, spec_grid_descriptor(data, pos), end),
    ensures
        r matches Ok(d) ==> descriptor_at(data, pos, d@, end as int),
{
    lemma_descriptor_at(data, pos);
}

proof fn lemma_descriptor_at(data: Seq<u8>, pos: int)
    ensures
        spec_grid_descriptor(data, pos) matches Ok((d, q)) ==> descriptor_at(data, pos, d, q),
{
    lemma_string_at(data, pos);
    if let Ok((_, p1)) = spec_string(data, pos) {
        lemma_string_at(data, p1);
        if let Ok((raw_type, p2)) = spec_string(data, p1) {
            lemma_string_at(data, p2);
            lemma_half_float_suffix_roundtrip(raw_type);
            if let Ok((_, p3)) = spec_string(data, p2) {
                let a = data.subrange(p3, p3 + 8);
                let b = data.subrange(p3 + 8, p3 + 16);
                let c = data.subrange(p3 + 16, p3 + 24);
                assert(0 <= le_u64(a) < 0x1_0000_0000_0000_0000) by {
                    assert(0 <= le_u32(a) <= 0xffff_ffff);
                    assert(0 <= le_u32(a.subrange(4, 8)) <= 0xffff_ffff);
                }
                assert(0 <= le_u64(b) < 0x1_0000_0000_0000_0000) by {
                    assert(0 <= le_u32(b) <= 0xffff_ffff);
                    assert(0 <= le_u32(b.subrange(4, 8)) <= 0xffff_ffff);
                }
                assert(0 <= le_u64(c) < 0x1_0000_0000_0000_0000) by {
                    assert(0 <= le_u32(c) <= 0xffff_ffff);
                    assert(0 <= le_u32(c.subrange(4, 8)) <= 0xffff_ffff);
                }
                vstd::arithmetic::power2::lemma2_to64();
                vstd::arithmetic::power2::lemma2_to64_rest();
            }
        }
    }
}

// ---------------------------------------------------------------------------
// The header.
// ---------------------------------------------------------------------------
/// A header in the 57 bytes at `pos`, read as `h`: they start with the
/// magic number; the file version, a supported one, is the `u32` at byte
/// 8, the library's major and minor versions the `u32`s at bytes 12 and 16;
/// grid offsets are present exactly when byte 20 is 1 (it is 0 or 1); the
/// UUID is the UTF-8 text of bytes 21 to 57.
pub open spec fn header_at(data: Seq<u8>, pos: int, h: HeaderView) -> bool {
    &&& le_u64(data.subrange(pos, pos + 8)) == OPENVDB_MAGIC
    &&& h.file_version == u32_at(data, pos + 8)
    &&& MIN_SUPPORTED_VERSION <= h.file_version <= MAX_SUPPORTED_VERSION
    &&& h.library_major == u32_at(data, pos + 12)
    &&& h.library_minor == u32_at(data, pos + 16)
    &&& data[pos + 20] == 0 || data[pos + 20] == 1
    &&& h.has_grid_offsets == (data[pos + 20] == 1)
    &&& h.uuid == decode_utf8(data.subrange(pos + 21, pos + 57))
}

/// What [`Header::read`] gives is the header laid out in the 57 bytes at the
/// read position ([`header_at`]), and the reader ends after them.
pub proof fn lemma_header_layout(data: Seq<u8>, pos: int, r: Result<Header, HeliumError>, end: u64)
    requires
        outcome(r, spec_header(data, pos), end),
    ensures
        r matches Ok(h) ==> header_at(data, pos, h@) && end == pos + 57,
{
    lemma_header_at(data, pos);
}

proof fn lemma_header_at(data: Seq<u8>, pos: int)
    ensures
        spec_header(data, pos) matches Ok((h, q)) ==> header_at(data, pos, h) && q == pos + 57,
{
    if let Ok((hv, q)) = spec_header(data, pos) {
        let m = data.subrange(pos, pos + 8);
        assert(0 <= le_u32(m) <= 0xffff_ffff);
        assert(0 <= le_u32(m.subrange(4, 8)) <= 0xffff_ffff);
        assert(0 <= le_u32(data.subrange(pos + 8, pos + 12)) <= 0xffff_ffff);
        assert(0 <= le_u32(data.subrange(pos + 12, pos + 16)) <= 0xffff_ffff);
        assert(0 <= le_u32(data.subrange(pos + 16, pos + 20)) <= 0xffff_ffff);
        assert(data.subrange(pos + 20, pos + 21)[0] == data[pos + 20]);
    }
}

// ---------------------------------------------------------------------------
// Metadata.
// ---------------------------------------------------------------------------
/// A metadata entry at `at` that ends at `end`: its name and its type name
/// are the two length-prefixed strings at `at`, and its payload the bytes
/// that follow the `u32` payload size after them.
pub open spec fn metadata_entry_at(data: Seq<u8>, at: int, m: MetadataView, end: int) -> bool {
    let p1 = after_text(data, at);
    let p2 = after_text(data, p1);
    &&& m.name == text_at(data, at)
    &&& m.value_type == text_at(data, p1)
    &&& m.payload == data.subrange(p2 + 4, p2 + 4 + u32_at(data, p2))
    &&& end == p2 + 4 + u32_at(data, p2)
}

proof fn lemma_metadata_entry_at(data: Seq<u8>, pos: int)
    ensures
        spec_metadata_entry(data, pos) matches Ok((m, q)) ==> metadata_entry_at(data, pos, m, q),
{
    lemma_string_at(data, pos);
    if let Ok((_, p1)) = spec_string(data, pos) {
        lemma_string_at(data, p1);
        if let Ok((_, p2)) = spec_string(data, p1) {
            let b = data.subrange(p2, p2 + 4);
            assert(0 <= le_u32(b) <= 0xffff_ffff);
            if spec_metadata_entry(data, pos) is Ok && u32_at(data, p2) == 0 {
                assert(data.subrange(p2 + 4, p2 + 4) =~= Seq::<u8>::empty());
            }
        }
    }
}

/// The entries of a metadata block lie one after the other from `pos`: the
/// positions `ps` where they start, and where the last ends.
proof fn lemma_metadata_entries_at(data: Seq<u8>, pos: int, n: int) -> (ps: Seq<int>)
    requires
        0 <= n,
    ensures
        spec_metadata_entries(data, pos, n) matches Ok((es, q)) ==> {
            &&& es.len() == n
            &&& ps.len() == n + 1
            &&& ps[0] == pos
            &&& ps[n] == q
            &&& forall|i: int| 0 <= i < n ==> metadata_entry_at(data, ps[i], #[trigger] es[i], ps[i + 1])
        },
    decreases n,
{
    if n == 0 {
        seq![pos]
    } else {
        let prev = lemma_metadata_entries_at(data, pos, n - 1);
        if let Ok((es, q)) = spec_metadata_entries(data, pos, n - 1) {
            lemma_metadata_entry_at(data, q);
            if let Ok((e, q2)) = spec_metadata_entry(data, q) {
                let ps = prev.push(q2);
                let all = es.push(e);
                assert forall|i: int| 0 <= i < n implies metadata_entry_at(
                    data,
                    ps[i],
                    #[trigger] all[i],
                    ps[i + 1],
                ) by {
                    if i < n - 1 {
                        assert(all[i] == es[i]);
                    }
                }
                return ps;
            }
        }
        prev
    }
}

/// A metadata block at `pos`, read as `es`, after which the reader is at
/// `end`: as many entries as the `u32` count at `pos` says (at most
/// `MAX_METADATA_COUNT`), which lie one after the other from `pos + 4`,
/// each with its name, type name and payload where [`metadata_entry_at`]
/// places them; the last ends at `end`.
pub open spec fn metadata_at(data: Seq<u8>, pos: int, es: Seq<MetadataView>, end: int) -> bool {
    let n = u32_at(data, pos);
    &&& n <= MAX_METADATA_COUNT
    &&& es.len() == n
    &&& exists|ps: Seq<int>|
        #![trigger ps.len()]
        {
            &&& ps.len() == n + 1
            &&& ps[0] == pos + 4
            &&& ps[n] == end
            &&& forall|i: int| 0 <= i < n ==> metadata_entry_at(data, ps[i], #[trigger] es[i], ps[i + 1])
        }
}

proof fn lemma_metadata_at(data: Seq<u8>, pos: int)
    ensures
        spec_metadata(data, pos) matches Ok((es, q)) ==> metadata_at(data, pos, es, q),
{
    if let Ok((es, q)) = spec_metadata(data, pos) {
        let b = data.subrange(pos, pos + 4);
        assert(0 <= le_u32(b) <= 0xffff_ffff);
        let n = u32_at(data, pos);
        let ps = lemma_metadata_entries_at(data, pos + 4, n);
        assert(ps.len() == n + 1);
    }
}

/// What [`Metadata::read`] gives is the block laid out at the read position
/// ([`metadata_at`]), and the reader ends after its last entry.
pub proof fn lemma_metadata_layout(
    data: Seq<u8>,
    pos: int,
    r: Result<Vec<Metadata>, HeliumError>,
    end: u64,
)
    requires
        metadata_outcome(r, spec_metadata(data, pos), end),
    ensures
        r matches Ok(v) ==> metadata_at(data, pos, metadata_view(v@), end as int) && v@.len()
            == metadata_view(v@).len(),
{
    lemma_metadata_at(data, pos);
}

// ---------------------------------------------------------------------------
// The grids of a file.
// ---------------------------------------------------------------------------
/// Where the descriptor record at `at` ends: after its three strings and
/// its three `i64`s.
pub open spec fn descriptor_end(data: Seq<u8>, at: int) -> int {
    after_text(data, after_text(data, after_text(data, at))) + 24
}

/// Where descriptor `i` of `ds` starts, the first being at `first`: each
/// other starts at the end position of the one before.
pub open spec fn descriptor_start(ds: Seq<GridDescriptorView>, first: int, i: int) -> int {
    if i == 0 {
        first
    } else {
        ds[i - 1].end_position as int
    }
}

/// The descriptors `ds` of a file of `file_length` bytes, the first at
/// `first`, after whose reading the reader is at `end`: each is the record
/// at its start and has offsets in order within the file.
#[verifier::opaque]
pub open spec fn descriptors_at(
    data: Seq<u8>,
    first: int,
    ds: Seq<GridDescriptorView>,
    file_length: u64,
    end: int,
) -> bool {
    &&& forall|i: int|
        0 <= i < ds.len() ==> descriptor_at(
            data,
            descriptor_start(ds, first, i),
            #[trigger] ds[i],
            descriptor_end(data, descriptor_start(ds, first, i)),
        )
    &&& forall|i: int|
        0 <= i < ds.len() ==> 0 <= (#[trigger] ds[i]).grid_position <= ds[i].block_position
            <= ds[i].end_position <= file_length
    &&& end == descriptor_start(ds, first, ds.len() as int)
}

proof fn lemma_descriptor_list_at(data: Seq<u8>, pos: int, file_length: u64, n: int)
    requires
        0 <= n,
    ensures
        spec_descriptor_list(data, pos, file_length, n) matches Ok((ds, q)) ==> ds.len() == n
            && descriptors_at(data, pos, ds, file_length, q),
    decreases n,
{
    reveal(descriptors_at);
    if n > 0 {
        lemma_descriptor_list_at(data, pos, file_length, n - 1);
        if let Ok((ds, q)) = spec_descriptor_list(data, pos, file_length, n - 1) {
            lemma_descriptor_at(data, q);
            if let Ok((d, q2)) = spec_next_descriptor(data, q, (n - 1) as usize, file_length) {
                let all = ds.push(d);
                assert(descriptor_start(all, pos, n - 1) == q);
                assert forall|i: int| 0 <= i < all.len() implies descriptor_at(
                    data,
                    descriptor_start(all, pos, i),
                    #[trigger] all[i],
                    descriptor_end(data, descriptor_start(all, pos, i)),
                ) by {
                    if i < n - 1 {
                        assert(all[i] == ds[i]);
                        assert(descriptor_start(all, pos, i) == descriptor_start(ds, pos, i));
                    }
                }
                assert forall|i: int| 0 <= i < all.len() implies 0 <= (
                #[trigger] all[i]).grid_position <= all[i].block_position <= all[i].end_position
                    <= file_length by {
                    if i < n - 1 {
                        assert(all[i] == ds[i]);
                    }
                }
            }
        }
    }
}

/// What reading the grid count and the descriptors gives (the descriptor
/// part of [`Grids::read`]): the file must hold grid offsets; the count is
/// the `i32` at the read position, from 0 to `MAX_GRID_COUNT`, and there are
/// that many descriptors, the first record right after the count and each
/// other at the end position of the one before, each with its offsets in
/// order within the file; the reader ends at the end position of the last.
pub proof fn lemma_grid_descriptors_layout(
    data: Seq<u8>,
    pos: int,
    header: HeaderView,
    file_length: u64,
    r: Result<Grids, HeliumError>,
    end: u64,
)
    requires
        match spec_grids(data, pos, header, file_length) {
            Ok((ds, q)) => r matches Ok(g) && descriptors_view(g.descriptors@) == ds && end == q,
            Err((e, q)) => r matches Err(x) && x@ == e && end == q,
        },
    ensures
        r matches Ok(g) ==> {
            let ds = descriptors_view(g.descriptors@);
            let count = twos_complement(le_u32(data.subrange(pos, pos + 4)), 32);
            &&& header.has_grid_offsets
            &&& 0 <= count <= MAX_GRID_COUNT
            &&& ds.len() == count
            &&& descriptors_at(data, pos + 4, ds, file_length, end as int)
        },
{
    if let Ok((ds, q)) = spec_grids(data, pos, header, file_length) {
        let b = data.subrange(pos, pos + 4);
        assert(0 <= le_u32(b) <= 0xffff_ffff);
        vstd::arithmetic::power2::lemma2_to64();
        if let Ok((count, p1)) = spec_grid_count(data, pos) {
            lemma_descriptor_list_at(data, p1, file_length, count as int);
        }
    }
}

proof fn lemma_grid_list_at(
    data: Seq<u8>,
    pos: int,
    ds: Seq<GridDescriptorView>,
    file_length: u64,
    n: int,
) -> (ends: Seq<int>)
    requires
        0 <= n,
    ensures
        spec_grid_list(data, pos, ds, file_length, n) matches Ok((gs, q)) ==> {
            &&& gs.len() == n
            &&& ends.len() == n
            &&& forall|i: int| 0 <= i < n ==> grid_at(data, ds[i], #[trigger] gs[i], ends[i])
        },
    decreases n,
{
    if n == 0 {
        Seq::empty()
    } else {
        let prev = lemma_grid_list_at(data, pos, ds, file_length, n - 1);
        if let Ok((gs, q)) = spec_grid_list(data, pos, ds, file_length, n - 1) {
            lemma_grid_at(data, q, ds[n - 1], (n - 1) as usize, file_length);
            if let Ok((g, q2)) = spec_grid(data, q, ds[n - 1], (n - 1) as usize, file_length) {
                let all = gs.push(g);
                let ends = prev.push(q2);
                assert forall|i: int| 0 <= i < n implies grid_at(
                    data,
                    ds[i],
                    #[trigger] all[i],
                    ends[i],
                ) by {
                    if i < n - 1 {
                        assert(all[i] == gs[i]);
                        assert(ends[i] == prev[i]);
                    }
                }
                return ends;
            }
        }
        prev
    }
}

/// The grids of a file, read as `g` from `pos` with the header `header`:
/// the file holds grid offsets; the grid count is the `i32` at `pos`, from
/// 0 to `MAX_GRID_COUNT`; the descriptors follow as [`descriptors_at`]
/// says; and there is one grid per descriptor, in order, each laid out
/// where its descriptor says ([`grid_at`]).
pub open spec fn grids_at(
    data: Seq<u8>,
    pos: int,
    header: HeaderView,
    file_length: u64,
    g: AllGridsView,
) -> bool {
    let count = twos_complement(le_u32(data.subrange(pos, pos + 4)), 32);
    &&& header.has_grid_offsets
    &&& 0 <= count <= MAX_GRID_COUNT
    &&& g.count == count
    &&& g.descriptors.len() == count
    &&& g.grids.len() == count
    &&& exists|dend: int| #[trigger] descriptors_at(data, pos + 4, g.descriptors, file_length, dend)
    &&& exists|ends: Seq<int>|
        #![trigger ends.len()]
        ends.len() == count && forall|i: int|
            0 <= i < count ==> grid_at(data, g.descriptors[i], #[trigger] g.grids[i], ends[i])
}

proof fn lemma_grids_at(data: Seq<u8>, pos: int, header: HeaderView, file_length: u64)
    ensures
        spec_all_grids(data, pos, header, file_length) matches Ok((g, q)) ==> grids_at(
            data,
            pos,
            header,
            file_length,
            g,
        ),
{
    if let Ok((gv, q)) = spec_all_grids(data, pos, header, file_length) {
        let b = data.subrange(pos, pos + 4);
        assert(0 <= le_u32(b) <= 0xffff_ffff);
        vstd::arithmetic::power2::lemma2_to64();
        if let Ok((count, p1)) = spec_grid_count(data, pos) {
            lemma_descriptor_list_at(data, p1, file_length, count as int);
            if let Ok((ds, p2)) = spec_grid_descriptors(data, p1, header, count, file_length) {
                assert(descriptors_at(data, pos + 4, ds, file_length, p2));
                let ends = lemma_grid_list_at(data, p2, ds, file_length, ds.len() as int);
                assert(ends.len() == count);
            }
        }
    }
}

/// What [`AllGrids::read`] gives: the grid count, the descriptors and the
/// grids laid out as [`grids_at`] says.
pub proof fn lemma_all_grids_layout(
    data: Seq<u8>,
    pos: int,
    header: HeaderView,
    file_length: u64,
    r: Result<AllGrids, HeliumError>,
    end: u64,
)
    requires
        outcome(r, spec_all_grids(data, pos, header, file_length), end),
    ensures
        r matches Ok(g) ==> grids_at(data, pos, header, file_length, g@),
{
    lemma_grids_at(data, pos, header, file_length);
}

/// What [`HeliumReader::read_from_bytes`] does when it succeeds: the header
/// is the one in the first 57 bytes, the file metadata the block that
/// follows it, and the grids are read from where that block ends, in a
/// file as long as the bytes; the path stays as it was.
pub proof fn lemma_read_from_bytes_layout(
    bytes: Seq<u8>,
    before: HeliumReaderView,
    after: HeliumReaderView,
    r: Result<(), HeliumError>,
)
    requires
        after.file_path == before.file_path,
        match spec_header(bytes, 0) {
            Err((e, _)) => r matches Err(x) && x@ == e && after == before,
            Ok((h, p1)) => after.header == h && match spec_metadata(bytes, p1) {
                Err((e, _)) => r matches Err(x) && x@ == e && after.file_metadata
                    == before.file_metadata && after.grids == before.grids,
                Ok((m, p2)) => after.file_metadata == m && match spec_all_grids(
                    bytes,
                    p2,
                    h,
                    bytes.len() as u64,
                ) {
                    Err((e, _)) => r matches Err(x) && x@ == e && after.grids == before.grids,
                    Ok((g, _)) => r is Ok && after.grids == g,
                },
            },
        },
    ensures
        r is Ok ==> {
            &&& after.file_path == before.file_path
            &&& header_at(bytes, 0, after.header)
            &&& exists|metadata_end: int|
                #[trigger] metadata_at(bytes, 57, after.file_metadata, metadata_end) && grids_at(
                    bytes,
                    metadata_end,
                    after.header,
                    bytes.len() as u64,
                    after.grids,
                )
        },
{
    lemma_header_at(bytes, 0);
    if let Ok((h, p1)) = spec_header(bytes, 0) {
        lemma_metadata_at(bytes, p1);
        if let Ok((m, p2)) = spec_metadata(bytes, p1) {
            lemma_grids_at(bytes, p2, h, bytes.len() as u64);
            assert(metadata_at(bytes, 57, after.file_metadata, p2));
        }
    }
}

// ---------------------------------------------------------------------------
// The primitive values, byte by byte.
// ---------------------------------------------------------------------------
/// The unsigned value of the `n` bytes at `at`, least significant first.
pub open spec fn bytes_value(data: Seq<u8>, at: int, n: nat) -> int
    decreases n,
{
    if n == 0 {
        0
    } else {
        data[at] + 256 * bytes_value(data, at + 1, (n - 1) as nat)
    }
}

proof fn lemma_le_u32_bytes(data: Seq<u8>, at: int)
    requires
        0 <= at,
        at + 4 <= data.len(),
    ensures
        le_u32(data.subrange(at, at + 4)) == bytes_value(data, at, 4),
        0 <= bytes_value(data, at, 4) < 0x1_0000_0000,
{
    let s = data.subrange(at, at + 4);
    assert(s[0] == data[at] && s[1] == data[at + 1] && s[2] == data[at + 2] && s[3] == data[at + 3]);
    reveal_with_fuel(bytes_value, 5);
}

proof fn lemma_le_u64_bytes(data: Seq<u8>, at: int)
    requires
        0 <= at,
        at + 8 <= data.len(),
    ensures
        le_u64(data.subrange(at, at + 8)) == bytes_value(data, at, 8),
        0 <= bytes_value(data, at, 8) < 0x1_0000_0000_0000_0000,
{
    let s = data.subrange(at, at + 8);
    let t = s.subrange(4, 8);
    assert(s[0] == data[at] && s[1] == data[at + 1] && s[2] == data[at + 2] && s[3] == data[at + 3]);
    assert(t[0] == data[at + 4] && t[1] == data[at + 5] && t[2] == data[at + 6] && t[3] == data[at + 7]);
    reveal_with_fuel(bytes_value, 9);
}

/// What [`Helper::read_u8`] gives is the byte at the read position.
pub proof fn lemma_read_u8_layout(data: Seq<u8>, pos: int, r: Result<u8, HeliumError>, end: u64)
    requires
        outcome(r, spec_u8(data, pos), end),
    ensures
        r matches Ok(v) ==> v == data[pos] && end == pos + 1,
{
}

/// What [`Helper::read_u32_le`] gives is the value of the four bytes at the
/// read position, least significant first.
pub proof fn lemma_read_u32_layout(data: Seq<u8>, pos: int, r: Result<u32, HeliumError>, end: u64)
    requires
        outcome(r, spec_u32(data, pos), end),
    ensures
        r matches Ok(v) ==> v == bytes_value(data, pos, 4) && end == pos + 4,
{
    if spec_u32(data, pos) is Ok {
        lemma_le_u32_bytes(data, pos);
    }
}

/// What [`Helper::read_i32_le`] gives is the value of the four bytes at the
/// read position, least significant first, read in two's complement.
pub proof fn lemma_read_i32_layout(data: Seq<u8>, pos: int, r: Result<i32, HeliumError>, end: u64)
    requires
        outcome(r, spec_i32(data, pos), end),
    ensures
        r matches Ok(v) ==> {
            let u = bytes_value(data, pos, 4);
            &&& v == if u < 0x8000_0000 { u } else { u - 0x1_0000_0000 }
            &&& end == pos + 4
        },
{
    if spec_i32(data, pos) is Ok {
        lemma_le_u32_bytes(data, pos);
        vstd::arithmetic::power2::lemma2_to64();
    }
}

/// What [`Helper::read_i16_le`] gives is the value of the two bytes at the
/// read position, least significant first, read in two's complement.
pub proof fn lemma_read_i16_layout(data: Seq<u8>, pos: int, r: Result<i16, HeliumError>, end: u64)
    requires
        outcome(r, spec_i16(data, pos), end),
    ensures
        r matches Ok(v) ==> {
            let u = bytes_value(data, pos, 2);
            &&& v == if u < 0x8000 { u } else { u - 0x1_0000 }
            &&& end == pos + 2
        },
{
    if spec_i16(data, pos) is Ok {
        let s = data.subrange(pos, pos + 2);
        assert(s[0] == data[pos] && s[1] == data[pos + 1]);
        reveal_with_fuel(bytes_value, 3);
        vstd::arithmetic::power2::lemma2_to64();
    }
}

/// What [`Helper::read_u64_le`] gives is the value of the eight bytes at
/// the read position, least significant first.
pub proof fn lemma_read_u64_layout(data: Seq<u8>, pos: int, r: Result<u64, HeliumError>, end: u64)
    requires
        outcome(r, spec_u64(data, pos), end),
    ensures
        r matches Ok(v) ==> v == bytes_value(data, pos, 8) && end == pos + 8,
{
    if spec_u64(data, pos) is Ok {
        lemma_le_u64_bytes(data, pos);
    }
}

/// What [`Helper::read_i64_le`] gives is the value of the eight bytes at
/// the read position, least significant first, read in two's complement.
pub proof fn lemma_read_i64_layout(data: Seq<u8>, pos: int, r: Result<i64, HeliumError>, end: u64)
    requires
        outcome(r, spec_i64(data, pos), end),
    ensures
        r matches Ok(v) ==> {
            let u = bytes_value(data, pos, 8);
            &&& v == if u < 0x8000_0000_0000_0000 { u } else { u - 0x1_0000_0000_0000_0000 }
            &&& end == pos + 8
        },
{
    if spec_i64(data, pos) is Ok {
        lemma_le_u64_bytes(data, pos);
        vstd::arithmetic::power2::lemma2_to64();
        vstd::arithmetic::power2::lemma2_to64_rest();
    }
}

/// What [`Helper::read_f32_le`] and [`Helper::read_f64_le`] give are floats
/// whose bits are the four or eight bytes at the read position, least
/// significant first.
pub proof fn lemma_read_floats_layout(
    data: Seq<u8>,
    pos: int,
    r32: Result<F32Bits, HeliumError>,
    end32: u64,
    r64: Result<F64Bits, HeliumError>,
    end64: u64,
)
    requires
        outcome(r32, spec_f32(data, pos), end32),
        outcome(r64, spec_f64(data, pos), end64),
    ensures
        r32 matches Ok(v) ==> v.0 == bytes_value(data, pos, 4) && end32 == pos + 4,
        r64 matches Ok(v) ==> v.0 == bytes_value(data, pos, 8) && end64 == pos + 8,
{
    if spec_f32(data, pos) is Ok {
        lemma_le_u32_bytes(data, pos);
    }
    if spec_f64(data, pos) is Ok {
        lemma_le_u64_bytes(data, pos);
    }
}

/// What [`Helper::read_bool`] gives: the byte at the read position is 0 or
/// 1, and the value is whether it is 1.
pub proof fn lemma_read_bool_layout(
    data: Seq<u8>,
    pos: int,
    field: Seq<char>,
    r: Result<bool, HeliumError>,
    end: u64,
)
    requires
        outcome(r, spec_bool(data, pos, field), end),
    ensures
        r matches Ok(b) ==> (data[pos] == 0 || data[pos] == 1) && b == (data[pos] == 1) && end
            == pos + 1,
{
}

/// What [`Helper::read_string`] gives: the text of the UTF-8 bytes that
/// follow the four-byte length at the read position, as many as it says.
pub proof fn lemma_read_string_layout(data: Seq<u8>, pos: int, r: Result<String, HeliumError>, end: u64)
    requires
        outcome(r, spec_string(data, pos), end),
    ensures
        r matches Ok(s) ==> {
            let n = bytes_value(data, pos, 4);
            &&& s@ == decode_utf8(data.subrange(pos + 4, pos + 4 + n))
            &&& end == pos + 4 + n
        },
{
    lemma_string_at(data, pos);
    if spec_string(data, pos) is Ok {
        lemma_le_u32_bytes(data, pos);
    }
}

/// What [`Helper::read_f32_array`] gives: the `n` floats in the `4 * n`
/// bytes at the read position, in order; the reader ends after them.
pub proof fn lemma_read_f32_array_layout(
    data: Seq<u8>,
    pos: int,
    n: usize,
    r: Result<Vec<F32Bits>, HeliumError>,
    end: u64,
)
    requires
        outcome(r, spec_f32_array(data, pos, n as int), end),
    ensures
        r matches Ok(v) ==> v@.len() == n && (forall|i: int|
            0 <= i < n ==> #[trigger] v@[i] == f32_at(data, pos + 4 * i)) && end == pos + 4 * n,
{
}

/// What [`Helper::read_byte_range`] gives: the bytes from `start` to `end`
/// of the input, after which the reader is at `end`; a range that ends
/// before it starts is refused.
pub proof fn lemma_read_byte_range_layout(
    data: Seq<u8>,
    pos: int,
    start: u64,
    end: u64,
    r: Result<Vec<u8>, HeliumError>,
    after: u64,
)
    requires
        outcome(r, spec_byte_range(data, pos, start, end), after),
    ensures
        r matches Ok(v) ==> start <= end && v@.len() == end - start && (forall|i: int|
            0 <= i < end - start ==> #[trigger] v@[i] == data[start + i]) && after == end,
{
}

} // verus!
