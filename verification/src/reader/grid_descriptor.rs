use vstd::prelude::*;
use vstd::string::StrSliceExecFns;

use crate::reader::byte_reader::ByteReader;
use crate::reader::error::{Failure, outcome, ErrorView, HeliumError};
use crate::reader::helpers::{spec_i64, spec_string, Helper};

verus! {

/// Where a grid lies in the file, and what it holds.
#[derive(Debug)]
pub struct GridDescriptor {
    pub unique_name: String,
    pub grid_type: String,
    pub instance_parent_name: String,
    pub grid_position: i64,
    pub block_position: i64,
    pub end_position: i64,
    pub save_float_as_half: bool,
}

/// The mathematical value of a [`GridDescriptor`].
pub struct GridDescriptorView {
    pub unique_name: Seq<char>,
    pub grid_type: Seq<char>,
    pub instance_parent_name: Seq<char>,
    pub grid_position: i64,
    pub block_position: i64,
    pub end_position: i64,
    pub save_float_as_half: bool,
}

impl View for GridDescriptor {
    type V = GridDescriptorView;

    open spec fn view(&self) -> GridDescriptorView {
        GridDescriptorView {
            unique_name: self.unique_name@,
            grid_type: self.grid_type@,
            instance_parent_name: self.instance_parent_name@,
            grid_position: self.grid_position,
            block_position: self.block_position,
            end_position: self.end_position,
            save_float_as_half: self.save_float_as_half,
        }
    }
}

impl Clone for GridDescriptor {
    fn clone(&self) -> (r: Self)
        ensures
            r == *self,
    {
        GridDescriptor {
            unique_name: self.unique_name.clone(),
            grid_type: self.grid_type.clone(),
            instance_parent_name: self.instance_parent_name.clone(),
            grid_position: self.grid_position,
            block_position: self.block_position,
            end_position: self.end_position,
            save_float_as_half: self.save_float_as_half,
        }
    }
}

/// Whether a grid type names values saved as half floats: it ends with
/// `_HalfFloat`.
pub open spec fn ends_with_half_float(grid_type: Seq<char>) -> bool {
    &&& grid_type.len() >= "_HalfFloat"@.len()
    &&& grid_type.subrange(grid_type.len() - "_HalfFloat"@.len(), grid_type.len() as int)
        == "_HalfFloat"@
}

/// The grid type without its `_HalfFloat` suffix, if it has one.
pub open spec fn strip_half_float(grid_type: Seq<char>) -> Seq<char> {
    if ends_with_half_float(grid_type) {
        grid_type.subrange(0, grid_type.len() - "_HalfFloat"@.len())
    } else {
        grid_type
    }
}

/// The grid type read from the file is recovered from the descriptor: the
/// stored grid type, followed by `_HalfFloat` when the values are saved as
/// half floats.
pub proof fn lemma_half_float_suffix_roundtrip(raw: Seq<char>)
    ensures
        raw == strip_half_float(raw) + if ends_with_half_float(raw) {
            "_HalfFloat"@
        } else {
            Seq::<char>::empty()
        },
{
    if ends_with_half_float(raw) {
        let n = raw.len() - "_HalfFloat"@.len();
        assert(raw =~= raw.subrange(0, n) + raw.subrange(n, raw.len() as int));
    } else {
        assert(raw =~= raw + Seq::<char>::empty());
    }
}

/// A grid descriptor: the unique name, the grid type (a `_HalfFloat` suffix
/// marks half-float values and is removed), the name of the grid it is an
/// instance of (empty for none), then the grid, block and end positions as
/// `i64`s.
pub open spec fn spec_grid_descriptor(data: Seq<u8>, pos: int) -> Result<
    (GridDescriptorView, int),
    Failure,
> {
    match spec_string(data, pos) {
        Ok((unique_name, p1)) => match spec_string(data, p1) {
            Ok((raw_type, p2)) => match spec_string(data, p2) {
                Ok((instance_parent_name, p3)) => match spec_i64(data, p3) {
                    Ok((grid_position, p4)) => match spec_i64(data, p4) {
                        Ok((block_position, p5)) => match spec_i64(data, p5) {
                            Ok((end_position, p6)) => Ok(
                                (
                                    GridDescriptorView {
                                        unique_name,
                                        grid_type: strip_half_float(raw_type),
                                        instance_parent_name,
                                        grid_position,
                                        block_position,
                                        end_position,
                                        save_float_as_half: ends_with_half_float(raw_type),
                                    },
                                    p6,
                                ),
                            ),
                            Err(e) => Err(e),
                        },
                        Err(e) => Err(e),
                    },
                    Err(e) => Err(e),
                },
                Err(e) => Err(e),
            },
            Err(e) => Err(e),
        },
        Err(e) => Err(e),
    }
}

/// The checks on a descriptor's offsets: none negative, grid before block
/// before end, and the end within the file.
pub open spec fn spec_validate(
    d: GridDescriptorView,
    grid_index: usize,
    file_length: u64,
) -> Result<(), ErrorView> {
    if d.grid_position < 0 || d.block_position < 0 || d.end_position < 0 {
        Err(
            ErrorView::NegativeGridOffsets {
                grid_index,
                grid_position: d.grid_position,
                block_position: d.block_position,
                end_position: d.end_position,
            },
        )
    } else if d.grid_position > d.block_position || d.block_position > d.end_position {
        Err(
            ErrorView::InvalidGridOffsets {
                grid_index,
                grid_position: d.grid_position,
                block_position: d.block_position,
                end_position: d.end_position,
            },
        )
    } else if d.end_position > file_length {
        Err(
            ErrorView::GridOffsetPastEnd {
                grid_index,
                end_position: d.end_position as u64,
                file_length,
            },
        )
    } else {
        Ok(())
    }
}

/// Removes a `_HalfFloat` suffix; tells whether there was one.
fn strip_half_float_suffix(grid_type: String) -> (r: (String, bool))
    ensures
        r.0@ == strip_half_float(grid_type@),
        r.1 == ends_with_half_float(grid_type@),
{
    let suffix = "_HalfFloat";
    proof {
        reveal_strlit("_HalfFloat");
    }
    let n = grid_type.as_str().unicode_len();
    if n < 10 {
        return (grid_type, false);
    }
    let mut matches = true;
    let mut k: usize = 0;
    while k < 10
        invariant
            0 <= k <= 10,
            n == grid_type@.len(),
            n >= 10,
            suffix@ == "_HalfFloat"@,
            suffix@.len() == 10,
            matches == (forall|j: int|
                0 <= j < k ==> #[trigger] grid_type@[n - 10 + j] == suffix@[j]),
        decreases 10 - k,
    {
        if grid_type.as_str().get_char(n - 10 + k) != suffix.get_char(k) {
            matches = false;
        }
        k = k + 1;
    }
    assert(matches == (grid_type@.subrange(n - 10, n as int) =~= "_HalfFloat"@)) by {
        if matches {
            assert forall|j: int| 0 <= j < 10 implies grid_type@.subrange(n - 10, n as int)[j]
                == "_HalfFloat"@[j] by {
                assert(grid_type@[n - 10 + j] == suffix@[j]);
            }
            assert(grid_type@.subrange(n - 10, n as int) =~= "_HalfFloat"@);
        } else {
            let j = choose|j: int| 0 <= j < 10 && grid_type@[n - 10 + j] != suffix@[j];
            assert(grid_type@.subrange(n - 10, n as int)[j] != "_HalfFloat"@[j]);
        }
    }
    if matches {
        let stripped = grid_type.as_str().substring_char(0, n - 10).to_owned();
        (stripped, true)
    } else {
        (grid_type, false)
    }
}

impl GridDescriptor {
    /// Reads a grid descriptor.
    pub fn read(reader: &mut ByteReader) -> (r: Result<GridDescriptor, HeliumError>)
        ensures
            final(reader).bytes == old(reader).bytes,
            outcome(r, spec_grid_descriptor(old(reader).data(), old(reader).pos as int), final(reader).pos),
    {
        let unique_name = match Helper::read_string(reader) {
            Ok(s) => s,
            Err(e) => return Err(e),
        };
        let grid_type = match Helper::read_string(reader) {
            Ok(s) => s,
            Err(e) => return Err(e),
        };
        let instance_parent_name = match Helper::read_string(reader) {
            Ok(s) => s,
            Err(e) => return Err(e),
        };
        let grid_position = match Helper::read_i64_le(reader) {
            Ok(v) => v,
            Err(e) => return Err(e),
        };
        let block_position = match Helper::read_i64_le(reader) {
            Ok(v) => v,
            Err(e) => return Err(e),
        };
        let end_position = match Helper::read_i64_le(reader) {
            Ok(v) => v,
            Err(e) => return Err(e),
        };
        let (grid_type, save_float_as_half) = strip_half_float_suffix(grid_type);
        Ok(
            GridDescriptor {
                unique_name,
                grid_type,
                instance_parent_name,
                grid_position,
                block_position,
                end_position,
                save_float_as_half,
            },
        )
    }

    /// Checks the offsets of the descriptor of grid `grid_index` against a
    /// file of `file_length` bytes. On success,
    /// `0 <= grid_position <= block_position <= end_position <= file_length`.
    pub fn validate(&self, grid_index: usize, file_length: u64) -> (r: Result<(), HeliumError>)
        ensures
            match spec_validate(self@, grid_index, file_length) {
                Ok(_) => r is Ok,
                Err(e) => r matches Err(x) && x@ == e,
            },
            r is Ok ==> 0 <= self.grid_position <= self.block_position <= self.end_position
                <= file_length,
    {
        if self.grid_position < 0 || self.block_position < 0 || self.end_position < 0 {
            return Err(
                HeliumError::NegativeGridOffsets {
                    grid_index,
                    grid_position: self.grid_position,
                    block_position: self.block_position,
                    end_position: self.end_position,
                },
            );
        }
        if self.grid_position > self.block_position {
            return Err(
                HeliumError::InvalidGridOffsets {
                    grid_index,
                    grid_position: self.grid_position,
                    block_position: self.block_position,
                    end_position: self.end_position,
                },
            );
        }
        if self.block_position > self.end_position {
            return Err(
                HeliumError::InvalidGridOffsets {
                    grid_index,
                    grid_position: self.grid_position,
                    block_position: self.block_position,
                    end_position: self.end_position,
                },
            );
        }
        let end_position = self.end_position as u64;
        if end_position > file_length {
            return Err(HeliumError::GridOffsetPastEnd { grid_index, end_position, file_length });
        }
        Ok(())
    }
}

} // verus!
