use vstd::prelude::*;
use vstd::utf8::{decode_utf8, valid_utf8};

use crate::reader::byte_reader::{spec_take, ByteReader};
use crate::reader::error::{Failure, outcome, ErrorView, HeliumError};
use crate::reader::vdb_constants::MAX_STRING_LENGTH;

verus! {

/// A 32-bit IEEE-754 floating-point value, kept as its bit pattern.
#[derive(Debug, Clone, Copy, PartialEq, Eq, Structural)]
pub struct F32Bits(pub u32);

/// A 64-bit IEEE-754 floating-point value, kept as its bit pattern.
#[derive(Debug, Clone, Copy, PartialEq, Eq, Structural)]
pub struct F64Bits(pub u64);

impl View for F32Bits {
    type V = F32Bits;

    open spec fn view(&self) -> F32Bits {
        *self
    }
}

impl View for F64Bits {
    type V = F64Bits;

    open spec fn view(&self) -> F64Bits {
        *self
    }
}

/// The rows of a 4x4 matrix, each as a sequence.
pub open spec fn mat4d_view(m: [[F64Bits; 4]; 4]) -> Seq<Seq<F64Bits>> {
    m@.map_values(|row: [F64Bits; 4]| row@)
}

// ---------------------------------------------------------------------------
// The little-endian encodings of integers.
// ---------------------------------------------------------------------------
/// The unsigned value of two little-endian bytes.
pub open spec fn le_u16(s: Seq<u8>) -> int {
    s[0] + 0x100 * s[1]
}

/// The unsigned value of four little-endian bytes.
pub open spec fn le_u32(s: Seq<u8>) -> int {
    s[0] + 0x100 * s[1] + 0x1_0000 * s[2] + 0x100_0000 * s[3]
}

/// The unsigned value of eight little-endian bytes.
pub open spec fn le_u64(s: Seq<u8>) -> int {
    le_u32(s) + 0x1_0000_0000 * le_u32(s.subrange(4, 8))
}

/// The two's-complement reading of an unsigned value of `bits` bits.
pub open spec fn twos_complement(u: int, bits: nat) -> int {
    if u < vstd::arithmetic::power2::pow2((bits - 1) as nat) {
        u
    } else {
        u - vstd::arithmetic::power2::pow2(bits)
    }
}

// ---------------------------------------------------------------------------
// The format of the primitive values: each reads at `pos` in `data` and
// gives the value and the position after it.
// ---------------------------------------------------------------------------
/// A byte.
pub open spec fn spec_u8(data: Seq<u8>, pos: int) -> Result<(u8, int), Failure> {
    match spec_take(data, pos, 1) {
        Ok((s, q)) => Ok((s[0], q)),
        Err(e) => Err(e),
    }
}

/// A little-endian `i16`.
pub open spec fn spec_i16(data: Seq<u8>, pos: int) -> Result<(i16, int), Failure> {
    match spec_take(data, pos, 2) {
        Ok((s, q)) => Ok((twos_complement(le_u16(s), 16) as i16, q)),
        Err(e) => Err(e),
    }
}

/// A little-endian `u32`.
pub open spec fn spec_u32(data: Seq<u8>, pos: int) -> Result<(u32, int), Failure> {
    match spec_take(data, pos, 4) {
        Ok((s, q)) => Ok((le_u32(s) as u32, q)),
        Err(e) => Err(e),
    }
}

/// A little-endian `i32`.
pub open spec fn spec_i32(data: Seq<u8>, pos: int) -> Result<(i32, int), Failure> {
    match spec_take(data, pos, 4) {
        Ok((s, q)) => Ok((twos_complement(le_u32(s), 32) as i32, q)),
        Err(e) => Err(e),
    }
}

/// A little-endian `u64`.
pub open spec fn spec_u64(data: Seq<u8>, pos: int) -> Result<(u64, int), Failure> {
    match spec_take(data, pos, 8) {
        Ok((s, q)) => Ok((le_u64(s) as u64, q)),
        Err(e) => Err(e),
    }
}

/// A little-endian `i64`.
pub open spec fn spec_i64(data: Seq<u8>, pos: int) -> Result<(i64, int), Failure> {
    match spec_take(data, pos, 8) {
        Ok((s, q)) => Ok((twos_complement(le_u64(s), 64) as i64, q)),
        Err(e) => Err(e),
    }
}

/// A little-endian 32-bit float.
pub open spec fn spec_f32(data: Seq<u8>, pos: int) -> Result<(F32Bits, int), Failure> {
    match spec_u32(data, pos) {
        Ok((v, q)) => Ok((F32Bits(v), q)),
        Err(e) => Err(e),
    }
}

/// A little-endian 64-bit float.
pub open spec fn spec_f64(data: Seq<u8>, pos: int) -> Result<(F64Bits, int), Failure> {
    match spec_u64(data, pos) {
        Ok((v, q)) => Ok((F64Bits(v), q)),
        Err(e) => Err(e),
    }
}

/// `n` consecutive little-endian 32-bit floats.
pub open spec fn spec_f32_array(data: Seq<u8>, pos: int, n: int) -> Result<
    (Seq<F32Bits>, int),
    Failure,
> {
    match spec_take(data, pos, 4 * n) {
        Ok((_, q)) => Ok(
            (
                Seq::new(
                    n as nat,
                    |i: int| F32Bits(le_u32(data.subrange(pos + 4 * i, pos + 4 * i + 4)) as u32),
                ),
                q,
            ),
        ),
        Err(e) => Err(e),
    }
}

/// A byte that must be 0 (false) or 1 (true).
pub open spec fn spec_bool(data: Seq<u8>, pos: int, field: Seq<char>) -> Result<
    (bool, int),
    Failure,
> {
    match spec_u8(data, pos) {
        Ok((b, q)) => if b == 0 {
            Ok((false, q))
        } else if b == 1 {
            Ok((true, q))
        } else {
            Err((ErrorView::InvalidBoolean { field, value: b }, q))
        },
        Err(e) => Err(e),
    }
}

/// A string: its byte length as a little-endian `u32` (at most
/// `MAX_STRING_LENGTH`), then that many bytes of UTF-8.
pub open spec fn spec_string(data: Seq<u8>, pos: int) -> Result<(Seq<char>, int), Failure> {
    match spec_u32(data, pos) {
        Ok((len, q)) => if len > MAX_STRING_LENGTH {
            Err((ErrorView::StringTooLarge(len as usize), q))
        } else {
            match spec_take(data, q, len as int) {
                Ok((b, q2)) => if valid_utf8(b) {
                    Ok((decode_utf8(b), q2))
                } else {
                    Err((ErrorView::InvalidStringEncoding, q2))
                },
                Err(e) => Err(e),
            }
        },
        Err(e) => Err(e),
    }
}

/// Three consecutive 64-bit floats.
pub open spec fn spec_vec3d(data: Seq<u8>, pos: int) -> Result<(Seq<F64Bits>, int), Failure> {
    match spec_take(data, pos, 24) {
        Ok((_, q)) => Ok(
            (
                Seq::new(3, |i: int| F64Bits(le_u64(data.subrange(pos + 8 * i, pos + 8 * i + 8)) as u64)),
                q,
            ),
        ),
        Err(e) => Err(e),
    }
}

/// A 4x4 matrix of 64-bit floats, row by row.
pub open spec fn spec_mat4d(data: Seq<u8>, pos: int) -> Result<(Seq<Seq<F64Bits>>, int), Failure> {
    match spec_take(data, pos, 128) {
        Ok((_, q)) => Ok(
            (
                Seq::new(
                    4,
                    |r: int|
                        Seq::new(
                            4,
                            |c: int|
                                F64Bits(
                                    le_u64(
                                        data.subrange(
                                            pos + 32 * r + 8 * c,
                                            pos + 32 * r + 8 * c + 8,
                                        ),
                                    ) as u64,
                                ),
                        ),
                ),
                q,
            ),
        ),
        Err(e) => Err(e),
    }
}

/// Four consecutive 64-bit floats at `pos`: a row of a matrix.
pub open spec fn row_values(data: Seq<u8>, pos: int) -> Seq<F64Bits> {
    Seq::new(4, |c: int| F64Bits(le_u64(data.subrange(pos + 8 * c, pos + 8 * c + 8)) as u64))
}

/// The byte range `start..end` of `data`, after which the position is `end`.
/// A range that ends before it starts, or that is too large for memory,
/// leaves the position at `pos`.
pub open spec fn spec_byte_range(data: Seq<u8>, pos: int, start: u64, end: u64) -> Result<
    (Seq<u8>, int),
    Failure,
> {
    if end < start {
        Err((ErrorView::InvalidByteRange { start, end }, pos))
    } else if end - start > usize::MAX {
        Err((ErrorView::ByteRangeTooLarge { start, end }, pos))
    } else {
        spec_take(data, start as int, end - start)
    }
}

/// A stream offset that must not be negative.
pub open spec fn spec_checked_offset(offset: i64, field: Seq<char>) -> Result<u64, ErrorView> {
    if offset < 0 {
        Err(ErrorView::NegativeStreamPosition { field, value: offset })
    } else {
        Ok(offset as u64)
    }
}

// ---------------------------------------------------------------------------
// Outside code.
// ---------------------------------------------------------------------------
#[verifier::external_type_specification]
#[verifier::external_body]
pub struct ExFromUtf8Error(std::string::FromUtf8Error);

/// `String::from_utf8`: succeeds exactly when the bytes are well-formed UTF-8
/// (as vstd's `valid_utf8` defines it: no overlong encodings, no surrogates,
/// nothing past U+10FFFF), and the string then holds the decoded characters.
/// What the error holds (the bytes given back and where decoding stopped) is
/// left unsaid: the error type is opaque here.
#[verifier::external_body]
fn string_from_utf8(bytes: Vec<u8>) -> (r: Result<String, std::string::FromUtf8Error>)
    ensures
        r is Ok <==> valid_utf8(bytes@),
        r matches Ok(s) ==> s@ == decode_utf8(bytes@),
{
    String::from_utf8(bytes)
}

/// Decodes UTF-8 bytes into a string; `None` where they are not well-formed.
pub(crate) fn decode_string(bytes: Vec<u8>) -> (r: Option<String>)
    ensures
        r is Some <==> valid_utf8(bytes@),
        r matches Some(s) ==> s@ == decode_utf8(bytes@),
{
    match string_from_utf8(bytes) {
        Ok(s) => Some(s),
        Err(_) => None,
    }
}

// ---------------------------------------------------------------------------
// The readers of primitive values.
// ---------------------------------------------------------------------------
/// The readers of the primitive values of the format.
pub struct Helper {}

impl Helper {
    /// Reads a string: a `u32` byte length, then that many bytes of UTF-8.
    pub fn read_string(reader: &mut ByteReader) -> (r: Result<String, HeliumError>)
        ensures
            final(reader).bytes == old(reader).bytes,
            outcome(r, spec_string(old(reader).data(), old(reader).pos as int), final(reader).pos),
    {
        let length = match Self::read_u32_le(reader) {
            Ok(v) => v as usize,
            Err(e) => return Err(e),
        };
        if length > MAX_STRING_LENGTH {
            return Err(HeliumError::StringTooLarge(length));
        }
        let bytes = match reader.read_exact(length) {
            Ok(b) => b,
            Err(e) => return Err(e),
        };
        match string_from_utf8(bytes) {
            Ok(s) => Ok(s),
            Err(e) => Err(HeliumError::InvalidStringEncoding(e)),
        }
    }

    /// Reads a byte.
    pub fn read_u8(reader: &mut ByteReader) -> (r: Result<u8, HeliumError>)
        ensures
            final(reader).bytes == old(reader).bytes,
            outcome(r, spec_u8(old(reader).data(), old(reader).pos as int), final(reader).pos),
    {
        reader.read_byte()
    }

    /// Reads a little-endian `i16`.
    pub fn read_i16_le(reader: &mut ByteReader) -> (r: Result<i16, HeliumError>)
        ensures
            final(reader).bytes == old(reader).bytes,
            outcome(r, spec_i16(old(reader).data(), old(reader).pos as int), final(reader).pos),
    {
        if !reader.has_remaining(2) {
            return Err(HeliumError::UnexpectedEof);
        }
        let i = reader.pos as usize;
        let b = reader.bytes;
        let u: u16 = b[i] as u16 + b[i + 1] as u16 * 0x100;
        reader.pos = reader.pos + 2;
        proof {
            vstd::arithmetic::power2::lemma2_to64();
            assert(b@.subrange(i as int, i + 2)[1] == b@[i + 1]);
        }
        if u < 0x8000 {
            Ok(u as i16)
        } else {
            Ok(((u - 0x8000) as i16) + i16::MIN)
        }
    }

    /// Reads a little-endian `u32`.
    pub fn read_u32_le(reader: &mut ByteReader) -> (r: Result<u32, HeliumError>)
        ensures
            final(reader).bytes == old(reader).bytes,
            outcome(r, spec_u32(old(reader).data(), old(reader).pos as int), final(reader).pos),
    {
        if !reader.has_remaining(4) {
            return Err(HeliumError::UnexpectedEof);
        }
        let i = reader.pos as usize;
        let b = reader.bytes;
        let u: u32 = b[i] as u32 + b[i + 1] as u32 * 0x100 + b[i + 2] as u32 * 0x1_0000
            + b[i + 3] as u32 * 0x100_0000;
        reader.pos = reader.pos + 4;
        proof {
            let s = b@.subrange(i as int, i + 4);
            assert(s[0] == b@[i as int] && s[1] == b@[i + 1] && s[2] == b@[i + 2] && s[3] == b@[i + 3]);
        }
        Ok(u)
    }

    /// Reads a little-endian `i32`.
    pub fn read_i32_le(reader: &mut ByteReader) -> (r: Result<i32, HeliumError>)
        ensures
            final(reader).bytes == old(reader).bytes,
            outcome(r, spec_i32(old(reader).data(), old(reader).pos as int), final(reader).pos),
    {
        let u = match Self::read_u32_le(reader) {
            Ok(u) => u,
            Err(e) => return Err(e),
        };
        proof {
            vstd::arithmetic::power2::lemma2_to64();
        }
        if u < 0x8000_0000 {
            Ok(u as i32)
        } else {
            Ok(((u - 0x8000_0000) as i32) + i32::MIN)
        }
    }

    /// Reads a little-endian `u64`.
    pub fn read_u64_le(reader: &mut ByteReader) -> (r: Result<u64, HeliumError>)
        ensures
            final(reader).bytes == old(reader).bytes,
            outcome(r, spec_u64(old(reader).data(), old(reader).pos as int), final(reader).pos),
    {
        if !reader.has_remaining(8) {
            return Err(HeliumError::UnexpectedEof);
        }
        let i = reader.pos as usize;
        let b = reader.bytes;
        let lo: u64 = b[i] as u64 + b[i + 1] as u64 * 0x100 + b[i + 2] as u64 * 0x1_0000
            + b[i + 3] as u64 * 0x100_0000;
        let hi: u64 = b[i + 4] as u64 + b[i + 5] as u64 * 0x100 + b[i + 6] as u64 * 0x1_0000
            + b[i + 7] as u64 * 0x100_0000;
        let u: u64 = lo + hi * 0x1_0000_0000;
        reader.pos = reader.pos + 8;
        proof {
            let s = b@.subrange(i as int, i + 8);
            let t = s.subrange(4, 8);
            assert(s[0] == b@[i as int] && s[1] == b@[i + 1] && s[2] == b@[i + 2] && s[3] == b@[i + 3]);
            assert(t[0] == b@[i + 4] && t[1] == b@[i + 5] && t[2] == b@[i + 6] && t[3] == b@[i + 7]);
        }
        Ok(u)
    }

    /// Reads a little-endian `i64`.
    pub fn read_i64_le(reader: &mut ByteReader) -> (r: Result<i64, HeliumError>)
        ensures
            final(reader).bytes == old(reader).bytes,
            outcome(r, spec_i64(old(reader).data(), old(reader).pos as int), final(reader).pos),
    {
        let u = match Self::read_u64_le(reader) {
            Ok(u) => u,
            Err(e) => return Err(e),
        };
        proof {
            vstd::arithmetic::power2::lemma2_to64();
            vstd::arithmetic::power2::lemma2_to64_rest();
        }
        if u < 0x8000_0000_0000_0000 {
            Ok(u as i64)
        } else {
            Ok(((u - 0x8000_0000_0000_0000) as i64) + i64::MIN)
        }
    }
    /// Reads a byte that must be 0 (false) or 1 (true); `field` names the
    /// value in the error.
    pub fn read_bool(reader: &mut ByteReader, field: &'static str) -> (r: Result<bool, HeliumError>)
        ensures
            final(reader).bytes == old(reader).bytes,
            outcome(r, spec_bool(old(reader).data(), old(reader).pos as int, field@), final(reader).pos),
    {
        let value = match Self::read_u8(reader) {
            Ok(v) => v,
            Err(e) => return Err(e),
        };
        match value {
            0 => Ok(false),
            1 => Ok(true),
            _ => Err(HeliumError::InvalidBoolean { field, value }),
        }
    }

    /// Reads a little-endian 32-bit float, as its bit pattern.
    pub fn read_f32_le(reader: &mut ByteReader) -> (r: Result<F32Bits, HeliumError>)
        ensures
            final(reader).bytes == old(reader).bytes,
            outcome(r, spec_f32(old(reader).data(), old(reader).pos as int), final(reader).pos),
    {
        match Self::read_u32_le(reader) {
            Ok(v) => Ok(F32Bits(v)),
            Err(e) => Err(e),
        }
    }

    /// Reads a little-endian 64-bit float, as its bit pattern.
    pub fn read_f64_le(reader: &mut ByteReader) -> (r: Result<F64Bits, HeliumError>)
        ensures
            final(reader).bytes == old(reader).bytes,
            outcome(r, spec_f64(old(reader).data(), old(reader).pos as int), final(reader).pos),
    {
        match Self::read_u64_le(reader) {
            Ok(v) => Ok(F64Bits(v)),
            Err(e) => Err(e),
        }
    }

    /// Reads `n` consecutive 32-bit floats.
    pub fn read_f32_array(reader: &mut ByteReader, n: usize) -> (r: Result<Vec<F32Bits>, HeliumError>)
        ensures
            final(reader).bytes == old(reader).bytes,
            outcome(r, spec_f32_array(old(reader).data(), old(reader).pos as int, n as int), final(reader).pos),
    {
        if n > 0 && (n as u64 > u64::MAX / 4 || !reader.has_remaining(4 * n as u64)) {
            proof {
                let len = reader.bytes@.len();
                assert(len == reader.bytes.len());
                assert(old(reader).pos + 4 * n > len);
            }
            return Err(HeliumError::UnexpectedEof);
        }
        let ghost d = reader.data();
        let ghost p = reader.pos as int;
        let mut values: Vec<F32Bits> = Vec::new();
        let mut i: usize = 0;
        while i < n
            invariant
                0 <= i <= n,
                reader.bytes == old(reader).bytes,
                d == reader.data(),
                p == old(reader).pos,
                reader.pos == p + 4 * i,
                n > 0 ==> p + 4 * n <= d.len(),
                values@ =~= Seq::new(
                    i as nat,
                    |k: int| F32Bits(le_u32(d.subrange(p + 4 * k, p + 4 * k + 4)) as u32),
                ),
            decreases n - i,
        {
            let v = match Self::read_f32_le(reader) {
                Ok(v) => v,
                Err(e) => return Err(e),
            };
            values.push(v);
            i = i + 1;
        }
        Ok(values)
    }

    /// Reads three consecutive 64-bit floats.
    pub fn read_vec3d(reader: &mut ByteReader) -> (r: Result<[F64Bits; 3], HeliumError>)
        ensures
            final(reader).bytes == old(reader).bytes,
            outcome(r, spec_vec3d(old(reader).data(), old(reader).pos as int), final(reader).pos),
    {
        if !reader.has_remaining(24) {
            return Err(HeliumError::UnexpectedEof);
        }
        let ghost d = reader.data();
        let ghost p = reader.pos as int;
        let a = match Self::read_f64_le(reader) {
            Ok(v) => v,
            Err(e) => return Err(e),
        };
        let b = match Self::read_f64_le(reader) {
            Ok(v) => v,
            Err(e) => return Err(e),
        };
        let c = match Self::read_f64_le(reader) {
            Ok(v) => v,
            Err(e) => return Err(e),
        };
        let out = [a, b, c];
        proof {
            let expected = Seq::new(3, |i: int| F64Bits(le_u64(d.subrange(p + 8 * i, p + 8 * i + 8)) as u64));
            assert(out@ =~= expected);
        }
        Ok(out)
    }

    /// Reads a 4x4 matrix of 64-bit floats, row by row.
    pub fn read_mat4d(reader: &mut ByteReader) -> (r: Result<[[F64Bits; 4]; 4], HeliumError>)
        ensures
            final(reader).bytes == old(reader).bytes,
            match spec_mat4d(old(reader).data(), old(reader).pos as int) {
                Ok((m, q)) => r matches Ok(x) && mat4d_view(x) == m && final(reader).pos == q,
                Err((e, q)) => r matches Err(x) && x@ == e && final(reader).pos == q,
            },
    {
        if !reader.has_remaining(128) {
            return Err(HeliumError::UnexpectedEof);
        }
        let ghost d = reader.data();
        let ghost p = reader.pos as int;
        let mut matrix = [[F64Bits(0); 4]; 4];
        let mut row: usize = 0;
        while row < 4
            invariant
                0 <= row <= 4,
                reader.bytes == old(reader).bytes,
                d == reader.data(),
                p == old(reader).pos,
                reader.pos == p + 32 * row,
                p + 128 <= d.len(),
                forall|k: int| 0 <= k < row ==> #[trigger] matrix@[k]@ == row_values(d, p + 32 * k),
            decreases 4 - row,
        {
            let values = match Self::read_row4(reader) {
                Ok(v) => v,
                Err(e) => return Err(e),
            };
            matrix[row] = values;
            row = row + 1;
        }
        proof {
            let expected = Seq::new(
                4,
                |r: int|
                    Seq::new(
                        4,
                        |c: int| F64Bits(le_u64(d.subrange(p + 32 * r + 8 * c, p + 32 * r + 8 * c + 8)) as u64),
                    ),
            );
            assert forall|r: int| 0 <= r < 4 implies #[trigger] mat4d_view(matrix)[r] == expected[r] by {
                assert(matrix@[r]@ =~= expected[r]);
            }
            assert(mat4d_view(matrix) =~= expected);
        }
        Ok(matrix)
    }

    /// Reads one row of a matrix: four consecutive 64-bit floats.
    fn read_row4(reader: &mut ByteReader) -> (r: Result<[F64Bits; 4], HeliumError>)
        ensures
            final(reader).bytes == old(reader).bytes,
            match spec_take(old(reader).data(), old(reader).pos as int, 32) {
                Ok((_, q)) => r matches Ok(values) && values@ == row_values(
                    old(reader).data(),
                    old(reader).pos as int,
                ) && final(reader).pos == q,
                Err((_, q)) => r matches Err(e) && e is UnexpectedEof && final(reader).pos == q,
            },
    {
        if !reader.has_remaining(32) {
            return Err(HeliumError::UnexpectedEof);
        }
        let ghost d = reader.data();
        let ghost p = reader.pos as int;
        let mut values = [F64Bits(0); 4];
        let mut c: usize = 0;
        while c < 4
            invariant
                0 <= c <= 4,
                reader.bytes == old(reader).bytes,
                d == reader.data(),
                p == old(reader).pos,
                reader.pos == p + 8 * c,
                p + 32 <= d.len(),
                forall|k: int|
                    0 <= k < c ==> #[trigger] values@[k] == F64Bits(
                        le_u64(d.subrange(p + 8 * k, p + 8 * k + 8)) as u64,
                    ),
            decreases 4 - c,
        {
            let v = match Self::read_f64_le(reader) {
                Ok(v) => v,
                Err(e) => return Err(e),
            };
            values[c] = v;
            c = c + 1;
        }
        assert(values@ =~= row_values(d, p));
        Ok(values)
    }

    /// Reads the bytes `start..end` of the input, leaving the position at
    /// `end`.
    pub fn read_byte_range(reader: &mut ByteReader, start: u64, end: u64) -> (r: Result<
        Vec<u8>,
        HeliumError,
    >)
        ensures
            final(reader).bytes == old(reader).bytes,
            outcome(
                r,
                spec_byte_range(old(reader).data(), old(reader).pos as int, start, end),
                final(reader).pos,
            ),
    {
        if end < start {
            return Err(HeliumError::InvalidByteRange { start, end });
        }
        let length = end - start;
        if length > usize::MAX as u64 {
            return Err(HeliumError::ByteRangeTooLarge { start, end });
        }
        reader.seek(start);
        reader.read_exact(length as usize)
    }

    /// Converts a stream offset to an unsigned position, refusing negative
    /// offsets; `field` names the offset in the error.
    pub fn checked_offset(offset: i64, field: &'static str) -> (r: Result<u64, HeliumError>)
        ensures
            match spec_checked_offset(offset, field@) {
                Ok(v) => r == Ok::<u64, HeliumError>(v),
                Err(e) => r matches Err(x) && x@ == e,
            },
    {
        if offset < 0 {
            Err(HeliumError::NegativeStreamPosition { field, value: offset })
        } else {
            Ok(offset as u64)
        }
    }
}

} // verus!
