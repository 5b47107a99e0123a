use vstd::prelude::*;

use crate::reader::error::HeliumError;

verus! {

/// A read position over an in-memory byte buffer: what the parsers read
/// from. As with a seekable stream, the position may be set past the end of
/// the data; reading there fails with [`HeliumError::UnexpectedEof`].
pub struct ByteReader<'a> {
    pub bytes: &'a [u8],
    pub pos: u64,
}

/// The `n` bytes of `data` at `pos`, and the position after them; an
/// end-of-input error where fewer than `n` bytes are left, which leaves the
/// position at `pos`. Taking no bytes always succeeds, also past the end.
pub open spec fn spec_take(data: Seq<u8>, pos: int, n: int) -> Result<
    (Seq<u8>, int),
    crate::reader::error::Failure,
> {
    if n == 0 {
        Ok((Seq::empty(), pos))
    } else if 0 <= pos && 0 < n && pos + n <= data.len() {
        Ok((data.subrange(pos, pos + n), pos + n))
    } else {
        Err((crate::reader::error::ErrorView::UnexpectedEof, pos))
    }
}

impl<'a> ByteReader<'a> {
    /// The bytes being read.
    pub open spec fn data(&self) -> Seq<u8> {
        self.bytes@
    }

    /// A reader at the start of `bytes`.
    pub fn new(bytes: &'a [u8]) -> (r: Self)
        ensures
            r.data() == bytes@,
            r.pos == 0,
    {
        ByteReader { bytes, pos: 0 }
    }

    /// The number of bytes in the buffer.
    pub fn len(&self) -> (n: u64)
        ensures
            n == self.data().len(),
    {
        self.bytes.len() as u64
    }

    /// The current read position.
    pub fn stream_position(&self) -> (p: u64)
        ensures
            p == self.pos,
    {
        self.pos
    }

    /// Moves the read position to `pos` (which may lie past the end).
    pub fn seek(&mut self, pos: u64)
        ensures
            final(self).bytes == old(self).bytes,
            final(self).pos == pos,
    {
        self.pos = pos;
    }

    /// Whether `n` more bytes can be read from the current position.
    pub fn has_remaining(&self, n: u64) -> (b: bool)
        ensures
            b == (self.pos + n <= self.data().len()),
    {
        let len = self.bytes.len() as u64;
        self.pos <= len && n <= len - self.pos
    }

    /// Reads one byte.
    pub fn read_byte(&mut self) -> (r: Result<u8, HeliumError>)
        ensures
            final(self).bytes == old(self).bytes,
            match spec_take(old(self).data(), old(self).pos as int, 1) {
                Ok((s, q)) => r == Ok::<u8, HeliumError>(s[0]) && final(self).pos == q,
                Err((_, q)) => r matches Err(e) && e is UnexpectedEof && final(self).pos == q,
            },
    {
        if !self.has_remaining(1) {
            return Err(HeliumError::UnexpectedEof);
        }
        let b = self.bytes[self.pos as usize];
        self.pos = self.pos + 1;
        Ok(b)
    }

    /// Reads the next `n` bytes into a new vector.
    pub fn read_exact(&mut self, n: usize) -> (r: Result<Vec<u8>, HeliumError>)
        ensures
            final(self).bytes == old(self).bytes,
            match spec_take(old(self).data(), old(self).pos as int, n as int) {
                Ok((s, q)) => r matches Ok(v) && v@ == s && final(self).pos == q,
                Err((_, q)) => r matches Err(e) && e is UnexpectedEof && final(self).pos == q,
            },
    {
        if n == 0 {
            return Ok(Vec::new());
        }
        if !self.has_remaining(n as u64) {
            return Err(HeliumError::UnexpectedEof);
        }
        let len = self.bytes.len();
        assert(self.pos <= len);
        let start = self.pos as usize;
        let mut out: Vec<u8> = Vec::new();
        let mut i: usize = 0;
        while i < n
            invariant
                0 <= i <= n,
                start + n <= self.bytes@.len(),
                self.pos == start,
                len == self.bytes@.len(),
                self.bytes == old(self).bytes,
                out@ == self.bytes@.subrange(start as int, start + i),
            decreases n - i,
        {
            out.push(self.bytes[start + i]);
            i = i + 1;
            assert(out@ =~= self.bytes@.subrange(start as int, start + i));
        }
        self.pos = self.pos + n as u64;
        Ok(out)
    }
}

} // verus!
