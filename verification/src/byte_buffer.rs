//! A cursor over bytes that reads big-endian integers and text.
use vstd::prelude::*;
use crate::text::{decode_utf16, decode_utf16_be, spec_utf8_lossy, utf16_be_units, utf8_lossy};

verus! {

/// Unsigned big-endian value of the four bytes of `d` starting at `i`.
pub open spec fn spec_u32_be(d: Seq<u8>, i: int) -> u32 {
    (d[i] as int * 0x1000000 + d[i + 1] as int * 0x10000 + d[i + 2] as int * 0x100
        + d[i + 3] as int) as u32
}

/// Unsigned big-endian value of the eight bytes of `d` starting at `i`.
pub open spec fn spec_u64_be(d: Seq<u8>, i: int) -> u64 {
    (spec_u32_be(d, i) as int * 0x1_0000_0000 + spec_u32_be(d, i + 4) as int) as u64
}

/// Whether a read of `n` bytes at cursor `pos` succeeds in a buffer of `len` bytes.
/// A read of nothing always succeeds, even past the end.
pub open spec fn can_read(len: int, pos: int, n: int) -> bool {
    n == 0 || pos + n <= len
}

/// Errors of the reads of a [`ByteBuffer`].
#[derive(Debug, Clone, Copy, PartialEq, Eq, Structural)]
pub enum BufferError {
    /// Fewer bytes remain than the read asks for.
    UnexpectedEof,
    /// A UTF-16 read was asked for an odd number of bytes.
    OddLength,
    /// The bytes read are not valid UTF-16.
    InvalidUtf16,
}

/// A cursor over an owned byte vector.
///
/// A read that asks for more bytes than remain fails and leaves the cursor at the end of
/// the bytes; a successful read moves the cursor past what it read.
pub struct ByteBuffer {
    data: Vec<u8>,
    pos: u64,
}

impl ByteBuffer {
    /// The bytes the buffer reads from.
    pub closed spec fn bytes(&self) -> Seq<u8> {
        self.data@
    }

    /// The cursor position (it may lie past the end of the bytes).
    pub closed spec fn position(&self) -> u64 {
        self.pos
    }

    /// Whether a read of `n` bytes succeeds from the current position.
    pub open spec fn can_read(&self, n: int) -> bool {
        can_read(self.bytes().len() as int, self.position() as int, n)
    }

    /// The `n` bytes at the cursor.
    pub open spec fn next_bytes(&self, n: int) -> Seq<u8> {
        if n == 0 {
            Seq::empty()
        } else {
            self.bytes().subrange(self.position() as int, self.position() + n)
        }
    }

    /// What a read of `n` bytes leaves behind: the cursor past the bytes on success, at
    /// the end of the buffer on failure.
    pub open spec fn after_read(&self, next: &ByteBuffer, n: int) -> bool {
        &&& next.bytes() == self.bytes()
        &&& self.can_read(n) ==> next.position() == self.position() + n
        &&& !self.can_read(n) ==> next.position() == self.bytes().len()
    }

    /// Creates a buffer over `data` with its cursor at the start.
    pub fn new(data: Vec<u8>) -> (res: Self)
        ensures
            res.bytes() == data@,
            res.position() == 0,
    {
        ByteBuffer { data, pos: 0 }
    }

    /// The number of bytes the buffer reads from.
    pub fn data_len(&self) -> (res: usize)
        ensures
            res == self.bytes().len(),
    {
        self.data.len()
    }

    /// The current position of the cursor.
    pub fn byte_offset(&self) -> (res: u64)
        ensures
            res == self.position(),
    {
        self.pos
    }

    /// The number of bytes after the cursor, truncated to 32 bits.
    pub fn bytes_remaining(&self) -> (res: u32)
        requires
            self.position() <= self.bytes().len(),
        ensures
            res == (self.bytes().len() - self.position()) as u32,
    {
        (self.data.len() as u64 - self.pos) as u32
    }

    /// Reads `n` bytes.
    fn read_exact(&mut self, n: usize) -> (res: Result<Vec<u8>, BufferError>)
        ensures
            old(self).after_read(final(self), n as int),
            old(self).can_read(n as int) ==> res is Ok && res->Ok_0@ == old(self).next_bytes(
                n as int,
            ),
            !old(self).can_read(n as int) ==> res == Err::<Vec<u8>, BufferError>(
                BufferError::UnexpectedEof,
            ),
    {
        let len = self.data.len();
        if n == 0 {
            let v: Vec<u8> = Vec::new();
            assert(v@ =~= old(self).next_bytes(0));
            return Ok(v);
        }
        if self.pos <= len as u64 && n as u64 <= len as u64 - self.pos {
            let p = self.pos as usize;
            let mut v: Vec<u8> = Vec::new();
            let mut i: usize = 0;
            while i < n
                invariant
                    i <= n,
                    p + n <= len,
                    len == self.data@.len(),
                    v@ =~= self.data@.subrange(p as int, p + i),
                decreases n - i,
            {
                v.push(self.data[p + i]);
                i = i + 1;
            }
            self.pos = self.pos + n as u64;
            Ok(v)
        } else {
            self.pos = len as u64;
            Err(BufferError::UnexpectedEof)
        }
    }

    /// Reads `length` bytes as text, replacing invalid UTF-8 with U+FFFD.
    pub fn read_string(&mut self, length: usize) -> (res: Result<String, BufferError>)
        ensures
            old(self).after_read(final(self), length as int),
            old(self).can_read(length as int) ==> res is Ok && res->Ok_0@ == spec_utf8_lossy(
                old(self).next_bytes(length as int),
            ),
            !old(self).can_read(length as int) ==> res == Err::<String, BufferError>(
                BufferError::UnexpectedEof,
            ),
    {
        let bytes = self.read_exact(length)?;
        Ok(utf8_lossy(bytes.as_slice()))
    }

    /// Reads `length` bytes as text, replacing invalid UTF-8 with U+FFFD.
    pub fn read_string_ascii(&mut self, length: usize) -> (res: Result<String, BufferError>)
        ensures
            old(self).after_read(final(self), length as int),
            old(self).can_read(length as int) ==> res is Ok && res->Ok_0@ == spec_utf8_lossy(
                old(self).next_bytes(length as int),
            ),
            !old(self).can_read(length as int) ==> res == Err::<String, BufferError>(
                BufferError::UnexpectedEof,
            ),
    {
        let bytes = self.read_exact(length)?;
        Ok(utf8_lossy(bytes.as_slice()))
    }

    /// Reads `length` bytes as big-endian UTF-16 text.
    pub fn read_string_utf16_be(&mut self, length: usize) -> (res: Result<String, BufferError>)
        ensures
            length % 2 != 0 ==> res == Err::<String, BufferError>(BufferError::OddLength),
            length % 2 != 0 ==> final(self).bytes() == old(self).bytes(),
            length % 2 != 0 ==> final(self).position() == old(self).position(),
            length % 2 == 0 ==> old(self).after_read(final(self), length as int),
            length % 2 == 0 && !old(self).can_read(length as int) ==> res == Err::<
                String,
                BufferError,
            >(BufferError::UnexpectedEof),
            length % 2 == 0 && old(self).can_read(length as int) ==> match decode_utf16(
                utf16_be_units(old(self).next_bytes(length as int)),
            ) {
                Some(text) => res is Ok && res->Ok_0@ == text,
                None => res == Err::<String, BufferError>(BufferError::InvalidUtf16),
            },
    {
        if length % 2 != 0 {
            return Err(BufferError::OddLength);
        }
        let bytes = self.read_exact(length)?;
        assert(bytes@.len() == length);
        match decode_utf16_be(bytes.as_slice()) {
            Some(s) => Ok(s),
            None => Err(BufferError::InvalidUtf16),
        }
    }

    /// Reads four bytes as a big-endian `u32`.
    pub fn read_uint32(&mut self) -> (res: Result<u32, BufferError>)
        ensures
            old(self).after_read(final(self), 4),
            old(self).can_read(4) ==> res == Ok::<u32, BufferError>(
                spec_u32_be(old(self).bytes(), old(self).position() as int),
            ),
            !old(self).can_read(4) ==> res == Err::<u32, BufferError>(BufferError::UnexpectedEof),
    {
        let len = self.data.len();
        if self.pos <= len as u64 && 4 <= len as u64 - self.pos {
            let p = self.pos as usize;
            let v = (self.data[p] as u32) * 0x1000000 + (self.data[p + 1] as u32) * 0x10000
                + (self.data[p + 2] as u32) * 0x100 + (self.data[p + 3] as u32);
            self.pos = self.pos + 4;
            Ok(v)
        } else {
            self.pos = len as u64;
            Err(BufferError::UnexpectedEof)
        }
    }

    /// Reads eight bytes as a big-endian `u64`.
    pub fn read_uint64(&mut self) -> (res: Result<u64, BufferError>)
        ensures
            old(self).after_read(final(self), 8),
            old(self).can_read(8) ==> res == Ok::<u64, BufferError>(
                spec_u64_be(old(self).bytes(), old(self).position() as int),
            ),
            !old(self).can_read(8) ==> res == Err::<u64, BufferError>(BufferError::UnexpectedEof),
    {
        let len = self.data.len();
        if self.pos <= len as u64 && 8 <= len as u64 - self.pos {
            let p = self.pos as usize;
            let hi = (self.data[p] as u32) * 0x1000000 + (self.data[p + 1] as u32) * 0x10000
                + (self.data[p + 2] as u32) * 0x100 + (self.data[p + 3] as u32);
            let lo = (self.data[p + 4] as u32) * 0x1000000 + (self.data[p + 5] as u32) * 0x10000
                + (self.data[p + 6] as u32) * 0x100 + (self.data[p + 7] as u32);
            let v = (hi as u64) * 0x1_0000_0000 + (lo as u64);
            self.pos = self.pos + 8;
            Ok(v)
        } else {
            self.pos = len as u64;
            Err(BufferError::UnexpectedEof)
        }
    }

    /// Reads one byte.
    pub fn read_uint8(&mut self) -> (res: Result<u8, BufferError>)
        ensures
            old(self).after_read(final(self), 1),
            old(self).can_read(1) ==> res == Ok::<u8, BufferError>(
                old(self).bytes()[old(self).position() as int],
            ),
            !old(self).can_read(1) ==> res == Err::<u8, BufferError>(BufferError::UnexpectedEof),
    {
        let len = self.data.len();
        if self.pos < len as u64 {
            let b = self.data[self.pos as usize];
            self.pos = self.pos + 1;
            Ok(b)
        } else {
            self.pos = len as u64;
            Err(BufferError::UnexpectedEof)
        }
    }

    /// Reads `data_length` bytes.
    pub fn read_uint8_array(&mut self, data_length: usize) -> (res: Result<Vec<u8>, BufferError>)
        ensures
            old(self).after_read(final(self), data_length as int),
            old(self).can_read(data_length as int) ==> res is Ok && res->Ok_0@ == old(
                self,
            ).next_bytes(data_length as int),
            !old(self).can_read(data_length as int) ==> res == Err::<Vec<u8>, BufferError>(
                BufferError::UnexpectedEof,
            ),
    {
        self.read_exact(data_length)
    }

    /// Moves the cursor back to the start.
    pub fn reset(&mut self)
        ensures
            final(self).bytes() == old(self).bytes(),
            final(self).position() == 0,
    {
        self.pos = 0;
    }

    /// Moves the cursor forward by `next_cursor` bytes (possibly past the end).
    pub fn skip(&mut self, next_cursor: u64)
        requires
            old(self).position() + next_cursor <= u64::MAX,
        ensures
            final(self).bytes() == old(self).bytes(),
            final(self).position() == old(self).position() + next_cursor,
    {
        self.pos = self.pos + next_cursor;
    }
}

} // verus!
