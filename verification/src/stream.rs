//! A seekable, read-only byte stream held in memory.

use vstd::prelude::*;
use crate::RootIoError;
use crate::endian::{be16, be32, be64, be_u16, be_u32, be_u64};

verus! {

/// The error of a read that asks for more bytes than the stream has left.
///
/// Builds a `std::io::Error` of kind `UnexpectedEof`; nothing is claimed of it.
#[verifier::external_body]
fn short_read() -> std::io::Error {
    std::io::Error::from(std::io::ErrorKind::UnexpectedEof)
}

/// The bytes that a reader bounded to `limit` bytes yields from offset `start`
/// of `data`: those from `start` on, up to the bound or to the end of `data`,
/// whichever comes first.
pub open spec fn window(data: Seq<u8>, start: int, limit: int) -> Seq<u8> {
    let lo = if start < 0 {
        0
    } else if start > data.len() {
        data.len() as int
    } else {
        start
    };
    let hi = if start + limit < lo {
        lo
    } else if start + limit > data.len() {
        data.len() as int
    } else {
        start + limit
    };
    data.subrange(lo, hi)
}

/// How many bytes of `data` lie at or after offset `at`.
pub open spec fn left_at(data: Seq<u8>, at: int) -> int {
    if at <= data.len() {
        data.len() - at
    } else {
        0
    }
}

/// An immutable run of bytes with a read position.
///
/// The position may lie beyond the last byte: seeking never fails, and a read
/// from such a position finds nothing left.
#[derive(Debug)]
pub struct ByteStream {
    data: Vec<u8>,
    pos: u64,
}

impl ByteStream {
    /// All bytes of the stream, from its very start.
    pub closed spec fn bytes(&self) -> Seq<u8> {
        self.data@
    }

    /// The read position, counted from the start of the stream.
    pub closed spec fn offset(&self) -> nat {
        self.pos as nat
    }

    /// How many bytes lie at or after the read position.
    pub open spec fn remaining(&self) -> int {
        left_at(self.bytes(), self.offset() as int)
    }

    /// A stream over `data`, positioned at its first byte.
    pub fn new(data: Vec<u8>) -> (s: Self)
        ensures
            s.bytes() == data@,
            s.offset() == 0,
    {
        ByteStream { data, pos: 0 }
    }

    /// Moves the read position to `pos`, counted from the start.
    pub fn seek(&mut self, pos: u64)
        ensures
            final(self).bytes() == old(self).bytes(),
            final(self).offset() == pos,
    {
        self.pos = pos;
    }

    /// The current read position.
    pub fn position(&self) -> (p: u64)
        ensures
            p == self.offset(),
    {
        self.pos
    }

    /// How many bytes lie at or after the read position.
    pub fn left(&self) -> (n: usize)
        ensures
            n == self.remaining(),
    {
        let len = self.data.len();
        if self.pos <= len as u64 {
            len - self.pos as usize
        } else {
            0
        }
    }

    /// Reads exactly `n` bytes and moves the position past them.
    ///
    /// When fewer than `n` bytes are left the read fails with an I/O error and
    /// the stream stays as it was.
    pub fn read_exact(&mut self, n: usize) -> (r: Result<Vec<u8>, RootIoError>)
        ensures
            final(self).bytes() == old(self).bytes(),
            match r {
                Ok(v) => {
                    &&& n <= old(self).remaining()
                    &&& v@ == window(old(self).bytes(), old(self).offset() as int, n as int)
                    &&& final(self).offset() == old(self).offset() + n
                },
                Err(e) => {
                    &&& n > old(self).remaining()
                    &&& e is IOError
                    &&& final(self).offset() == old(self).offset()
                },
            },
    {
        let left = self.left();
        if n > left {
            return Err(RootIoError::IOError(short_read()));
        }
        let start = self.data.len() - left;
        let out = vstd::slice::slice_to_vec(
            vstd::slice::slice_subrange(self.data.as_slice(), start, start + n),
        );
        self.pos = self.pos + n as u64;
        Ok(out)
    }

    /// Reads up to `limit` bytes, as many as the stream has left within that
    /// bound, and moves the position past them. This cannot fail.
    pub fn take(&mut self, limit: u64) -> (v: Vec<u8>)
        ensures
            final(self).bytes() == old(self).bytes(),
            v@ == window(old(self).bytes(), old(self).offset() as int, limit as int),
            final(self).offset() == old(self).offset() + v@.len(),
    {
        let left = self.left();
        let n = if limit < left as u64 {
            limit as usize
        } else {
            left
        };
        let start = self.data.len() - left;
        let out = vstd::slice::slice_to_vec(
            vstd::slice::slice_subrange(self.data.as_slice(), start, start + n),
        );
        self.pos = self.pos + n as u64;
        out
    }

    /// A stream never holds more bytes than memory can address.
    pub proof fn lemma_len_fits(&self)
        ensures
            self.bytes().len() <= usize::MAX,
    {
        assert(self.data@.len() == self.data.len());
    }

    /// Reads one byte.
    pub fn read_u8(&mut self) -> (r: Result<u8, RootIoError>)
        ensures
            final(self).bytes() == old(self).bytes(),
            match r {
                Ok(v) => {
                    &&& 1 <= old(self).remaining()
                    &&& v == old(self).bytes()[old(self).offset() as int]
                    &&& final(self).offset() == old(self).offset() + 1
                },
                Err(e) => {
                    &&& 1 > old(self).remaining()
                    &&& e is IOError
                    &&& final(self).offset() == old(self).offset()
                },
            },
    {
        let buf = self.read_exact(1)?;
        Ok(buf[0])
    }

    /// Reads a big-endian unsigned 16-bit integer.
    pub fn read_u16(&mut self) -> (r: Result<u16, RootIoError>)
        ensures
            final(self).bytes() == old(self).bytes(),
            match r {
                Ok(v) => {
                    &&& 2 <= old(self).remaining()
                    &&& v == be16(old(self).bytes(), old(self).offset() as int)
                    &&& final(self).offset() == old(self).offset() + 2
                },
                Err(e) => {
                    &&& 2 > old(self).remaining()
                    &&& e is IOError
                    &&& final(self).offset() == old(self).offset()
                },
            },
    {
        let buf = self.read_exact(2)?;
        Ok(be_u16(buf.as_slice()))
    }

    /// Reads a big-endian unsigned 32-bit integer.
    pub fn read_u32(&mut self) -> (r: Result<u32, RootIoError>)
        ensures
            final(self).bytes() == old(self).bytes(),
            match r {
                Ok(v) => {
                    &&& 4 <= old(self).remaining()
                    &&& v == be32(old(self).bytes(), old(self).offset() as int)
                    &&& final(self).offset() == old(self).offset() + 4
                },
                Err(e) => {
                    &&& 4 > old(self).remaining()
                    &&& e is IOError
                    &&& final(self).offset() == old(self).offset()
                },
            },
    {
        let buf = self.read_exact(4)?;
        Ok(be_u32(buf.as_slice()))
    }

    /// Reads a big-endian unsigned 64-bit integer.
    pub fn read_u64(&mut self) -> (r: Result<u64, RootIoError>)
        ensures
            final(self).bytes() == old(self).bytes(),
            match r {
                Ok(v) => {
                    &&& 8 <= old(self).remaining()
                    &&& v == be64(old(self).bytes(), old(self).offset() as int)
                    &&& final(self).offset() == old(self).offset() + 8
                },
                Err(e) => {
                    &&& 8 > old(self).remaining()
                    &&& e is IOError
                    &&& final(self).offset() == old(self).offset()
                },
            },
    {
        let buf = self.read_exact(8)?;
        Ok(be_u64(buf.as_slice()))
    }
}

} // verus!
