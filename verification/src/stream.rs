//! A seekable, readable view of a byte buffer.

use vstd::prelude::*;
use vstd::slice::{slice_subrange, slice_to_vec};
use byteorder::ByteOrder;
use crate::Error;

verus! {

/// The number that four little-endian bytes hold.
pub open spec fn spec_u32_from_le(bytes: Seq<u8>) -> u32 {
    (bytes[0] + 0x100 * bytes[1] + 0x1_0000 * bytes[2] + 0x100_0000 * bytes[3]) as u32
}

/// The number that eight little-endian bytes hold.
pub open spec fn spec_u64_from_le(bytes: Seq<u8>) -> u64 {
    (spec_u32_from_le(bytes.subrange(0, 4)) + 0x1_0000_0000 * spec_u32_from_le(
        bytes.subrange(4, 8),
    )) as u64
}

/// The four little-endian bytes of a number.
pub open spec fn spec_u32_to_le(x: u32) -> Seq<u8> {
    seq![
        (x % 0x100) as u8,
        (x / 0x100 % 0x100) as u8,
        (x / 0x1_0000 % 0x100) as u8,
        (x / 0x100_0000) as u8,
    ]
}

/// The four little-endian bytes of a number hold that number.
pub proof fn lemma_u32_le_round_trip(x: u32)
    ensures
        spec_u32_to_le(x).len() == 4,
        spec_u32_from_le(spec_u32_to_le(x)) == x,
{
}

/// The four little-endian bytes of a number.
pub fn u32_to_le(x: u32) -> (r: Vec<u8>)
    ensures
        r@ == spec_u32_to_le(x),
{
    let mut r: Vec<u8> = Vec::new();
    r.push((x % 0x100) as u8);
    r.push((x / 0x100 % 0x100) as u8);
    r.push((x / 0x1_0000 % 0x100) as u8);
    r.push((x / 0x100_0000) as u8);
    assert(r@ =~= spec_u32_to_le(x));
    r
}

/// A byte buffer with a read position. The position may lie beyond the end
/// of the buffer; reading there fails.
pub struct ByteStream {
    pub data: Vec<u8>,
    pub pos: u64,
}

impl ByteStream {
    /// Whether `n` bytes can be read at the current position.
    pub open spec fn can_read(&self, n: int) -> bool {
        self.pos + n <= self.data@.len()
    }

    /// The next `n` bytes at the current position.
    pub open spec fn peek(&self, n: int) -> Seq<u8> {
        self.data@.subrange(self.pos as int, self.pos + n)
    }

    /// A stream over `data`, positioned at its start.
    pub fn new(data: Vec<u8>) -> (s: Self)
        ensures
            s.data == data,
            s.pos == 0,
    {
        ByteStream { data, pos: 0 }
    }

    /// The number of bytes in the buffer.
    pub fn len(&self) -> (n: usize)
        ensures
            n == self.data@.len(),
    {
        self.data.len()
    }

    /// The length of the buffer fits a machine word.
    pub proof fn lemma_len_fits(&self)
        ensures
            self.data@.len() <= usize::MAX,
    {
        assert(self.data@.len() == self.data.len());
    }

    /// Moves the read position to an absolute offset.
    pub fn seek(&mut self, pos: u64)
        ensures
            final(self).data == old(self).data,
            final(self).pos == pos,
    {
        self.pos = pos;
    }

    /// Moves the read position back to the start.
    pub fn rewind(&mut self)
        ensures
            final(self).data == old(self).data,
            final(self).pos == 0,
    {
        self.pos = 0;
    }

    /// Reads exactly `n` bytes and advances past them, or fails with
    /// `Error::Io` and leaves the position where it was.
    pub fn read_exact(&mut self, n: usize) -> (r: Result<Vec<u8>, Error>)
        ensures
            final(self).data == old(self).data,
            match r {
                Ok(v) => old(self).can_read(n as int) && v@ == old(self).peek(n as int)
                    && final(self).pos == old(self).pos + n,
                Err(e) => e == Error::Io && !old(self).can_read(n as int) && final(self).pos
                    == old(self).pos,
            },
    {
        let len: usize = self.data.len();
        if self.pos > len as u64 || n > len - (self.pos as usize) {
            return Err(Error::Io);
        }
        let start: usize = self.pos as usize;
        let v = slice_to_vec(slice_subrange(self.data.as_slice(), start, start + n));
        self.pos = self.pos + n as u64;
        Ok(v)
    }
}

impl ByteStream {
    /// Reads `n` blocks of `size` bytes each and advances past them, or
    /// fails with `Error::Io` and leaves the position where it was.
    pub fn read_blocks(&mut self, n: usize, size: usize) -> (r: Result<Vec<u8>, Error>)
        ensures
            final(self).data == old(self).data,
            match r {
                Ok(v) => old(self).can_read(n * size) && v@ == old(self).peek(n * size)
                    && final(self).pos == old(self).pos + n * size,
                Err(e) => e == Error::Io && !old(self).can_read(n * size) && final(self).pos
                    == old(self).pos,
            },
    {
        match n.checked_mul(size) {
            None => {
                proof {
                    self.lemma_len_fits();
                }
                Err(Error::Io)
            },
            Some(total) => {
                assert(total == n * size);
                self.read_exact(total)
            },
        }
    }

    /// Reads a little-endian `u32` at the current position.
    pub fn read_u32_le(&mut self) -> (r: Result<u32, Error>)
        ensures
            final(self).data == old(self).data,
            match r {
                Ok(x) => old(self).can_read(4) && x == spec_u32_from_le(old(self).peek(4))
                    && final(self).pos == old(self).pos + 4,
                Err(e) => e == Error::Io && !old(self).can_read(4) && final(self).pos == old(self).pos,
            },
    {
        match self.read_exact(4) {
            Ok(v) => Ok(le_u32(v.as_slice())),
            Err(e) => Err(e),
        }
    }

    /// Reads a little-endian `u64` at the current position.
    pub fn read_u64_le(&mut self) -> (r: Result<u64, Error>)
        ensures
            final(self).data == old(self).data,
            match r {
                Ok(x) => old(self).can_read(8) && x == spec_u64_from_le(old(self).peek(8))
                    && final(self).pos == old(self).pos + 8,
                Err(e) => e == Error::Io && !old(self).can_read(8) && final(self).pos == old(self).pos,
            },
    {
        match self.read_exact(8) {
            Ok(v) => Ok(le_u64(v.as_slice())),
            Err(e) => Err(e),
        }
    }
}

/// `byteorder::LittleEndian::read_u32`. Trusted: the four bytes are read as
/// a little-endian integer.
#[verifier::external_body]
pub(crate) fn le_u32(buf: &[u8]) -> (x: u32)
    requires
        buf@.len() == 4,
    ensures
        x == spec_u32_from_le(buf@),
{
    byteorder::LittleEndian::read_u32(buf)
}

/// `byteorder::LittleEndian::read_u64`. Trusted: the eight bytes are read as
/// a little-endian integer.
#[verifier::external_body]
pub(crate) fn le_u64(buf: &[u8]) -> (x: u64)
    requires
        buf@.len() == 8,
    ensures
        x == spec_u64_from_le(buf@),
{
    byteorder::LittleEndian::read_u64(buf)
}

} // verus!
