use crate::error::DecodeError;
use vstd::prelude::*;

verus! {

/// Big-endian value of the two bytes of `b` starting at `i`.
pub open spec fn be16(b: Seq<u8>, i: int) -> u16
    recommends
        0 <= i,
        i + 2 <= b.len(),
{
    (b[i] as nat * 0x100 + b[i + 1] as nat) as u16
}

/// Big-endian value of the four bytes of `b` starting at `i`.
pub open spec fn be32(b: Seq<u8>, i: int) -> u32
    recommends
        0 <= i,
        i + 4 <= b.len(),
{
    (be16(b, i) as nat * 0x10000 + be16(b, i + 2) as nat) as u32
}

/// Big-endian value of the eight bytes of `b` starting at `i`.
pub open spec fn be64(b: Seq<u8>, i: int) -> u64
    recommends
        0 <= i,
        i + 8 <= b.len(),
{
    (be32(b, i) as nat * 0x1_0000_0000 + be32(b, i + 4) as nat) as u64
}

/// Relates a decode result over a buffer to the result of the same
/// decode over the buffer's truncation at `k`: the truncated decode
/// either agrees exactly with the full one (ending at or before `k`), or
/// fails with `TruncatedStream`. Every decoder of this crate preserves
/// this relation, which is what makes truncation always surface as
/// `TruncatedStream` and never as a wrong value or another failure kind.
pub open spec fn take_outcome<T>(
    full: Result<(T, int), DecodeError>,
    truncated: Result<(T, int), DecodeError>,
    k: int,
) -> bool {
    match full {
        Ok((v, e)) => (truncated == Ok::<(T, int), DecodeError>((v, e)) && e <= k) || truncated
            == Err::<(T, int), DecodeError>(DecodeError::TruncatedStream),
        Err(_) => true,
    }
}

/// Positioned big-endian reader over an owned byte buffer: the shared
/// primitive that every decode routine drives. It enforces no format
/// semantics, only byte-accounting safety: each read either consumes
/// exactly its width or fails with `TruncatedStream` and leaves the
/// position where it was.
///
/// The position may be set past the end of the buffer (forward fencing
/// over length-prefixed regions relies on that); every read is bounds
/// checked against the buffer on its own.
pub struct ByteCursor {
    pub buf: Vec<u8>,
    pub pos: usize,
}

impl ByteCursor {
    /// Wraps a buffer with the read position at its start.
    pub fn new(buf: Vec<u8>) -> (c: ByteCursor)
        ensures
            c.buf == buf,
            c.pos == 0,
    {
        ByteCursor { buf, pos: 0 }
    }

    /// Reports the current read position.
    pub fn position(&self) -> (p: usize)
        ensures
            p == self.pos,
    {
        self.pos
    }

    /// Moves the read position to an absolute offset.
    pub fn set_position(&mut self, p: usize)
        ensures
            final(self).buf == old(self).buf,
            final(self).pos == p,
    {
        self.pos = p;
    }

    /// Reports the total length of the underlying buffer.
    pub fn total_len(&self) -> (n: usize)
        ensures
            n == self.buf@.len(),
    {
        self.buf.len()
    }

    /// Reads one byte and advances past it.
    pub fn read_u8(&mut self) -> (r: Result<u8, DecodeError>)
        ensures
            final(self).buf == old(self).buf,
            match r {
                Ok(v) => old(self).pos + 1 <= old(self).buf@.len() && v == old(self).buf@[old(
                    self,
                ).pos as int] && final(self).pos == old(self).pos + 1,
                Err(e) => e == DecodeError::TruncatedStream && old(self).pos + 1 > old(
                    self,
                ).buf@.len() && final(self).pos == old(self).pos,
            },
    {
        if self.pos < self.buf.len() {
            let v = self.buf[self.pos];
            self.pos = self.pos + 1;
            Ok(v)
        } else {
            Err(DecodeError::TruncatedStream)
        }
    }

    /// Reads a big-endian 16-bit unsigned integer.
    pub fn read_u16(&mut self) -> (r: Result<u16, DecodeError>)
        ensures
            final(self).buf == old(self).buf,
            match r {
                Ok(v) => old(self).pos + 2 <= old(self).buf@.len() && v == be16(
                    old(self).buf@,
                    old(self).pos as int,
                ) && final(self).pos == old(self).pos + 2,
                Err(e) => e == DecodeError::TruncatedStream && old(self).pos + 2 > old(
                    self,
                ).buf@.len() && final(self).pos == old(self).pos,
            },
    {
        if self.pos <= self.buf.len() && self.buf.len() - self.pos >= 2 {
            let hi = self.buf[self.pos];
            let lo = self.buf[self.pos + 1];
            self.pos = self.pos + 2;
            Ok((hi as u16) * 0x100 + (lo as u16))
        } else {
            Err(DecodeError::TruncatedStream)
        }
    }

    /// Reads a big-endian 32-bit unsigned integer.
    pub fn read_u32(&mut self) -> (r: Result<u32, DecodeError>)
        ensures
            final(self).buf == old(self).buf,
            match r {
                Ok(v) => old(self).pos + 4 <= old(self).buf@.len() && v == be32(
                    old(self).buf@,
                    old(self).pos as int,
                ) && final(self).pos == old(self).pos + 4,
                Err(e) => e == DecodeError::TruncatedStream && old(self).pos + 4 > old(
                    self,
                ).buf@.len() && final(self).pos == old(self).pos,
            },
    {
        if self.pos <= self.buf.len() && self.buf.len() - self.pos >= 4 {
            let b0 = self.buf[self.pos];
            let b1 = self.buf[self.pos + 1];
            let b2 = self.buf[self.pos + 2];
            let b3 = self.buf[self.pos + 3];
            self.pos = self.pos + 4;
            let hi: u16 = (b0 as u16) * 0x100 + (b1 as u16);
            let lo: u16 = (b2 as u16) * 0x100 + (b3 as u16);
            Ok((hi as u32) * 0x10000 + (lo as u32))
        } else {
            Err(DecodeError::TruncatedStream)
        }
    }

    /// Reads a big-endian 64-bit unsigned integer.
    pub fn read_u64(&mut self) -> (r: Result<u64, DecodeError>)
        ensures
            final(self).buf == old(self).buf,
            match r {
                Ok(v) => old(self).pos + 8 <= old(self).buf@.len() && v == be64(
                    old(self).buf@,
                    old(self).pos as int,
                ) && final(self).pos == old(self).pos + 8,
                Err(e) => e == DecodeError::TruncatedStream && old(self).pos + 8 > old(
                    self,
                ).buf@.len() && final(self).pos == old(self).pos,
            },
    {
        if self.pos <= self.buf.len() && self.buf.len() - self.pos >= 8 {
            let hi = match self.read_u32() {
                Ok(v) => v,
                Err(e) => {
                    return Err(e);
                },
            };
            let lo = match self.read_u32() {
                Ok(v) => v,
                Err(e) => {
                    return Err(e);
                },
            };
            Ok((hi as u64) * 0x1_0000_0000 + (lo as u64))
        } else {
            Err(DecodeError::TruncatedStream)
        }
    }

    /// Reads a big-endian 32-bit two's-complement integer.
    pub fn read_i32(&mut self) -> (r: Result<i32, DecodeError>)
        ensures
            final(self).buf == old(self).buf,
            match r {
                Ok(v) => old(self).pos + 4 <= old(self).buf@.len() && v == be32(
                    old(self).buf@,
                    old(self).pos as int,
                ) as i32 && final(self).pos == old(self).pos + 4,
                Err(e) => e == DecodeError::TruncatedStream && old(self).pos + 4 > old(
                    self,
                ).buf@.len() && final(self).pos == old(self).pos,
            },
    {
        match self.read_u32() {
            Ok(v) => Ok(v as i32),
            Err(e) => Err(e),
        }
    }

    /// Reads a big-endian 64-bit two's-complement integer.
    pub fn read_i64(&mut self) -> (r: Result<i64, DecodeError>)
        ensures
            final(self).buf == old(self).buf,
            match r {
                Ok(v) => old(self).pos + 8 <= old(self).buf@.len() && v == be64(
                    old(self).buf@,
                    old(self).pos as int,
                ) as i64 && final(self).pos == old(self).pos + 8,
                Err(e) => e == DecodeError::TruncatedStream && old(self).pos + 8 > old(
                    self,
                ).buf@.len() && final(self).pos == old(self).pos,
            },
    {
        match self.read_u64() {
            Ok(v) => Ok(v as i64),
            Err(e) => Err(e),
        }
    }

    /// Reads a contiguous run of `n` bytes into an owned vector.
    pub fn read_bytes(&mut self, n: usize) -> (r: Result<Vec<u8>, DecodeError>)
        ensures
            final(self).buf == old(self).buf,
            match r {
                Ok(v) => old(self).pos + n <= old(self).buf@.len() && v@ == old(
                    self,
                ).buf@.subrange(old(self).pos as int, old(self).pos + n) && final(self).pos == old(
                    self,
                ).pos + n,
                Err(e) => e == DecodeError::TruncatedStream && old(self).pos + n > old(
                    self,
                ).buf@.len() && final(self).pos == old(self).pos,
            },
    {
        if self.pos <= self.buf.len() && self.buf.len() - self.pos >= n {
            let total = self.buf.len();
            let mut v: Vec<u8> = Vec::new();
            let mut i: usize = 0;
            while i < n
                invariant
                    i <= n,
                    self.buf@ == old(self).buf@,
                    self.pos == old(self).pos,
                    total == self.buf@.len(),
                    self.pos + n <= total,
                    v@ == self.buf@.subrange(self.pos as int, self.pos + i),
                decreases n - i,
            {
                v.push(self.buf[self.pos + i]);
                i = i + 1;
                proof {
                    assert(v@ =~= self.buf@.subrange(self.pos as int, self.pos + i));
                }
            }
            self.pos = self.pos + n;
            Ok(v)
        } else {
            Err(DecodeError::TruncatedStream)
        }
    }
}

} // verus!
