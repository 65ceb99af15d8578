//! A bounds-checked read position over an immutable byte buffer.
//!
//! Every decode step goes through one of these reads; none of them can ever
//! look past the end of the buffer, and a read that does not fit returns
//! `DecodeError::Truncated` and leaves the position where it was.

use vstd::prelude::*;

use crate::errors::DecodeError;

verus! {

/// The unsigned big-endian value of the two bytes of `s` at `pos`.
pub open spec fn spec_be16(s: Seq<u8>, pos: int) -> u16 {
    ((s[pos] as nat) * 0x100 + (s[pos + 1] as nat)) as u16
}

/// The unsigned big-endian value of the four bytes of `s` at `pos`.
pub open spec fn spec_be32(s: Seq<u8>, pos: int) -> u32 {
    ((s[pos] as nat) * 0x100_0000 + (s[pos + 1] as nat) * 0x1_0000 + (s[pos + 2] as nat) * 0x100
        + (s[pos + 3] as nat)) as u32
}

/// The unsigned big-endian value of the eight bytes of `s` at `pos`.
pub open spec fn spec_be64(s: Seq<u8>, pos: int) -> u64 {
    ((s[pos] as nat) * 0x100_0000_0000_0000 + (s[pos + 1] as nat) * 0x1_0000_0000_0000 + (s[pos
        + 2] as nat) * 0x100_0000_0000 + (s[pos + 3] as nat) * 0x1_0000_0000 + (s[pos
        + 4] as nat) * 0x100_0000 + (s[pos + 5] as nat) * 0x1_0000 + (s[pos + 6] as nat) * 0x100 + (
    s[pos + 7] as nat)) as u64
}

/// The two's-complement reading of a 16-bit word.
pub open spec fn spec_i16_of_u16(u: u16) -> i16 {
    if u >= 0x8000 {
        (u - 0x1_0000) as i16
    } else {
        u as i16
    }
}

/// The two's-complement reading of a 32-bit word.
pub open spec fn spec_i32_of_u32(u: u32) -> i32 {
    if u >= 0x8000_0000 {
        (u - 0x1_0000_0000) as i32
    } else {
        u as i32
    }
}

/// The two's-complement reading of a 64-bit word.
pub open spec fn spec_i64_of_u64(u: u64) -> i64 {
    if u >= 0x8000_0000_0000_0000 {
        (u - 0x1_0000_0000_0000_0000) as i64
    } else {
        u as i64
    }
}

/// Reads a 16-bit word as a signed value.
pub fn i16_of_u16(u: u16) -> (r: i16)
    ensures
        r == spec_i16_of_u16(u),
{
    if u >= 0x8000 {
        -((0xffffu16 - u) as i16) - 1
    } else {
        u as i16
    }
}

/// Reads a 32-bit word as a signed value.
pub fn i32_of_u32(u: u32) -> (r: i32)
    ensures
        r == spec_i32_of_u32(u),
{
    if u >= 0x8000_0000 {
        -((0xffff_ffffu32 - u) as i32) - 1
    } else {
        u as i32
    }
}

/// Reads a 64-bit word as a signed value.
pub fn i64_of_u64(u: u64) -> (r: i64)
    ensures
        r == spec_i64_of_u64(u),
{
    if u >= 0x8000_0000_0000_0000 {
        -((0xffff_ffff_ffff_ffffu64 - u) as i64) - 1
    } else {
        u as i64
    }
}

/// An immutable byte buffer together with a mutable read position.
pub struct ByteCursor<'a> {
    pub data: &'a [u8],
    pub pos: usize,
}

impl<'a> ByteCursor<'a> {
    /// The position never exceeds the buffer length.
    pub open spec fn wf(self) -> bool {
        self.pos <= self.data@.len()
    }

    /// A cursor at the given start position of `data`.
    pub fn new(data: &'a [u8], start: usize) -> (r: ByteCursor<'a>)
        requires
            start <= data@.len(),
        ensures
            r.data@ == data@,
            r.pos == start,
            r.wf(),
    {
        ByteCursor { data, pos: start }
    }

    /// How many bytes are left to read.
    pub fn remaining(&self) -> (r: usize)
        requires
            self.wf(),
        ensures
            r == self.data@.len() - self.pos,
    {
        self.data.len() - self.pos
    }

    /// Reads one byte.
    pub fn read_u8(&mut self) -> (r: Result<u8, DecodeError>)
        requires
            old(self).wf(),
        ensures
            final(self).wf(),
            final(self).data@ == old(self).data@,
            old(self).pos + 1 <= old(self).data@.len() ==> r == Ok::<u8, DecodeError>(
                old(self).data@[old(self).pos as int],
            ) && final(self).pos == old(self).pos + 1,
            old(self).pos + 1 > old(self).data@.len() ==> r == Err::<u8, DecodeError>(
                DecodeError::Truncated,
            ) && final(self).pos == old(self).pos,
    {
        if self.pos < self.data.len() {
            let b = self.data[self.pos];
            self.pos = self.pos + 1;
            Ok(b)
        } else {
            Err(DecodeError::Truncated)
        }
    }

    /// Reads two bytes as a big-endian unsigned integer.
    pub fn read_u16_be(&mut self) -> (r: Result<u16, DecodeError>)
        requires
            old(self).wf(),
        ensures
            final(self).wf(),
            final(self).data@ == old(self).data@,
            old(self).pos + 2 <= old(self).data@.len() ==> r == Ok::<u16, DecodeError>(
                spec_be16(old(self).data@, old(self).pos as int),
            ) && final(self).pos == old(self).pos + 2,
            old(self).pos + 2 > old(self).data@.len() ==> r == Err::<u16, DecodeError>(
                DecodeError::Truncated,
            ) && final(self).pos == old(self).pos,
    {
        if self.data.len() - self.pos >= 2 {
            let b0 = self.data[self.pos];
            let b1 = self.data[self.pos + 1];
            self.pos = self.pos + 2;
            Ok((b0 as u16) * 0x100 + (b1 as u16))
        } else {
            Err(DecodeError::Truncated)
        }
    }

    /// Reads four bytes as a big-endian unsigned integer.
    pub fn read_u32_be(&mut self) -> (r: Result<u32, DecodeError>)
        requires
            old(self).wf(),
        ensures
            final(self).wf(),
            final(self).data@ == old(self).data@,
            old(self).pos + 4 <= old(self).data@.len() ==> r == Ok::<u32, DecodeError>(
                spec_be32(old(self).data@, old(self).pos as int),
            ) && final(self).pos == old(self).pos + 4,
            old(self).pos + 4 > old(self).data@.len() ==> r == Err::<u32, DecodeError>(
                DecodeError::Truncated,
            ) && final(self).pos == old(self).pos,
    {
        if self.data.len() - self.pos >= 4 {
            let b0 = self.data[self.pos];
            let b1 = self.data[self.pos + 1];
            let b2 = self.data[self.pos + 2];
            let b3 = self.data[self.pos + 3];
            self.pos = self.pos + 4;
            Ok((b0 as u32) * 0x100_0000 + (b1 as u32) * 0x1_0000 + (b2 as u32) * 0x100 + (
            b3 as u32))
        } else {
            Err(DecodeError::Truncated)
        }
    }

    /// Reads eight bytes as a big-endian unsigned integer.
    pub fn read_u64_be(&mut self) -> (r: Result<u64, DecodeError>)
        requires
            old(self).wf(),
        ensures
            final(self).wf(),
            final(self).data@ == old(self).data@,
            old(self).pos + 8 <= old(self).data@.len() ==> r == Ok::<u64, DecodeError>(
                spec_be64(old(self).data@, old(self).pos as int),
            ) && final(self).pos == old(self).pos + 8,
            old(self).pos + 8 > old(self).data@.len() ==> r == Err::<u64, DecodeError>(
                DecodeError::Truncated,
            ) && final(self).pos == old(self).pos,
    {
        if self.data.len() - self.pos >= 8 {
            let b0 = self.data[self.pos];
            let b1 = self.data[self.pos + 1];
            let b2 = self.data[self.pos + 2];
            let b3 = self.data[self.pos + 3];
            let b4 = self.data[self.pos + 4];
            let b5 = self.data[self.pos + 5];
            let b6 = self.data[self.pos + 6];
            let b7 = self.data[self.pos + 7];
            self.pos = self.pos + 8;
            Ok((b0 as u64) * 0x100_0000_0000_0000 + (b1 as u64) * 0x1_0000_0000_0000 + (
            b2 as u64) * 0x100_0000_0000 + (b3 as u64) * 0x1_0000_0000 + (b4 as u64) * 0x100_0000
                + (b5 as u64) * 0x1_0000 + (b6 as u64) * 0x100 + (b7 as u64))
        } else {
            Err(DecodeError::Truncated)
        }
    }

    /// Reads `n` bytes into a fresh vector.
    pub fn read_bytes(&mut self, n: usize) -> (r: Result<Vec<u8>, DecodeError>)
        requires
            old(self).wf(),
        ensures
            final(self).wf(),
            final(self).data@ == old(self).data@,
            old(self).pos + n <= old(self).data@.len() ==> (r matches Ok(v) && v@ == old(
                self,
            ).data@.subrange(old(self).pos as int, old(self).pos + n)) && final(self).pos == old(
                self,
            ).pos + n,
            old(self).pos + n > old(self).data@.len() ==> r == Err::<Vec<u8>, DecodeError>(
                DecodeError::Truncated,
            ) && final(self).pos == old(self).pos,
    {
        if n <= self.data.len() - self.pos {
            let end: usize = self.pos + n;
            let mut out: Vec<u8> = Vec::new();
            let mut j: usize = self.pos;
            while j < end
                invariant
                    self.wf(),
                    self.pos <= j <= end,
                    end == self.pos + n,
                    end <= self.data@.len(),
                    out@ == self.data@.subrange(self.pos as int, j as int),
                decreases end - j,
            {
                out.push(self.data[j]);
                j = j + 1;
                proof {
                    assert(out@ =~= self.data@.subrange(self.pos as int, j as int));
                }
            }
            self.pos = end;
            Ok(out)
        } else {
            Err(DecodeError::Truncated)
        }
    }
}

} // verus!
