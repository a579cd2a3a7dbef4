//! A positional cursor over a borrowed byte slice, with checked
//! little-endian primitive reads.

use vstd::prelude::*;

verus! {

/// Why a netlist failed to decode.
#[derive(Clone, Copy, Debug, PartialEq, Eq, Structural)]
pub enum DecodingError {
    /// A read extended past the end of the buffer.
    InsufficientBytes,
    /// The factory rejected a cell record.
    BadPrimitive,
    /// A length field exceeded its documented ceiling.
    CountTooLarge,
}

/// The unsigned 16-bit value little-endian encoded at `pos`.
pub open spec fn le16_at(b: Seq<u8>, pos: int) -> u16 {
    (b[pos] + b[pos + 1] * 0x100) as u16
}

/// The unsigned 32-bit value little-endian encoded at `pos`.
pub open spec fn le32_at(b: Seq<u8>, pos: int) -> u32 {
    (b[pos] + b[pos + 1] * 0x100 + b[pos + 2] * 0x1_0000 + b[pos + 3] * 0x100_0000) as u32
}

/// Reading a `u16` at `pos`: the value and the new position, or a failure
/// when fewer than 2 bytes remain.
pub open spec fn spec_read_u16(b: Seq<u8>, pos: int) -> Result<(u16, int), DecodingError> {
    if pos + 2 <= b.len() {
        Ok((le16_at(b, pos), pos + 2))
    } else {
        Err(DecodingError::InsufficientBytes)
    }
}

/// Reading a `u32` at `pos`.
pub open spec fn spec_read_u32(b: Seq<u8>, pos: int) -> Result<(u32, int), DecodingError> {
    if pos + 4 <= b.len() {
        Ok((le32_at(b, pos), pos + 4))
    } else {
        Err(DecodingError::InsufficientBytes)
    }
}

/// Reading an `i32` at `pos`: the two's-complement reinterpretation of the
/// little-endian 32-bit value.
pub open spec fn spec_read_i32(b: Seq<u8>, pos: int) -> Result<(i32, int), DecodingError> {
    if pos + 4 <= b.len() {
        Ok((le32_at(b, pos) as i32, pos + 4))
    } else {
        Err(DecodingError::InsufficientBytes)
    }
}

/// Skipping `n` bytes at `pos`: the new position, or a failure when fewer
/// than `n` bytes remain.
pub open spec fn spec_skip(b: Seq<u8>, pos: int, n: int) -> Result<int, DecodingError> {
    if pos + n <= b.len() {
        Ok(pos + n)
    } else {
        Err(DecodingError::InsufficientBytes)
    }
}

/// A positional cursor over a borrowed byte slice. Each read checks the
/// remaining length, fails with `InsufficientBytes` if short, and advances
/// the cursor by the exact width on success. No alignment is assumed.
pub struct BinaryReader<'a> {
    pub data: &'a [u8],
    pub pos: usize,
}

impl<'a> BinaryReader<'a> {
    /// The cursor never points past the end of the data.
    pub open spec fn wf(self) -> bool {
        self.pos <= self.data@.len()
    }

    /// The underlying bytes.
    pub open spec fn bytes(self) -> Seq<u8> {
        self.data@
    }

    /// A cursor at the start of `data`.
    pub fn new(data: &'a [u8]) -> (r: Self)
        ensures
            r.bytes() == data@,
            r.pos == 0,
            r.wf(),
    {
        Self { data, pos: 0 }
    }

    /// How many bytes are left to read.
    pub fn remaining(&self) -> (r: usize)
        requires
            self.wf(),
        ensures
            r == self.bytes().len() - self.pos,
    {
        self.data.len() - self.pos
    }

    /// Reads a little-endian `u16`, as `spec_read_u16` says.
    pub fn read_u16(&mut self) -> (r: Result<u16, DecodingError>)
        requires
            old(self).wf(),
        ensures
            final(self).wf(),
            final(self).bytes() == old(self).bytes(),
            match spec_read_u16(old(self).bytes(), old(self).pos as int) {
                Ok(p) => r == Ok::<u16, DecodingError>(p.0) && final(self).pos == p.1,
                Err(e) => r == Err::<u16, DecodingError>(e) && final(self).pos == old(self).pos,
            },
    {
        if self.remaining() < 2 {
            return Err(DecodingError::InsufficientBytes);
        }
        let b0 = self.data[self.pos] as u16;
        let b1 = self.data[self.pos + 1] as u16;
        self.pos = self.pos + 2;
        Ok(b0 + b1 * 0x100)
    }

    /// Reads a little-endian `u32`, as `spec_read_u32` says.
    pub fn read_u32(&mut self) -> (r: Result<u32, DecodingError>)
        requires
            old(self).wf(),
        ensures
            final(self).wf(),
            final(self).bytes() == old(self).bytes(),
            match spec_read_u32(old(self).bytes(), old(self).pos as int) {
                Ok(p) => r == Ok::<u32, DecodingError>(p.0) && final(self).pos == p.1,
                Err(e) => r == Err::<u32, DecodingError>(e) && final(self).pos == old(self).pos,
            },
    {
        if self.remaining() < 4 {
            return Err(DecodingError::InsufficientBytes);
        }
        let b0 = self.data[self.pos] as u32;
        let b1 = self.data[self.pos + 1] as u32;
        let b2 = self.data[self.pos + 2] as u32;
        let b3 = self.data[self.pos + 3] as u32;
        self.pos = self.pos + 4;
        Ok(b0 + b1 * 0x100 + b2 * 0x1_0000 + b3 * 0x100_0000)
    }

    /// Reads a little-endian `i32`, as `spec_read_i32` says.
    pub fn read_i32(&mut self) -> (r: Result<i32, DecodingError>)
        requires
            old(self).wf(),
        ensures
            final(self).wf(),
            final(self).bytes() == old(self).bytes(),
            match spec_read_i32(old(self).bytes(), old(self).pos as int) {
                Ok(p) => r == Ok::<i32, DecodingError>(p.0) && final(self).pos == p.1,
                Err(e) => r == Err::<i32, DecodingError>(e) && final(self).pos == old(self).pos,
            },
    {
        match self.read_u32() {
            Ok(v) => Ok(v as i32),
            Err(e) => Err(e),
        }
    }

    /// Skips `n` bytes, as `spec_skip` says.
    pub fn skip(&mut self, n: usize) -> (r: Result<(), DecodingError>)
        requires
            old(self).wf(),
        ensures
            final(self).wf(),
            final(self).bytes() == old(self).bytes(),
            match spec_skip(old(self).bytes(), old(self).pos as int, n as int) {
                Ok(p) => r == Ok::<(), DecodingError>(()) && final(self).pos == p,
                Err(e) => r == Err::<(), DecodingError>(e) && final(self).pos == old(self).pos,
            },
    {
        let len = self.data.len();
        if len - self.pos < n {
            Err(DecodingError::InsufficientBytes)
        } else {
            self.pos = self.pos + n;
            Ok(())
        }
    }
}

} // verus!
