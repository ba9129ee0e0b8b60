use vstd::prelude::*;

use crate::error::DecodeError;

verus! {

/// A bounds-checked reader over a fixed byte buffer.
///
/// Every read that would pass the end of the buffer fails with
/// `UnexpectedEndOfData` and leaves the offset where it was; the buffer is
/// never mutated and the offset only moves forward.
pub struct ByteCursor<'a> {
    data: &'a Vec<u8>,
    pos: usize,
}

impl<'a> ByteCursor<'a> {
    /// The bytes under the cursor.
    pub closed spec fn spec_data(&self) -> Seq<u8> {
        self.data@
    }

    /// The current read offset.
    pub closed spec fn spec_pos(&self) -> int {
        self.pos as int
    }

    /// The offset never passes the end of the buffer.
    pub open spec fn wf(&self) -> bool {
        0 <= self.spec_pos() <= self.spec_data().len()
    }

    /// A cursor at the start of the buffer.
    pub fn new(data: &'a Vec<u8>) -> (c: Self)
        ensures
            c.wf(),
            c.spec_data() == data@,
            c.spec_pos() == 0,
    {
        ByteCursor { data, pos: 0 }
    }

    /// The current read offset.
    pub fn position(&self) -> (r: usize)
        ensures
            r as int == self.spec_pos(),
    {
        self.pos
    }

    /// Reads one byte.
    pub fn read_u8(&mut self) -> (r: Result<u8, DecodeError>)
        requires
            old(self).wf(),
        ensures
            final(self).wf(),
            final(self).spec_data() == old(self).spec_data(),
            if old(self).spec_pos() + 1 <= old(self).spec_data().len() {
                r == Ok::<u8, DecodeError>(old(self).spec_data()[old(self).spec_pos()])
                    && final(self).spec_pos() == old(self).spec_pos() + 1
            } else {
                r == Err::<u8, DecodeError>(DecodeError::UnexpectedEndOfData)
                    && final(self).spec_pos() == old(self).spec_pos()
            },
    {
        if self.pos < self.data.len() {
            let b = self.data[self.pos];
            self.pos = self.pos + 1;
            Ok(b)
        } else {
            Err(DecodeError::UnexpectedEndOfData)
        }
    }

    /// Reads a little-endian 16-bit integer.
    pub fn read_u16_le(&mut self) -> (r: Result<u16, DecodeError>)
        requires
            old(self).wf(),
        ensures
            final(self).wf(),
            final(self).spec_data() == old(self).spec_data(),
            if old(self).spec_pos() + 2 <= old(self).spec_data().len() {
                r is Ok && r->Ok_0 as int == crate::codec::le16_at(
                    old(self).spec_data(),
                    old(self).spec_pos(),
                ) && final(self).spec_pos() == old(self).spec_pos() + 2
            } else {
                r == Err::<u16, DecodeError>(DecodeError::UnexpectedEndOfData)
                    && final(self).spec_pos() == old(self).spec_pos()
            },
    {
        if self.pos < self.data.len() && self.data.len() - self.pos >= 2 {
            let b0 = self.data[self.pos];
            let b1 = self.data[self.pos + 1];
            self.pos = self.pos + 2;
            Ok((b0 as u16) + 0x100 * (b1 as u16))
        } else {
            Err(DecodeError::UnexpectedEndOfData)
        }
    }

    /// Reads a little-endian 32-bit integer.
    pub fn read_u32_le(&mut self) -> (r: Result<u32, DecodeError>)
        requires
            old(self).wf(),
        ensures
            final(self).wf(),
            final(self).spec_data() == old(self).spec_data(),
            if old(self).spec_pos() + 4 <= old(self).spec_data().len() {
                r is Ok && r->Ok_0 as int == crate::codec::le32_at(
                    old(self).spec_data(),
                    old(self).spec_pos(),
                ) && final(self).spec_pos() == old(self).spec_pos() + 4
            } else {
                r == Err::<u32, DecodeError>(DecodeError::UnexpectedEndOfData)
                    && final(self).spec_pos() == old(self).spec_pos()
            },
    {
        if self.pos < self.data.len() && self.data.len() - self.pos >= 4 {
            let b0 = self.data[self.pos];
            let b1 = self.data[self.pos + 1];
            let b2 = self.data[self.pos + 2];
            let b3 = self.data[self.pos + 3];
            self.pos = self.pos + 4;
            Ok((b0 as u32) + 0x100 * (b1 as u32) + 0x10000 * (b2 as u32) + 0x1000000 * (b3 as u32))
        } else {
            Err(DecodeError::UnexpectedEndOfData)
        }
    }

    /// Reads exactly `n` bytes.
    pub fn read_exact(&mut self, n: usize) -> (r: Result<Vec<u8>, DecodeError>)
        requires
            old(self).wf(),
        ensures
            final(self).wf(),
            final(self).spec_data() == old(self).spec_data(),
            if old(self).spec_pos() + n <= old(self).spec_data().len() {
                r is Ok && r->Ok_0@ == old(self).spec_data().subrange(
                    old(self).spec_pos(),
                    old(self).spec_pos() + n,
                ) && final(self).spec_pos() == old(self).spec_pos() + n
            } else {
                r == Err::<Vec<u8>, DecodeError>(DecodeError::UnexpectedEndOfData)
                    && final(self).spec_pos() == old(self).spec_pos()
            },
    {
        if n > self.data.len() - self.pos {
            return Err(DecodeError::UnexpectedEndOfData);
        }
        let mut out: Vec<u8> = Vec::new();
        let start = self.pos;
        let mut i: usize = 0;
        while i < n
            invariant
                start + n <= self.data.len(),
                i <= n,
                self.pos == start,
                self.data == old(self).data,
                out@ =~= self.data@.subrange(start as int, start + i),
            decreases n - i,
        {
            out.push(self.data[start + i]);
            assert(out@ =~= self.data@.subrange(start as int, start + i + 1));
            i = i + 1;
        }
        self.pos = start + n;
        Ok(out)
    }

    /// Advances the offset by `n` bytes without reading them.
    pub fn skip(&mut self, n: usize) -> (r: Result<(), DecodeError>)
        requires
            old(self).wf(),
        ensures
            final(self).wf(),
            final(self).spec_data() == old(self).spec_data(),
            if old(self).spec_pos() + n <= old(self).spec_data().len() {
                r is Ok && final(self).spec_pos() == old(self).spec_pos() + n
            } else {
                r == Err::<(), DecodeError>(DecodeError::UnexpectedEndOfData)
                    && final(self).spec_pos() == old(self).spec_pos()
            },
    {
        if n > self.data.len() - self.pos {
            Err(DecodeError::UnexpectedEndOfData)
        } else {
            self.pos = self.pos + n;
            Ok(())
        }
    }
}

} // verus!
