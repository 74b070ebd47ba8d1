//! Bounded byte-buffer reader with big-endian primitive reads and sub-slice
//! "take" operations.
//!
//! A [`SliceCursor`] is an immutable borrow of a byte buffer plus a read
//! position.  All primitive reads advance the position on success; a read that
//! would pass the end of the buffer fails with a "short read" error and leaves
//! the cursor untouched.

use vstd::prelude::*;

verus! {

/// The 16-bit big-endian value stored at offset `i` of `data`.
pub open spec fn be_u16_at(data: Seq<u8>, i: int) -> u16 {
    (data[i] * 0x100 + data[i + 1]) as u16
}

/// The 32-bit big-endian value stored at offset `i` of `data`.
pub open spec fn be_u32_at(data: Seq<u8>, i: int) -> u32 {
    (data[i] * 0x1000000 + data[i + 1] * 0x10000 + data[i + 2] * 0x100 + data[i + 3]) as u32
}

/// The 64-bit big-endian value stored at offset `i` of `data`.
pub open spec fn be_u64_at(data: Seq<u8>, i: int) -> u64 {
    (be_u32_at(data, i) * 0x100000000 + be_u32_at(data, i + 4)) as u64
}

/// The two's-complement reinterpretation of a 32-bit value.
pub open spec fn i32_of_u32(x: u32) -> i32 {
    if x >= 0x80000000 {
        (x - 0x100000000) as i32
    } else {
        x as i32
    }
}

/// The 32-bit big-endian signed value stored at offset `i` of `data`.
pub open spec fn be_i32_at(data: Seq<u8>, i: int) -> i32 {
    i32_of_u32(be_u32_at(data, i))
}

/// Bounded reader over a borrowed byte slice.
///
/// The buffer is immutable and shared: several cursors may walk the same
/// bytes independently.
pub struct SliceCursor<'a> {
    pub buf: &'a [u8],
    pub pos: usize,
}

/// How many bytes are left between the cursor's position and the end of its
/// buffer (none when the position was moved past the end).
pub open spec fn spec_remaining(c: SliceCursor<'_>) -> int {
    if c.pos <= c.buf@.len() {
        c.buf@.len() - c.pos
    } else {
        0
    }
}

impl<'a> SliceCursor<'a> {
    /// A cursor over `buf`, positioned at its start.
    pub fn new(buf: &'a [u8]) -> (c: Self)
        ensures
            c.buf@ == buf@,
            c.pos == 0,
    {
        Self { buf, pos: 0 }
    }

    /// The current read position.
    pub fn position(&self) -> (p: u64)
        ensures
            p == self.pos,
    {
        self.pos as u64
    }

    /// Move the read position, forwards or backwards.
    pub fn set_position(&mut self, pos: u64)
        requires
            pos <= usize::MAX,
        ensures
            final(self).buf@ == old(self).buf@,
            final(self).pos == pos,
    {
        self.pos = pos as usize;
    }

    /// Fill `out` with the next `out.len()` bytes and advance past them.
    /// Fails, changing nothing, when fewer bytes are left.
    pub fn read_exact(&mut self, out: &mut [u8]) -> (r: Result<(), String>)
        ensures
            final(self).buf@ == old(self).buf@,
            final(out)@.len() == old(out)@.len(),
            r is Ok <==> old(out)@.len() <= spec_remaining(*old(self)),
            r is Ok ==> final(self).pos == old(self).pos + old(out)@.len(),
            r is Ok && old(out)@.len() > 0 ==> final(out)@ == old(self).buf@.subrange(
                old(self).pos as int,
                old(self).pos + old(out)@.len(),
            ),
            r is Ok && old(out)@.len() == 0 ==> final(out)@ == old(out)@,
            r is Err ==> {
                &&& final(out)@ == old(out)@
                &&& final(self).pos == old(self).pos
                &&& r matches Err(e) && e@ == "Unexpected end of stream"@
            },
    {
        let len = self.buf.len();
        let remaining = if self.pos <= len {
            len - self.pos
        } else {
            0
        };
        if out.len() > remaining {
            return Err("Unexpected end of stream".to_owned());
        }
        let n = out.len();
        if n == 0 {
            return Ok(());
        }
        let mut i: usize = 0;
        while i < n
            invariant
                n == out@.len(),
                i <= n,
                self.pos + n <= self.buf@.len(),
                self.pos + n <= usize::MAX,
                self.buf@ == old(self).buf@,
                self.pos == old(self).pos,
                forall|k: int| 0 <= k < i ==> out@[k] == self.buf@[self.pos + k],
            decreases n - i,
        {
            out[i] = self.buf[self.pos + i];
            i = i + 1;
        }
        self.pos = self.pos + n;
        proof {
            assert(out@ =~= old(self).buf@.subrange(
                old(self).pos as int,
                old(self).pos + out@.len(),
            ));
        }
        Ok(())
    }

    /// Append every byte from the position to the end of the buffer onto
    /// `out`, and report how many were appended.
    pub fn read_to_end(&mut self, out: &mut Vec<u8>) -> (r: Result<usize, String>)
        requires
            old(self).pos <= old(self).buf@.len(),
        ensures
            final(self).buf@ == old(self).buf@,
            final(self).pos == old(self).buf@.len(),
            r matches Ok(n) && n == old(self).buf@.len() - old(self).pos,
            final(out)@ == old(out)@ + old(self).buf@.subrange(
                old(self).pos as int,
                old(self).buf@.len() as int,
            ),
    {
        let remaining = self.buf.len() - self.pos;
        out.extend_from_slice(&self.buf[self.pos..self.buf.len()]);
        self.pos = self.buf.len();
        Ok(remaining)
    }

    /// An independent sub-cursor over the next `n` bytes, starting at its
    /// own position 0; the parent cursor is left where it was.
    pub fn take(&mut self, n: u64) -> (sub: Self)
        requires
            old(self).pos + n <= old(self).buf@.len(),
        ensures
            *final(self) == *old(self),
            sub.buf@ == old(self).buf@.subrange(old(self).pos as int, old(self).pos + n),
            sub.pos == 0,
    {
        let len = self.buf.len();
        proof {
            assert(n <= len);
        }
        let end = self.pos + n as usize;
        Self { buf: &self.buf[self.pos..end], pos: 0 }
    }

    /// An independent sub-cursor over everything from the position to the
    /// end of the buffer, starting at its own position 0; the parent cursor
    /// is left where it was.
    pub fn take_rest(&mut self) -> (sub: Self)
        requires
            old(self).pos <= old(self).buf@.len(),
        ensures
            *final(self) == *old(self),
            sub.buf@ == old(self).buf@.subrange(old(self).pos as int, old(self).buf@.len() as int),
            sub.pos == 0,
    {
        let end = self.buf.len();
        Self { buf: &self.buf[self.pos..end], pos: 0 }
    }
}

/// Read one byte and advance past it.
pub fn read_u8(cursor: &mut SliceCursor<'_>) -> (r: Result<u8, String>)
    ensures
        final(cursor).buf@ == old(cursor).buf@,
        r is Ok <==> old(cursor).pos + 1 <= old(cursor).buf@.len(),
        r matches Ok(v) ==> {
            &&& v == old(cursor).buf@[old(cursor).pos as int]
            &&& final(cursor).pos == old(cursor).pos + 1
        },
        r is Err ==> final(cursor).pos == old(cursor).pos,
        r matches Err(e) ==> e@ == "Unexpected end of stream"@,
{
    if cursor.pos < cursor.buf.len() {
        let v = cursor.buf[cursor.pos];
        cursor.pos = cursor.pos + 1;
        Ok(v)
    } else {
        Err("Unexpected end of stream".to_owned())
    }
}

/// Read a big-endian 16-bit value and advance past it.
pub fn read_u16(cursor: &mut SliceCursor<'_>) -> (r: Result<u16, String>)
    ensures
        final(cursor).buf@ == old(cursor).buf@,
        r is Ok <==> old(cursor).pos + 2 <= old(cursor).buf@.len(),
        r matches Ok(v) ==> {
            &&& v == be_u16_at(old(cursor).buf@, old(cursor).pos as int)
            &&& final(cursor).pos == old(cursor).pos + 2
        },
        r is Err ==> final(cursor).pos == old(cursor).pos,
        r matches Err(e) ==> e@ == "Unexpected end of stream"@,
{
    if cursor.buf.len() >= 2 && cursor.pos <= cursor.buf.len() - 2 {
        let b0 = cursor.buf[cursor.pos];
        let b1 = cursor.buf[cursor.pos + 1];
        cursor.pos = cursor.pos + 2;
        Ok((b0 as u16) * 0x100 + (b1 as u16))
    } else {
        Err("Unexpected end of stream".to_owned())
    }
}

/// Read a big-endian 32-bit value and advance past it.
pub fn read_u32(cursor: &mut SliceCursor<'_>) -> (r: Result<u32, String>)
    ensures
        final(cursor).buf@ == old(cursor).buf@,
        r is Ok <==> old(cursor).pos + 4 <= old(cursor).buf@.len(),
        r matches Ok(v) ==> {
            &&& v == be_u32_at(old(cursor).buf@, old(cursor).pos as int)
            &&& final(cursor).pos == old(cursor).pos + 4
        },
        r is Err ==> final(cursor).pos == old(cursor).pos,
        r matches Err(e) ==> e@ == "Unexpected end of stream"@,
{
    if cursor.buf.len() >= 4 && cursor.pos <= cursor.buf.len() - 4 {
        let b0 = cursor.buf[cursor.pos];
        let b1 = cursor.buf[cursor.pos + 1];
        let b2 = cursor.buf[cursor.pos + 2];
        let b3 = cursor.buf[cursor.pos + 3];
        cursor.pos = cursor.pos + 4;
        Ok((b0 as u32) * 0x1000000 + (b1 as u32) * 0x10000 + (b2 as u32) * 0x100 + (b3 as u32))
    } else {
        Err("Unexpected end of stream".to_owned())
    }
}

/// Read four raw bytes and advance past them.
pub fn read_b4(cursor: &mut SliceCursor<'_>) -> (r: Result<[u8; 4], String>)
    ensures
        final(cursor).buf@ == old(cursor).buf@,
        r is Ok <==> old(cursor).pos + 4 <= old(cursor).buf@.len(),
        r matches Ok(v) ==> {
            &&& v@ == old(cursor).buf@.subrange(old(cursor).pos as int, old(cursor).pos + 4)
            &&& final(cursor).pos == old(cursor).pos + 4
        },
        r is Err ==> final(cursor).pos == old(cursor).pos,
        r matches Err(e) ==> e@ == "Unexpected end of stream"@,
{
    if cursor.buf.len() >= 4 && cursor.pos <= cursor.buf.len() - 4 {
        let b0 = cursor.buf[cursor.pos];
        let b1 = cursor.buf[cursor.pos + 1];
        let b2 = cursor.buf[cursor.pos + 2];
        let b3 = cursor.buf[cursor.pos + 3];
        cursor.pos = cursor.pos + 4;
        let out = [b0, b1, b2, b3];
        proof {
            assert(out@ =~= old(cursor).buf@.subrange(
                old(cursor).pos as int,
                old(cursor).pos + 4,
            ));
        }
        Ok(out)
    } else {
        Err("Unexpected end of stream".to_owned())
    }
}

/// Read a big-endian signed 32-bit value and advance past it.
pub fn read_i32(cursor: &mut SliceCursor<'_>) -> (r: Result<i32, String>)
    ensures
        final(cursor).buf@ == old(cursor).buf@,
        r is Ok <==> old(cursor).pos + 4 <= old(cursor).buf@.len(),
        r matches Ok(v) ==> {
            &&& v == be_i32_at(old(cursor).buf@, old(cursor).pos as int)
            &&& final(cursor).pos == old(cursor).pos + 4
        },
        r is Err ==> final(cursor).pos == old(cursor).pos,
        r matches Err(e) ==> e@ == "Unexpected end of stream"@,
{
    match read_u32(cursor) {
        Ok(v) => {
            if v >= 0x80000000 {
                Ok((v as i64 - 0x100000000i64) as i32)
            } else {
                Ok(v as i32)
            }
        },
        Err(e) => Err(e),
    }
}

/// Read a big-endian 64-bit value (eight raw bytes, most significant first)
/// and advance past it.
pub fn read_u64(cursor: &mut SliceCursor<'_>) -> (r: Result<u64, String>)
    ensures
        final(cursor).buf@ == old(cursor).buf@,
        r is Ok <==> old(cursor).pos + 8 <= old(cursor).buf@.len(),
        r matches Ok(v) ==> {
            &&& v == be_u64_at(old(cursor).buf@, old(cursor).pos as int)
            &&& final(cursor).pos == old(cursor).pos + 8
        },
        r is Err ==> final(cursor).pos == old(cursor).pos,
        r matches Err(e) ==> e@ == "Unexpected end of stream"@,
{
    if cursor.buf.len() >= 8 && cursor.pos <= cursor.buf.len() - 8 {
        let hi = match read_u32(cursor) {
            Ok(v) => v,
            Err(e) => { return Err(e); },
        };
        let lo = match read_u32(cursor) {
            Ok(v) => v,
            Err(e) => { return Err(e); },
        };
        Ok((hi as u64) * 0x100000000 + (lo as u64))
    } else {
        Err("Unexpected end of stream".to_owned())
    }
}


/// The big-endian 16-bit value at `pos` of `data`, read in place.
pub fn get_u16(data: &[u8], pos: usize) -> (v: u16)
    requires
        pos + 2 <= data@.len(),
    ensures
        v == be_u16_at(data@, pos as int),
{
    (data[pos] as u16) * 0x100 + (data[pos + 1] as u16)
}

/// The big-endian 32-bit value at `pos` of `data`, read in place.
pub fn get_u32(data: &[u8], pos: usize) -> (v: u32)
    requires
        pos + 4 <= data@.len(),
    ensures
        v == be_u32_at(data@, pos as int),
{
    (data[pos] as u32) * 0x1000000 + (data[pos + 1] as u32) * 0x10000 + (data[pos + 2] as u32)
        * 0x100 + (data[pos + 3] as u32)
}

/// The big-endian 64-bit value at `pos` of `data`, read in place.
pub fn get_u64(data: &[u8], pos: usize) -> (v: u64)
    requires
        pos + 8 <= data@.len(),
    ensures
        v == be_u64_at(data@, pos as int),
{
    let dlen = data.len();
    proof {
        assert(pos + 8 <= dlen);
    }
    let hi = get_u32(data, pos);
    let lo = get_u32(data, pos + 4);
    (hi as u64) * 0x100000000 + (lo as u64)
}

/// The big-endian signed 32-bit value at `pos` of `data`, read in place.
pub fn get_i32(data: &[u8], pos: usize) -> (v: i32)
    requires
        pos + 4 <= data@.len(),
    ensures
        v == be_i32_at(data@, pos as int),
{
    let u = get_u32(data, pos);
    if u >= 0x80000000 {
        (u as i64 - 0x100000000i64) as i32
    } else {
        u as i32
    }
}

} // verus!
