use vstd::prelude::*;

use crate::errors::DnsError;

verus! {

/// Big-endian byte pair of a 16-bit value.
pub open spec fn u16_be(v: u16) -> Seq<u8> {
    seq![(v / 256) as u8, (v % 256) as u8]
}

/// Big-endian byte quadruple of a 32-bit value.
pub open spec fn u32_be(v: u32) -> Seq<u8> {
    seq![
        (v / 0x1000000) as u8,
        ((v / 0x10000) % 256) as u8,
        ((v / 256) % 256) as u8,
        (v % 256) as u8,
    ]
}

/// The 16-bit value read big-endian from two bytes.
pub open spec fn u16_of(hi: u8, lo: u8) -> u16 {
    (hi * 256 + lo) as u16
}

/// The 32-bit value read big-endian from four bytes.
pub open spec fn u32_of(b0: u8, b1: u8, b2: u8, b3: u8) -> u32 {
    (b0 * 0x1000000 + b1 * 0x10000 + b2 * 256 + b3) as u32
}

/// The frame with the byte range `[pos, pos + x.len())` replaced by `x`.
pub open spec fn splice(b: Seq<u8>, pos: int, x: Seq<u8>) -> Seq<u8> {
    b.subrange(0, pos) + x + b.subrange(pos + x.len(), b.len() as int)
}

/// Writing `x` and then `y` right after it is one write of `x + y`.
pub proof fn lemma_splice_splice(b: Seq<u8>, pos: int, x: Seq<u8>, y: Seq<u8>)
    requires
        0 <= pos,
        pos + x.len() + y.len() <= b.len(),
    ensures
        splice(splice(b, pos, x), pos + x.len(), y) == splice(b, pos, x + y),
{
    assert(splice(splice(b, pos, x), pos + x.len(), y) =~= splice(b, pos, x + y));
}

/// The big-endian bytes of a value read from four bytes are those bytes.
pub proof fn lemma_u32_of_be(b0: u8, b1: u8, b2: u8, b3: u8)
    ensures
        u32_be(u32_of(b0, b1, b2, b3)) == seq![b0, b1, b2, b3],
{
    let v = u32_of(b0, b1, b2, b3);
    assert((v / 0x1000000) as u8 == b0 && ((v / 0x10000) % 256) as u8 == b1 && ((v / 256) % 256)
        as u8 == b2 && (v % 256) as u8 == b3) by (bit_vector)
        requires
            v == (b0 * 0x1000000 + b1 * 0x10000 + b2 * 256 + b3) as u32,
    ;
    assert(u32_be(v) =~= seq![b0, b1, b2, b3]);
}

/// Overwriting the bytes at `p0 + pre.len()` with a run of the same length
/// rewrites only that run.
pub proof fn lemma_backpatch(b0: Seq<u8>, p0: int, pre: Seq<u8>, mid0: Seq<u8>, mid1: Seq<u8>, suf: Seq<u8>)
    requires
        mid0.len() == mid1.len(),
        0 <= p0,
        p0 + pre.len() + mid0.len() + suf.len() <= b0.len(),
    ensures
        splice(splice(b0, p0, pre + mid0 + suf), p0 + pre.len(), mid1) == splice(
            b0,
            p0,
            pre + mid1 + suf,
        ),
{
    assert(splice(splice(b0, p0, pre + mid0 + suf), p0 + pre.len(), mid1) =~= splice(
        b0,
        p0,
        pre + mid1 + suf,
    ));
}

/// The fixed 512-byte message frame with a read/write cursor.
pub struct BytePacketBuffer {
    pub buf: Vec<u8>,
    pub pos: usize,
}

impl BytePacketBuffer {
    /// The frame holds exactly 512 bytes and the cursor never stands past
    /// the capacity.
    pub open spec fn wf(&self) -> bool {
        self.buf@.len() == 512 && self.pos <= 512
    }

    /// A fresh zeroed frame with the cursor at the start.
    pub fn new() -> (r: BytePacketBuffer)
        ensures
            r.wf(),
            r.pos == 0,
            r.buf@ == Seq::new(512, |i: int| 0u8),
    {
        let mut buf: Vec<u8> = Vec::new();
        let mut i: usize = 0;
        while i < 512
            invariant
                i <= 512,
                buf@.len() == i,
                forall|j: int| 0 <= j < i ==> buf@[j] == 0u8,
            decreases 512 - i,
        {
            buf.push(0);
            i += 1;
        }
        proof {
            assert(buf@ =~= Seq::new(512, |i: int| 0u8));
        }
        BytePacketBuffer { buf, pos: 0 }
    }

    /// The current cursor position.
    pub fn pos(&self) -> (r: usize)
        ensures
            r == self.pos,
    {
        self.pos
    }

    /// Advance the cursor by `steps`.  The frame's invariant keeps the
    /// position at or under the capacity, so although this is bookkeeping
    /// that touches no byte, a step that would pass the capacity fails
    /// with `Overflow` instead of moving.
    pub fn step(&mut self, steps: usize) -> (r: Result<(), DnsError>)
        requires
            old(self).wf(),
        ensures
            final(self).wf(),
            final(self).buf@ == old(self).buf@,
            match r {
                Ok(()) => old(self).pos + steps <= 512 && final(self).pos == old(self).pos + steps,
                Err(e) => e == DnsError::Overflow && old(self).pos + steps > 512 && final(self).pos == old(
                    self,
                ).pos,
            },
    {
        if steps > 512 - self.pos {
            return Err(DnsError::Overflow);
        }
        self.pos = self.pos + steps;
        Ok(())
    }

    /// Set the cursor to an absolute position.  The frame's invariant
    /// keeps the position at or under the capacity, so although this is
    /// bookkeeping that touches no byte, a target past the capacity fails
    /// with `Overflow` instead of moving.
    pub fn seek(&mut self, pos: usize) -> (r: Result<(), DnsError>)
        requires
            old(self).wf(),
        ensures
            final(self).wf(),
            final(self).buf@ == old(self).buf@,
            match r {
                Ok(()) => pos <= 512 && final(self).pos == pos,
                Err(e) => e == DnsError::Overflow && pos > 512 && final(self).pos == old(self).pos,
            },
    {
        if pos > 512 {
            return Err(DnsError::Overflow);
        }
        self.pos = pos;
        Ok(())
    }

    /// Bounds-checked read of one byte at an absolute position; the cursor
    /// does not move.
    pub fn get(&self, pos: usize) -> (r: Result<u8, DnsError>)
        requires
            self.wf(),
        ensures
            match r {
                Ok(v) => pos < 512 && v == self.buf@[pos as int],
                Err(e) => e == DnsError::Overflow && pos >= 512,
            },
    {
        if pos >= 512 {
            return Err(DnsError::Overflow);
        }
        Ok(self.buf[pos])
    }

    /// Bounds-checked read of `len` bytes starting at an absolute position;
    /// the cursor does not move.
    pub fn get_range(&self, start: usize, len: usize) -> (r: Result<&[u8], DnsError>)
        requires
            self.wf(),
        ensures
            match r {
                Ok(v) => start + len <= 512 && v@ == self.buf@.subrange(
                    start as int,
                    start + len,
                ),
                Err(e) => e == DnsError::Overflow && start + len > 512,
            },
    {
        if start > 512 || len > 512 - start {
            return Err(DnsError::Overflow);
        }
        Ok(vstd::slice::slice_subrange(self.buf.as_slice(), start, start + len))
    }

    /// Overwrite the byte at an absolute position; the cursor does not move.
    pub fn set_u8(&mut self, pos: usize, val: u8) -> (r: Result<(), DnsError>)
        requires
            old(self).wf(),
        ensures
            final(self).wf(),
            final(self).pos == old(self).pos,
            match r {
                Ok(()) => pos < 512 && final(self).buf@ == old(self).buf@.update(pos as int, val),
                Err(e) => e == DnsError::Overflow && pos >= 512 && final(self).buf@ == old(self).buf@,
            },
    {
        if pos >= 512 {
            return Err(DnsError::Overflow);
        }
        self.buf.set(pos, val);
        Ok(())
    }

    /// Overwrite two bytes big-endian at an absolute position; the cursor
    /// does not move.  Used to back-patch a length field.
    pub fn set_u16(&mut self, pos: usize, val: u16) -> (r: Result<(), DnsError>)
        requires
            old(self).wf(),
        ensures
            final(self).wf(),
            final(self).pos == old(self).pos,
            match r {
                Ok(()) => pos + 2 <= 512 && final(self).buf@ == splice(old(self).buf@, pos as int, u16_be(val)),
                Err(e) => e == DnsError::Overflow && pos + 2 > 512 && final(self).buf@ == old(self).buf@,
            },
    {
        if pos >= 511 {
            return Err(DnsError::Overflow);
        }
        self.buf.set(pos, (val / 256) as u8);
        self.buf.set(pos + 1, (val % 256) as u8);
        proof {
            assert(self.buf@ =~= splice(old(self).buf@, pos as int, u16_be(val)));
        }
        Ok(())
    }

    /// Read the byte under the cursor and advance by one; at capacity the
    /// read overflows.
    pub fn read_u8(&mut self) -> (r: Result<u8, DnsError>)
        requires
            old(self).wf(),
        ensures
            final(self).wf(),
            final(self).buf@ == old(self).buf@,
            match r {
                Ok(v) => old(self).pos < 512 && v == final(self).buf@[old(self).pos as int] && final(self).pos
                    == old(self).pos + 1,
                Err(e) => e == DnsError::Overflow && old(self).pos == 512 && final(self).pos == old(
                    self,
                ).pos,
            },
    {
        if self.pos >= 512 {
            return Err(DnsError::Overflow);
        }
        let res = self.buf[self.pos];
        self.pos = self.pos + 1;
        Ok(res)
    }

    /// Read two bytes big-endian under the cursor and advance by two.
    pub fn read_u16(&mut self) -> (r: Result<u16, DnsError>)
        requires
            old(self).wf(),
        ensures
            final(self).wf(),
            final(self).buf@ == old(self).buf@,
            match r {
                Ok(v) => old(self).pos + 2 <= 512 && v == u16_of(
                    final(self).buf@[old(self).pos as int],
                    final(self).buf@[old(self).pos + 1],
                ) && final(self).pos == old(self).pos + 2,
                Err(e) => e == DnsError::Overflow && old(self).pos + 2 > 512 && final(self).pos == old(
                    self,
                ).pos,
            },
    {
        if self.pos >= 511 {
            return Err(DnsError::Overflow);
        }
        let hi = self.buf[self.pos];
        let lo = self.buf[self.pos + 1];
        self.pos = self.pos + 2;
        Ok((hi as u16) * 256 + (lo as u16))
    }

    /// Read four bytes big-endian under the cursor and advance by four.
    pub fn read_u32(&mut self) -> (r: Result<u32, DnsError>)
        requires
            old(self).wf(),
        ensures
            final(self).wf(),
            final(self).buf@ == old(self).buf@,
            match r {
                Ok(v) => old(self).pos + 4 <= 512 && v == u32_of(
                    final(self).buf@[old(self).pos as int],
                    final(self).buf@[old(self).pos + 1],
                    final(self).buf@[old(self).pos + 2],
                    final(self).buf@[old(self).pos + 3],
                ) && final(self).pos == old(self).pos + 4,
                Err(e) => e == DnsError::Overflow && old(self).pos + 4 > 512 && final(self).pos == old(
                    self,
                ).pos,
            },
    {
        if self.pos >= 509 {
            return Err(DnsError::Overflow);
        }
        let b0 = self.buf[self.pos];
        let b1 = self.buf[self.pos + 1];
        let b2 = self.buf[self.pos + 2];
        let b3 = self.buf[self.pos + 3];
        self.pos = self.pos + 4;
        Ok((b0 as u32) * 0x1000000 + (b1 as u32) * 0x10000 + (b2 as u32) * 256 + (b3 as u32))
    }

    /// Write one byte under the cursor and advance by one; at capacity the
    /// write overflows.
    pub fn write_u8(&mut self, val: u8) -> (r: Result<(), DnsError>)
        requires
            old(self).wf(),
        ensures
            final(self).wf(),
            match r {
                Ok(()) => old(self).pos < 512 && final(self).pos == old(self).pos + 1 && final(self).buf@
                    == splice(old(self).buf@, old(self).pos as int, seq![val]),
                Err(e) => e == DnsError::Overflow && old(self).pos == 512 && final(self).pos == old(
                    self,
                ).pos && final(self).buf@ == old(self).buf@,
            },
    {
        if self.pos >= 512 {
            return Err(DnsError::Overflow);
        }
        self.buf.set(self.pos, val);
        self.pos = self.pos + 1;
        proof {
            assert(self.buf@ =~= splice(old(self).buf@, old(self).pos as int, seq![val]));
        }
        Ok(())
    }

    /// Write two bytes big-endian under the cursor and advance by two.
    pub fn write_u16(&mut self, val: u16) -> (r: Result<(), DnsError>)
        requires
            old(self).wf(),
        ensures
            final(self).wf(),
            match r {
                Ok(()) => old(self).pos + 2 <= 512 && final(self).pos == old(self).pos + 2 && final(self).buf@
                    == splice(old(self).buf@, old(self).pos as int, u16_be(val)),
                Err(e) => e == DnsError::Overflow && old(self).pos + 2 > 512 && final(self).pos == old(
                    self,
                ).pos && final(self).buf@ == old(self).buf@,
            },
    {
        if self.pos >= 511 {
            return Err(DnsError::Overflow);
        }
        self.buf.set(self.pos, (val / 256) as u8);
        self.buf.set(self.pos + 1, (val % 256) as u8);
        self.pos = self.pos + 2;
        proof {
            assert(self.buf@ =~= splice(old(self).buf@, old(self).pos as int, u16_be(val)));
        }
        Ok(())
    }

    /// Write four bytes big-endian under the cursor and advance by four.
    pub fn write_u32(&mut self, val: u32) -> (r: Result<(), DnsError>)
        requires
            old(self).wf(),
        ensures
            final(self).wf(),
            match r {
                Ok(()) => old(self).pos + 4 <= 512 && final(self).pos == old(self).pos + 4 && final(self).buf@
                    == splice(old(self).buf@, old(self).pos as int, u32_be(val)),
                Err(e) => e == DnsError::Overflow && old(self).pos + 4 > 512 && final(self).pos == old(
                    self,
                ).pos && final(self).buf@ == old(self).buf@,
            },
    {
        if self.pos >= 509 {
            return Err(DnsError::Overflow);
        }
        self.buf.set(self.pos, (val / 0x1000000) as u8);
        self.buf.set(self.pos + 1, ((val / 0x10000) % 256) as u8);
        self.buf.set(self.pos + 2, ((val / 256) % 256) as u8);
        self.buf.set(self.pos + 3, (val % 256) as u8);
        self.pos = self.pos + 4;
        proof {
            assert(self.buf@ =~= splice(old(self).buf@, old(self).pos as int, u32_be(val)));
        }
        Ok(())
    }
}

/// Reading two big-endian bytes of a value gives the value back.
pub proof fn lemma_u16_be_of(v: u16)
    ensures
        u16_of(u16_be(v)[0], u16_be(v)[1]) == v,
{
}

/// Reading four big-endian bytes of a value gives the value back.
pub proof fn lemma_u32_be_of(v: u32)
    ensures
        u32_of(u32_be(v)[0], u32_be(v)[1], u32_be(v)[2], u32_be(v)[3]) == v,
{
    assert(u32_of(u32_be(v)[0], u32_be(v)[1], u32_be(v)[2], u32_be(v)[3]) == v) by (bit_vector);
}

} // verus!
