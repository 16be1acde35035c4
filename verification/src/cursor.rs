//! A read position over an immutable byte buffer, with bounds-checked reads of
//! single bytes and big-endian integers. The position only ever advances.

use vstd::prelude::*;

use crate::IOFailure;

verus! {

/// The big-endian 16-bit integer formed by two bytes.
pub open spec fn be16(b0: u8, b1: u8) -> u16 {
    (((b0 as u16) << 8) | (b1 as u16)) as u16
}

/// The big-endian 64-bit integer formed by the first 8 bytes of `b`.
pub open spec fn be64(b: Seq<u8>) -> u64
    recommends
        b.len() >= 8,
{
    (((b[0] as u64) << 56) | ((b[1] as u64) << 48) | ((b[2] as u64) << 40) | ((b[3] as u64) << 32)
        | ((b[4] as u64) << 24) | ((b[5] as u64) << 16) | ((b[6] as u64) << 8) | (b[7] as u64)) as u64
}

/// A cursor over an immutable input buffer: the bytes not yet consumed are
/// `remaining_bytes()`, and every successful read advances `pos`.
pub struct BufCursor<'a> {
    pub buf: &'a [u8],
    pub pos: usize,
}

impl<'a> BufCursor<'a> {
    /// The read position never passes the end of the buffer.
    pub open spec fn wf(&self) -> bool {
        self.pos <= self.buf@.len()
    }

    /// The bytes still to be consumed.
    pub open spec fn remaining_bytes(&self) -> Seq<u8> {
        self.buf@.skip(self.pos as int)
    }

    pub fn new(buf: &'a [u8]) -> (r: Self)
        ensures
            r.wf(),
            r.buf@ == buf@,
            r.pos == 0,
            r.remaining_bytes() == buf@,
    {
        let r = BufCursor { buf, pos: 0 };
        proof {
            assert(r.remaining_bytes() =~= buf@);
        }
        r
    }

    pub fn remaining(&self) -> (r: usize)
        requires
            self.wf(),
        ensures
            r == self.remaining_bytes().len(),
    {
        self.buf.len() - self.pos
    }

    /// Reads one byte; the caller must have checked that one remains.
    pub(crate) fn read_byte(&mut self) -> (r: u8)
        requires
            old(self).wf(),
            old(self).remaining_bytes().len() >= 1,
        ensures
            final(self).wf(),
            final(self).buf@ == old(self).buf@,
            final(self).pos == old(self).pos + 1,
            r == old(self).remaining_bytes()[0],
            final(self).remaining_bytes() == old(self).remaining_bytes().skip(1),
    {
        proof {
            vstd::slice::axiom_spec_len(self.buf);
            assert(old(self).remaining_bytes().len() == self.buf@.len() - self.pos);
        }
        let b = *vstd::slice::slice_index_get(self.buf, self.pos);
        self.pos = self.pos + 1;
        proof {
            assert(self.remaining_bytes() =~= old(self).remaining_bytes().skip(1));
        }
        b
    }
}

/// Reads one byte, or reports a truncated header.
pub fn get_u8(src: &mut BufCursor) -> (r: Result<u8, IOFailure>)
    requires
        old(src).wf(),
    ensures
        final(src).wf(),
        final(src).buf@ == old(src).buf@,
        match r {
            Ok(b) => {
                &&& old(src).remaining_bytes().len() >= 1
                &&& b == old(src).remaining_bytes()[0]
                &&& final(src).pos == old(src).pos + 1
            },
            Err(e) => {
                &&& e == IOFailure::TruncatedHeader
                &&& old(src).remaining_bytes().len() == 0
                &&& final(src).pos == old(src).pos
            },
        },
{
    if src.remaining() < 1 {
        return Err(IOFailure::TruncatedHeader);
    }
    Ok(src.read_byte())
}

/// Reads a big-endian 16-bit integer, or reports a truncated extended length.
pub fn get_u16(src: &mut BufCursor) -> (r: Result<u16, IOFailure>)
    requires
        old(src).wf(),
    ensures
        final(src).wf(),
        final(src).buf@ == old(src).buf@,
        match r {
            Ok(v) => {
                &&& old(src).remaining_bytes().len() >= 2
                &&& v == be16(old(src).remaining_bytes()[0], old(src).remaining_bytes()[1])
                &&& final(src).pos == old(src).pos + 2
            },
            Err(e) => {
                &&& e == IOFailure::TruncatedLength
                &&& old(src).remaining_bytes().len() < 2
                &&& final(src).pos == old(src).pos
            },
        },
{
    if src.remaining() < 2 {
        return Err(IOFailure::TruncatedLength);
    }
    let b0 = src.read_byte();
    let b1 = src.read_byte();
    Ok(((b0 as u16) << 8) | (b1 as u16))
}

/// Reads a big-endian 64-bit integer, or reports a truncated extended length.
pub fn get_u64(src: &mut BufCursor) -> (r: Result<u64, IOFailure>)
    requires
        old(src).wf(),
    ensures
        final(src).wf(),
        final(src).buf@ == old(src).buf@,
        match r {
            Ok(v) => {
                &&& old(src).remaining_bytes().len() >= 8
                &&& v == be64(old(src).remaining_bytes())
                &&& final(src).pos == old(src).pos + 8
            },
            Err(e) => {
                &&& e == IOFailure::TruncatedLength
                &&& old(src).remaining_bytes().len() < 8
                &&& final(src).pos == old(src).pos
            },
        },
{
    if src.remaining() < 8 {
        return Err(IOFailure::TruncatedLength);
    }
    let b0 = src.read_byte();
    let b1 = src.read_byte();
    let b2 = src.read_byte();
    let b3 = src.read_byte();
    let b4 = src.read_byte();
    let b5 = src.read_byte();
    let b6 = src.read_byte();
    let b7 = src.read_byte();
    Ok(
        ((b0 as u64) << 56) | ((b1 as u64) << 48) | ((b2 as u64) << 40) | ((b3 as u64) << 32)
            | ((b4 as u64) << 24) | ((b5 as u64) << 16) | ((b6 as u64) << 8) | (b7 as u64),
    )
}

} // verus!
