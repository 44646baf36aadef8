//! A cursor over an owned byte buffer, with little-endian integer reads.
//!
//! Every read is described exactly by a spec-level parser over the bytes
//! still ahead of the cursor, so the file-format parsers built on top can
//! be related, byte for byte, to the writers.

use vstd::bytes::{
    spec_u16_from_le_bytes, spec_u16_to_le_bytes, spec_u32_from_le_bytes, spec_u32_to_le_bytes,
    spec_u64_from_le_bytes, spec_u64_to_le_bytes, u16_from_le_bytes, u16_to_le_bytes,
    u32_from_le_bytes, u32_to_le_bytes, u64_from_le_bytes, u64_to_le_bytes,
};
use vstd::prelude::*;
use vstd::slice::{slice_subrange, slice_to_vec};

use crate::TMFImportError;

verus! {

/// Reads little-endian integers and raw byte runs off the front of a
/// buffer, tracking how far it has come.
pub struct Reader {
    data: Vec<u8>,
    pos: usize,
}

impl Reader {
    /// The bytes not yet consumed.
    pub closed spec fn remaining(self) -> Seq<u8> {
        self.data@.subrange(self.pos as int, self.data@.len() as int)
    }

    /// The cursor never points past the end of the buffer.
    pub closed spec fn wf(self) -> bool {
        self.pos <= self.data@.len()
    }

    pub fn new(data: Vec<u8>) -> (r: Reader)
        ensures
            r.wf(),
            r.remaining() == data@,
    {
        let r = Reader { data, pos: 0 };
        proof {
            assert(r.remaining() =~= r.data@);
        }
        r
    }

    /// How many bytes are still ahead of the cursor.
    pub fn remaining_len(&self) -> (n: usize)
        requires
            self.wf(),
        ensures
            n == self.remaining().len(),
    {
        self.data.len() - self.pos
    }

    pub fn read_u8(&mut self) -> (r: Result<u8, TMFImportError>)
        requires
            old(self).wf(),
        ensures
            final(self).wf(),
            old(self).remaining().len() >= 1 ==> r == Ok::<u8, TMFImportError>(
                old(self).remaining()[0],
            ) && final(self).remaining() == old(self).remaining().skip(1),
            old(self).remaining().len() < 1 ==> r == Err::<u8, TMFImportError>(
                TMFImportError::UnexpectedEnd,
            ) && *final(self) == *old(self),
    {
        if self.pos < self.data.len() {
            let b = self.data[self.pos];
            self.pos = self.pos + 1;
            proof {
                assert(final(self).remaining() =~= old(self).remaining().skip(1));
            }
            Ok(b)
        } else {
            Err(TMFImportError::UnexpectedEnd)
        }
    }

    pub fn read_u16(&mut self) -> (r: Result<u16, TMFImportError>)
        requires
            old(self).wf(),
        ensures
            final(self).wf(),
            old(self).remaining().len() >= 2 ==> r == Ok::<u16, TMFImportError>(
                spec_u16_from_le_bytes(old(self).remaining().take(2)),
            ) && final(self).remaining() == old(self).remaining().skip(2),
            old(self).remaining().len() < 2 ==> r == Err::<u16, TMFImportError>(
                TMFImportError::UnexpectedEnd,
            ) && *final(self) == *old(self),
    {
        if self.data.len() - self.pos >= 2 {
            let bytes = slice_subrange(self.data.as_slice(), self.pos, self.pos + 2);
            let v = u16_from_le_bytes(bytes);
            self.pos = self.pos + 2;
            proof {
                assert(bytes@ =~= old(self).remaining().take(2));
                assert(final(self).remaining() =~= old(self).remaining().skip(2));
            }
            Ok(v)
        } else {
            Err(TMFImportError::UnexpectedEnd)
        }
    }

    pub fn read_u32(&mut self) -> (r: Result<u32, TMFImportError>)
        requires
            old(self).wf(),
        ensures
            final(self).wf(),
            old(self).remaining().len() >= 4 ==> r == Ok::<u32, TMFImportError>(
                spec_u32_from_le_bytes(old(self).remaining().take(4)),
            ) && final(self).remaining() == old(self).remaining().skip(4),
            old(self).remaining().len() < 4 ==> r == Err::<u32, TMFImportError>(
                TMFImportError::UnexpectedEnd,
            ) && *final(self) == *old(self),
    {
        if self.data.len() - self.pos >= 4 {
            let bytes = slice_subrange(self.data.as_slice(), self.pos, self.pos + 4);
            let v = u32_from_le_bytes(bytes);
            self.pos = self.pos + 4;
            proof {
                assert(bytes@ =~= old(self).remaining().take(4));
                assert(final(self).remaining() =~= old(self).remaining().skip(4));
            }
            Ok(v)
        } else {
            Err(TMFImportError::UnexpectedEnd)
        }
    }

    pub fn read_u64(&mut self) -> (r: Result<u64, TMFImportError>)
        requires
            old(self).wf(),
        ensures
            final(self).wf(),
            old(self).remaining().len() >= 8 ==> r == Ok::<u64, TMFImportError>(
                spec_u64_from_le_bytes(old(self).remaining().take(8)),
            ) && final(self).remaining() == old(self).remaining().skip(8),
            old(self).remaining().len() < 8 ==> r == Err::<u64, TMFImportError>(
                TMFImportError::UnexpectedEnd,
            ) && *final(self) == *old(self),
    {
        if self.data.len() - self.pos >= 8 {
            let bytes = slice_subrange(self.data.as_slice(), self.pos, self.pos + 8);
            let v = u64_from_le_bytes(bytes);
            self.pos = self.pos + 8;
            proof {
                assert(bytes@ =~= old(self).remaining().take(8));
                assert(final(self).remaining() =~= old(self).remaining().skip(8));
            }
            Ok(v)
        } else {
            Err(TMFImportError::UnexpectedEnd)
        }
    }

    /// Takes `n` raw bytes off the front of the buffer.
    pub fn read_bytes(&mut self, n: usize) -> (r: Result<Vec<u8>, TMFImportError>)
        requires
            old(self).wf(),
        ensures
            final(self).wf(),
            old(self).remaining().len() >= n ==> (r matches Ok(b) && b@ == old(
                self,
            ).remaining().take(n as int)) && final(self).remaining() == old(self).remaining().skip(
                n as int,
            ),
            old(self).remaining().len() < n ==> r == Err::<Vec<u8>, TMFImportError>(
                TMFImportError::UnexpectedEnd,
            ) && *final(self) == *old(self),
    {
        if self.data.len() - self.pos >= n {
            let out: Vec<u8> = slice_to_vec(
                slice_subrange(self.data.as_slice(), self.pos, self.pos + n),
            );
            self.pos = self.pos + n;
            proof {
                assert(out@ =~= old(self).remaining().take(n as int));
            }
            proof {
                assert(final(self).remaining() =~= old(self).remaining().skip(n as int));
            }
            Ok(out)
        } else {
            Err(TMFImportError::UnexpectedEnd)
        }
    }
}


/// Appends a `u16` to a byte buffer, little-endian.
pub fn write_u16(out: &mut Vec<u8>, v: u16)
    ensures
        final(out)@ == old(out)@ + spec_u16_to_le_bytes(v),
{
    let mut b = u16_to_le_bytes(v);
    out.append(&mut b);
}

/// Appends a `u32` to a byte buffer, little-endian.
pub fn write_u32(out: &mut Vec<u8>, v: u32)
    ensures
        final(out)@ == old(out)@ + spec_u32_to_le_bytes(v),
{
    let mut b = u32_to_le_bytes(v);
    out.append(&mut b);
}

/// Appends a `u64` to a byte buffer, little-endian.
pub fn write_u64(out: &mut Vec<u8>, v: u64)
    ensures
        final(out)@ == old(out)@ + spec_u64_to_le_bytes(v),
{
    let mut b = u64_to_le_bytes(v);
    out.append(&mut b);
}

} // verus!
