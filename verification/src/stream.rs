//! A forward-only byte stream over an in-memory buffer.

use vstd::prelude::*;
use crate::error::MkvError;

verus! {

/// What reading `count` bytes at offset `pos` of `bytes` gives: the bytes and
/// the offset behind them, or an end-of-stream failure that consumes nothing.
pub open spec fn read_at(bytes: Seq<u8>, pos: nat, count: nat) -> (Result<Seq<u8>, MkvError>, nat) {
    if pos + count <= bytes.len() {
        (Ok(bytes.subrange(pos as int, (pos + count) as int)), pos + count)
    } else {
        (Err(MkvError::UnexpectedEof), pos)
    }
}

/// What seeking `count` bytes forward from offset `pos` gives: the new offset,
/// or an end-of-stream failure that leaves the offset where it was.
pub open spec fn skip_at(bytes: Seq<u8>, pos: nat, count: nat) -> (Result<(), MkvError>, nat) {
    if pos + count <= bytes.len() {
        (Ok(()), pos + count)
    } else {
        (Err(MkvError::UnexpectedEof), pos)
    }
}

/// A buffer of bytes with a read offset that only moves forward and never
/// passes the end of the buffer.
pub struct ByteReader {
    data: Vec<u8>,
    pos: usize,
}

impl ByteReader {
    #[verifier::type_invariant]
    spec fn in_bounds(self) -> bool {
        self.pos <= self.data.len()
    }

    /// All the bytes of the stream, read or not.
    pub closed spec fn bytes(self) -> Seq<u8> {
        self.data@
    }

    /// The number of bytes consumed so far.
    pub closed spec fn offset(self) -> nat {
        self.pos as nat
    }

    /// A stream over `data`, positioned at its first byte.
    pub fn new(data: Vec<u8>) -> (reader: ByteReader)
        ensures
            reader.bytes() == data@,
            reader.offset() == 0,
    {
        ByteReader { data, pos: 0 }
    }

    /// The current offset.
    pub fn position(&self) -> (p: usize)
        ensures
            p == self.offset(),
            p <= self.bytes().len(),
    {
        proof {
            use_type_invariant(self);
        }
        self.pos
    }

    /// The number of bytes in the stream.
    pub fn len(&self) -> (n: usize)
        ensures
            n == self.bytes().len(),
    {
        self.data.len()
    }

    /// Reads one byte, or fails at the end of the stream without moving.
    pub fn read_u8(&mut self) -> (r: Result<u8, MkvError>)
        ensures
            final(self).bytes() == old(self).bytes(),
            final(self).offset() <= final(self).bytes().len(),
            old(self).offset() < old(self).bytes().len() ==> r == Ok::<u8, MkvError>(
                old(self).bytes()[old(self).offset() as int],
            ) && final(self).offset() == old(self).offset() + 1,
            old(self).offset() >= old(self).bytes().len() ==> r == Err::<u8, MkvError>(
                MkvError::UnexpectedEof,
            ) && final(self).offset() == old(self).offset(),
    {
        proof {
            use_type_invariant(&*self);
        }
        if self.pos < self.data.len() {
            let b = self.data[self.pos];
            self.pos = self.pos + 1;
            Ok(b)
        } else {
            Err(MkvError::UnexpectedEof)
        }
    }

    /// Reads exactly `count` bytes, or fails without moving when the stream
    /// holds fewer.
    pub fn read_exact(&mut self, count: u64) -> (r: Result<Vec<u8>, MkvError>)
        ensures
            final(self).bytes() == old(self).bytes(),
            final(self).offset() <= final(self).bytes().len(),
            (match r {
                Ok(v) => Ok(v@),
                Err(e) => Err(e),
            }, final(self).offset()) == read_at(old(self).bytes(), old(self).offset(), count as nat),
    {
        proof {
            use_type_invariant(&*self);
        }
        let remaining = self.data.len() - self.pos;
        if count > remaining as u64 {
            return Err(MkvError::UnexpectedEof);
        }
        let n = count as usize;
        let start = self.pos;
        let mut out: Vec<u8> = Vec::new();
        let mut i: usize = 0;
        while i < n
            invariant
                start + n <= self.data.len(),
                i <= n,
                out@ == self.data@.subrange(start as int, start + i),
            decreases n - i,
        {
            out.push(self.data[start + i]);
            i = i + 1;
        }
        self.pos = start + n;
        Ok(out)
    }

    /// Moves the offset `count` bytes forward, or fails without moving when
    /// that would pass the end of the stream.
    pub fn skip(&mut self, count: u64) -> (r: Result<(), MkvError>)
        ensures
            final(self).bytes() == old(self).bytes(),
            final(self).offset() <= final(self).bytes().len(),
            (r, final(self).offset()) == skip_at(old(self).bytes(), old(self).offset(), count as nat),
    {
        proof {
            use_type_invariant(&*self);
        }
        let remaining = self.data.len() - self.pos;
        if count > remaining as u64 {
            return Err(MkvError::UnexpectedEof);
        }
        self.pos = self.pos + count as usize;
        Ok(())
    }
}

} // verus!
