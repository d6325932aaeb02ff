//! An in-memory byte source that is consumed front to back.
use crate::err::IoFailure;
use vstd::prelude::*;

verus! {

/// A byte source over a buffer; reading advances a position that never goes back.
pub struct ByteSource {
    bytes: Vec<u8>,
    pos: usize,
}

impl ByteSource {
    #[verifier::type_invariant]
    spec fn inv(&self) -> bool {
        self.pos <= self.bytes@.len()
    }

    /// The bytes not yet read.
    pub closed spec fn rest(&self) -> Seq<u8> {
        self.bytes@.skip(self.pos as int)
    }

    /// A source that yields `bytes` in order.
    pub fn new(bytes: Vec<u8>) -> (s: Self)
        ensures
            s.rest() == bytes@,
    {
        let s = ByteSource { bytes, pos: 0 };
        proof {
            assert(s.rest() =~= s.bytes@);
        }
        s
    }

    /// The number of bytes not yet read.
    pub fn remaining(&self) -> (n: usize)
        ensures
            n == self.rest().len(),
    {
        proof {
            use_type_invariant(self);
        }
        self.bytes.len() - self.pos
    }

    /// Reads one byte; fails, consuming nothing, at the end of the source.
    pub fn read_u8(&mut self) -> (r: Result<u8, IoFailure>)
        ensures
            old(self).rest().len() > 0 ==> r == Ok::<u8, IoFailure>(old(self).rest()[0])
                && final(self).rest() == old(self).rest().skip(1),
            old(self).rest().len() == 0 ==> r == Err::<u8, IoFailure>(IoFailure::UnexpectedEof)
                && final(self).rest() == old(self).rest(),
    {
        proof {
            use_type_invariant(&*self);
        }
        if self.pos < self.bytes.len() {
            let b = self.bytes[self.pos];
            self.pos = self.pos + 1;
            proof {
                assert(final(self).rest() =~= old(self).rest().skip(1));
            }
            Ok(b)
        } else {
            Err(IoFailure::UnexpectedEof)
        }
    }

    /// Reads exactly `n` bytes; fails, consuming nothing, where fewer remain.
    pub fn read_exact(&mut self, n: usize) -> (r: Result<Vec<u8>, IoFailure>)
        ensures
            old(self).rest().len() >= n ==> r is Ok && r->Ok_0@ == old(self).rest().take(n as int)
                && final(self).rest() == old(self).rest().skip(n as int),
            old(self).rest().len() < n ==> r == Err::<Vec<u8>, IoFailure>(IoFailure::UnexpectedEof)
                && final(self).rest() == old(self).rest(),
    {
        proof {
            use_type_invariant(&*self);
        }
        if self.bytes.len() - self.pos < n {
            return Err(IoFailure::UnexpectedEof);
        }
        let mut out: Vec<u8> = Vec::new();
        let mut i: usize = 0;
        while i < n
            invariant
                self.pos + n <= self.bytes@.len() <= usize::MAX,
                self.bytes@ == old(self).bytes@,
                self.pos == old(self).pos,
                i <= n,
                out@ == self.bytes@.subrange(self.pos as int, self.pos + i),
            decreases n - i,
        {
            out.push(self.bytes[self.pos + i]);
            i = i + 1;
            proof {
                assert(out@ =~= self.bytes@.subrange(self.pos as int, self.pos + i));
            }
        }
        self.pos = self.pos + n;
        proof {
            assert(out@ =~= old(self).rest().take(n as int));
            assert(final(self).rest() =~= old(self).rest().skip(n as int));
        }
        Ok(out)
    }
}

} // verus!
