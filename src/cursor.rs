use vstd::prelude::*;
use crate::error::Error;

verus! {

/// A read position over DNA bytes that only moves forward.
pub struct ByteCursor<'a> {
    data: &'a [u8],
    pos: usize,
}

impl<'a> ByteCursor<'a> {
    pub closed spec fn bytes(&self) -> Seq<u8> {
        self.data@
    }

    pub closed spec fn position(&self) -> int {
        self.pos as int
    }

    pub closed spec fn wf(&self) -> bool {
        self.pos <= self.data@.len()
    }

    pub fn new(data: &'a [u8]) -> (r: ByteCursor<'a>)
        ensures
            r.wf(),
            r.bytes() == data@,
            r.position() == 0,
    {
        ByteCursor { data, pos: 0 }
    }

    /// Hands out the next `n` bytes, or fails without moving when fewer
    /// remain.
    pub fn take(&mut self, n: usize) -> (r: Result<Vec<u8>, Error>)
        requires
            old(self).wf(),
        ensures
            final(self).wf(),
            final(self).bytes() == old(self).bytes(),
            old(self).position() + n <= old(self).bytes().len() ==> r is Ok
                && r->Ok_0@ == old(self).bytes().subrange(
                old(self).position(),
                old(self).position() + n,
            ) && final(self).position() == old(self).position() + n,
            old(self).position() + n > old(self).bytes().len() ==> r == Err::<Vec<u8>, Error>(
                Error::InsufficientDNABytes,
            ) && final(self).position() == old(self).position(),
    {
        if n > self.data.len() - self.pos {
            return Err(Error::InsufficientDNABytes);
        }
        let mut out: Vec<u8> = Vec::new();
        let len = self.data.len();
        let mut i: usize = 0;
        while i < n
            invariant
                len == self.data@.len(),
                self.wf(),
                i <= n,
                self.pos + n <= self.data@.len(),
                out@ == self.data@.subrange(self.pos as int, self.pos + i),
            decreases n - i,
        {
            out.push(self.data[self.pos + i]);
            i = i + 1;
            assert(out@ =~= self.data@.subrange(self.pos as int, self.pos + i));
        }
        self.pos = self.pos + n;
        Ok(out)
    }
}

} // verus!
