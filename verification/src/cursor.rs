use vstd::prelude::*;
use crate::errors::VdfError;

verus! {

/// A forward-only reader over a fixed byte buffer: the buffer and an offset
/// that only grows.
pub struct ByteCursor {
    pub data: Vec<u8>,
    pub pos: usize,
}

impl ByteCursor {
    /// The offset never passes the end of the buffer.
    pub open spec fn wf(&self) -> bool {
        self.pos <= self.data@.len()
    }

    /// Wraps a buffer, positioned at its start.
    pub fn new(data: Vec<u8>) -> (r: ByteCursor)
        ensures
            r.data@ == data@,
            r.pos == 0,
            r.wf(),
    {
        ByteCursor { data, pos: 0 }
    }

    /// Reads the next byte, or reports that the stream is exhausted.
    /// Exhaustion here is a signal, not an error.
    pub fn try_read_one(&mut self) -> (r: Option<u8>)
        requires
            old(self).wf(),
        ensures
            final(self).wf(),
            final(self).data@ == old(self).data@,
            match r {
                Some(b) => old(self).pos < old(self).data@.len() && b == old(self).data@[old(
                    self,
                ).pos as int] && final(self).pos == old(self).pos + 1,
                None => old(self).pos == old(self).data@.len() && final(self).pos == old(
                    self,
                ).pos,
            },
    {
        if self.pos < self.data.len() {
            let b = self.data[self.pos];
            self.pos = self.pos + 1;
            Some(b)
        } else {
            None
        }
    }

    /// Returns the next `n` bytes and advances by `n`, or fails without
    /// advancing when fewer than `n` bytes remain.
    pub fn read_exact(&mut self, n: usize) -> (r: Result<Vec<u8>, VdfError>)
        requires
            old(self).wf(),
        ensures
            final(self).wf(),
            final(self).data@ == old(self).data@,
            match r {
                Ok(bytes) => {
                    &&& old(self).pos + n <= old(self).data@.len()
                    &&& bytes@ == old(self).data@.subrange(
                        old(self).pos as int,
                        old(self).pos + n,
                    )
                    &&& final(self).pos == old(self).pos + n
                },
                Err(e) => {
                    &&& old(self).pos + n > old(self).data@.len()
                    &&& e == VdfError::UnexpectedEnd
                    &&& final(self).pos == old(self).pos
                },
            },
    {
        if self.data.len() - self.pos < n {
            return Err(VdfError::UnexpectedEnd);
        }
        let mut out: Vec<u8> = Vec::new();
        let mut i: usize = 0;
        while i < n
            invariant
                i <= n,
                self.data@.len() <= usize::MAX,
                self.data@ == old(self).data@,
                self.pos == old(self).pos,
                self.pos + n <= self.data@.len(),
                out@ == self.data@.subrange(self.pos as int, self.pos + i),
            decreases n - i,
        {
            out.push(self.data[self.pos + i]);
            proof {
                assert(out@ =~= self.data@.subrange(self.pos as int, self.pos + i + 1));
            }
            i = i + 1;
        }
        self.pos = self.pos + n;
        Ok(out)
    }
}

} // verus!
