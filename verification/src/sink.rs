//! The byte-sink abstraction that the writer works over, and an in-memory
//! sink that collects everything written into a buffer.

use vstd::prelude::*;

use crate::error::Error;

verus! {

/// A sink of bytes that the writer fills in order: a capture file being
/// created, a socket, or a buffer in memory.
///
/// `sent()` is everything that has been written so far. Writes append;
/// nothing already sent ever changes.
pub trait ByteSink: Sized {
    /// Everything written to this sink so far, in order.
    spec fn sent(&self) -> Seq<u8>;

    /// The sink's own well-formedness.
    spec fn inv(&self) -> bool;

    /// Writes all of `data` to the sink. A hard transport fault is
    /// `Error::Io`; even then writes only append: what was already sent
    /// stays, followed by some prefix of `data`, though after a fault
    /// the stream position is unreliable and no further framing is
    /// promised.
    fn write_all(&mut self, data: &[u8]) -> (r: Result<(), Error>)
        requires
            old(self).inv(),
        ensures
            final(self).inv(),
            match r {
                Ok(()) => final(self).sent() == old(self).sent() + data@,
                Err(e) => e == Error::Io && exists|k: int|
                    0 <= k <= data@.len() && final(self).sent() == old(self).sent()
                        + #[trigger] data@.subrange(0, k),
            },
    ;
}

/// A byte sink that collects everything written into a growable buffer
/// in memory. It never fails.
pub struct BufSink {
    /// Everything written so far.
    pub data: Vec<u8>,
}

impl BufSink {
    /// An empty sink.
    pub fn new() -> (r: BufSink)
        ensures
            r.inv(),
            r.sent() == Seq::<u8>::empty(),
    {
        BufSink { data: Vec::new() }
    }
}

impl ByteSink for BufSink {
    open spec fn sent(&self) -> Seq<u8> {
        self.data@
    }

    open spec fn inv(&self) -> bool {
        true
    }

    fn write_all(&mut self, data: &[u8]) -> (r: Result<(), Error>) {
        let mut k: usize = 0;
        while k < data.len()
            invariant
                k <= data.len(),
                self.data@ == old(self).data@ + data@.subrange(0, k as int),
            decreases data.len() - k,
        {
            let b = data[k];
            self.data.push(b);
            proof {
                assert(old(self).data@ + data@.subrange(0, k as int) + seq![data@[k as int]]
                    =~= old(self).data@ + data@.subrange(0, k + 1));
            }
            k = k + 1;
        }
        proof {
            assert(data@.subrange(0, data@.len() as int) =~= data@);
        }
        Ok(())
    }
}

} // verus!
