//! The byte-source abstraction that the reader works over, and in-memory
//! sources for captures that are already held in a buffer.
//!
//! A source offers a stream of bytes. The stream is allowed to grow while
//! it is being read — a capture file that is still being written, say —
//! but bytes once offered never change. A source hands bytes out in
//! order, reporting with each request how many it could deliver.

use vstd::prelude::*;

use core::time::Duration;

use crate::error::Error;

verus! {

/// Whether the byte stream `later` is the byte stream `earlier` with zero
/// or more bytes appended. A source's stream may only ever change this
/// way.
pub open spec fn stream_extends(later: Seq<u8>, earlier: Seq<u8>) -> bool {
    &&& earlier.len() <= later.len()
    &&& later.subrange(0, earlier.len() as int) == earlier
}

/// Every stream extends itself.
pub proof fn lemma_stream_extends_refl(s: Seq<u8>)
    ensures
        stream_extends(s, s),
{
    assert(s.subrange(0, s.len() as int) =~= s);
}

/// Stream extension is transitive.
pub proof fn lemma_stream_extends_trans(a: Seq<u8>, b: Seq<u8>, c: Seq<u8>)
    requires
        stream_extends(b, a),
        stream_extends(c, b),
    ensures
        stream_extends(c, a),
{
    assert forall|k: int| 0 <= k < a.len() implies c[k] == a[k] by {
        assert(b.subrange(0, a.len() as int)[k] == b[k]);
        assert(c.subrange(0, b.len() as int)[k] == c[k]);
    }
    assert(c.subrange(0, a.len() as int) =~= a);
}

/// Bytes already offered are unchanged when a stream grows: any range
/// that lies within the earlier stream reads the same from the later one.
pub proof fn lemma_stream_extends_subrange(later: Seq<u8>, earlier: Seq<u8>, a: int, b: int)
    requires
        stream_extends(later, earlier),
        0 <= a <= b <= earlier.len(),
    ensures
        later.subrange(a, b) == earlier.subrange(a, b),
{
    assert forall|k: int| 0 <= k < b - a implies later.subrange(a, b)[k] == earlier.subrange(
        a,
        b,
    )[k] by {
        assert(later.subrange(0, earlier.len() as int)[a + k] == later[a + k]);
    }
    assert(later.subrange(a, b) =~= earlier.subrange(a, b));
}

/// A source of bytes that the reader can drain in order: an open capture
/// file, a socket, or a buffer already in memory.
///
/// `stream()` is the sequence of bytes the source has offered so far and
/// `pos()` is how many of them have already been handed out. Reading
/// never reorders or rewrites bytes: the stream may only grow at its end,
/// and delivery continues from `pos()`.
pub trait ByteSource: Sized {
    /// The bytes this source offers, from the beginning of the capture.
    spec fn stream(&self) -> Seq<u8>;

    /// How many bytes of the stream have been handed out already.
    spec fn pos(&self) -> int;

    /// Whether this source's stream can ever grow. A source over a
    /// fixed buffer answers `false`, and its stream then never changes;
    /// a tail-followed capture answers `true`.
    spec fn grows(&self) -> bool;

    /// The source's own well-formedness.
    spec fn inv(&self) -> bool;

    /// Attempts to fill `buf[start..end]` with the next bytes of the
    /// stream, returning how many bytes were delivered.
    ///
    /// A short count is allowed at any time. Zero may be returned only
    /// when the source is — right now — out of bytes; a later call may
    /// deliver more if the stream has grown in the meantime. A hard
    /// transport fault is `Error::Io` and leaves the buffer and the
    /// position alone; a source that can retry a transient interruption
    /// does so internally.
    fn read_into(&mut self, buf: &mut Vec<u8>, start: usize, end: usize) -> (r: Result<
        usize,
        Error,
    >)
        requires
            old(self).inv(),
            0 <= old(self).pos() <= old(self).stream().len(),
            start <= end,
            end <= old(buf).len(),
        ensures
            final(self).inv(),
            final(buf).len() == old(buf).len(),
            stream_extends(final(self).stream(), old(self).stream()),
            final(self).pos() <= final(self).stream().len(),
            final(self).grows() == old(self).grows(),
            !old(self).grows() ==> final(self).stream() == old(self).stream(),
            match r {
                Ok(n) => {
                    &&& n <= end - start
                    &&& final(self).pos() == old(self).pos() + n
                    &&& forall|i: int|
                        0 <= i < final(buf).len() && !(start <= i < start + n)
                            ==> final(buf)[i] == old(buf)[i]
                    &&& final(buf)@.subrange(start as int, start + n)
                        == final(self).stream().subrange(old(self).pos(), old(self).pos() + n)
                    &&& (n == 0 && start < end ==> final(self).pos() == final(self).stream().len())
                },
                Err(e) => {
                    &&& e == Error::Io
                    &&& final(self).pos() == old(self).pos()
                    &&& final(buf)@ == old(buf)@
                },
            },
    ;

    /// Waits for the stream to grow past the bytes already handed out,
    /// pausing for at most roughly the given interval.
    ///
    /// Returns `true` when undelivered bytes are now available. `false`
    /// means the source knows that no more bytes will ever come, and is
    /// how a finite source ends a tail-follow read.
    fn wait(&mut self, interval: &Duration) -> (more: bool)
        requires
            old(self).inv(),
            0 <= old(self).pos() <= old(self).stream().len(),
        ensures
            final(self).inv(),
            stream_extends(final(self).stream(), old(self).stream()),
            final(self).pos() == old(self).pos(),
            final(self).pos() <= final(self).stream().len(),
            final(self).grows() == old(self).grows(),
            !old(self).grows() ==> final(self).stream() == old(self).stream(),
            more ==> final(self).pos() < final(self).stream().len(),
    ;
}

/// A byte source over a buffer that is wholly in memory. It can hand out
/// at most `chunk` bytes per request, which mirrors transports that
/// return short reads; the stream never grows.
pub struct BufSource {
    /// The whole capture.
    pub data: Vec<u8>,
    /// How many bytes have been handed out.
    pub taken: usize,
    /// The most bytes one request may deliver; at least one.
    pub chunk: usize,
}

impl BufSource {
    /// A source over the given bytes that serves every request in full.
    pub fn new(data: Vec<u8>) -> (r: BufSource)
        ensures
            r.inv(),
            r.stream() == data@,
            r.pos() == 0,
    {
        let chunk = if data.len() > 0 {
            data.len()
        } else {
            1
        };
        BufSource { data, taken: 0, chunk }
    }

    /// A source over the given bytes that delivers at most `chunk` bytes
    /// per request.
    pub fn with_chunk(data: Vec<u8>, chunk: usize) -> (r: BufSource)
        requires
            chunk >= 1,
        ensures
            r.inv(),
            r.stream() == data@,
            r.pos() == 0,
    {
        BufSource { data, taken: 0, chunk }
    }
}

impl ByteSource for BufSource {
    open spec fn stream(&self) -> Seq<u8> {
        self.data@
    }

    open spec fn pos(&self) -> int {
        self.taken as int
    }

    open spec fn grows(&self) -> bool {
        false
    }

    open spec fn inv(&self) -> bool {
        self.taken <= self.data.len() && self.chunk >= 1
    }

    fn read_into(&mut self, buf: &mut Vec<u8>, start: usize, end: usize) -> (r: Result<
        usize,
        Error,
    >) {
        let want = end - start;
        let avail = self.data.len() - self.taken;
        let mut n = if want < avail {
            want
        } else {
            avail
        };
        if n > self.chunk {
            n = self.chunk;
        }
        let mut k: usize = 0;
        while k < n
            invariant
                k <= n,
                n <= end - start,
                self.taken + n <= self.data.len(),
                start + n <= buf.len(),
                buf.len() == old(buf).len(),
                *self == *old(self),
                forall|i: int|
                    0 <= i < buf.len() && !(start <= i < start + k) ==> buf[i] == old(buf)[i],
                forall|i: int| 0 <= i < k ==> #[trigger] buf[start + i] == self.data[self.taken + i],
            decreases n - k,
        {
            let b = self.data[self.taken + k];
            buf[start + k] = b;
            k = k + 1;
        }
        proof {
            assert forall|i: int| 0 <= i < n implies #[trigger] buf@.subrange(
                start as int,
                start + n,
            )[i] == self.data@.subrange(self.taken as int, self.taken + n)[i] by {
                assert(buf[start + i] == self.data[self.taken + i]);
            }
            assert(buf@.subrange(start as int, start + n) =~= self.data@.subrange(
                self.taken as int,
                self.taken + n,
            ));
            assert(self.stream().subrange(0, self.stream().len() as int) =~= self.stream());
        }
        self.taken = self.taken + n;
        Ok(n)
    }

    fn wait(&mut self, interval: &Duration) -> (more: bool) {
        proof {
            assert(self.stream().subrange(0, self.stream().len() as int) =~= self.stream());
        }
        self.taken < self.data.len()
    }
}

/// A byte source whose stream grows while it is being read: the whole
/// capture is in memory, but only a prefix has arrived at any moment, and
/// every wait lets up to `step` more bytes arrive. It behaves like a
/// capture file that another process is still appending to, and drives
/// the tail-follow read path.
pub struct GrowingSource {
    /// The capture that will eventually have arrived in full.
    pub data: Vec<u8>,
    /// How many bytes have arrived so far.
    pub arrived: usize,
    /// How many bytes have been handed out.
    pub taken: usize,
    /// How many further bytes arrive per wait; at least one.
    pub step: usize,
}

impl GrowingSource {
    /// A source over the given bytes of which `arrived` have already
    /// arrived, growing by up to `step` bytes per wait.
    pub fn new(data: Vec<u8>, arrived: usize, step: usize) -> (r: GrowingSource)
        requires
            arrived <= data@.len(),
            step >= 1,
        ensures
            r.inv(),
            r.stream() == data@.subrange(0, arrived as int),
            r.pos() == 0,
            r.data@ == data@,
    {
        GrowingSource { data, arrived, taken: 0, step }
    }
}

impl ByteSource for GrowingSource {
    open spec fn stream(&self) -> Seq<u8> {
        self.data@.subrange(0, self.arrived as int)
    }

    open spec fn pos(&self) -> int {
        self.taken as int
    }

    open spec fn grows(&self) -> bool {
        true
    }

    open spec fn inv(&self) -> bool {
        self.taken <= self.arrived && self.arrived <= self.data.len() && self.step >= 1
    }

    fn read_into(&mut self, buf: &mut Vec<u8>, start: usize, end: usize) -> (r: Result<
        usize,
        Error,
    >) {
        let want = end - start;
        let avail = self.arrived - self.taken;
        let n = if want < avail {
            want
        } else {
            avail
        };
        let mut k: usize = 0;
        while k < n
            invariant
                k <= n,
                n <= end - start,
                self.taken + n <= self.arrived <= self.data.len(),
                start + n <= buf.len(),
                buf.len() == old(buf).len(),
                *self == *old(self),
                forall|i: int|
                    0 <= i < buf.len() && !(start <= i < start + k) ==> buf[i] == old(buf)[i],
                forall|i: int| 0 <= i < k ==> #[trigger] buf[start + i] == self.data[self.taken + i],
            decreases n - k,
        {
            let b = self.data[self.taken + k];
            buf[start + k] = b;
            k = k + 1;
        }
        proof {
            assert forall|i: int| 0 <= i < n implies #[trigger] buf@.subrange(
                start as int,
                start + n,
            )[i] == self.stream().subrange(self.taken as int, self.taken + n)[i] by {
                assert(buf[start + i] == self.data[self.taken + i]);
                assert(self.stream()[self.taken + i] == self.data[self.taken + i]);
            }
            assert(buf@.subrange(start as int, start + n) =~= self.stream().subrange(
                self.taken as int,
                self.taken + n,
            ));
            assert(self.stream().subrange(0, self.stream().len() as int) =~= self.stream());
        }
        self.taken = self.taken + n;
        Ok(n)
    }

    fn wait(&mut self, interval: &Duration) -> (more: bool) {
        let ghost before = self.stream();
        if self.arrived < self.data.len() {
            let room = self.data.len() - self.arrived;
            let grow = if self.step < room {
                self.step
            } else {
                room
            };
            self.arrived = self.arrived + grow;
            proof {
                assert(self.stream().subrange(0, before.len() as int) =~= before);
            }
            true
        } else {
            proof {
                assert(self.stream().subrange(0, before.len() as int) =~= before);
            }
            self.taken < self.arrived
        }
    }
}

} // verus!
