//! Reads snoop captures from a byte source: validates the file header on
//! construction, then frames packets one at a time into an internal
//! buffer, with one-shot and tail-follow read modes.

use vstd::prelude::*;

use core::time::Duration;

use vstd::slice::slice_subrange;
use vstd::slice::slice_to_vec;

use crate::error::Error;
use crate::format::DataLinkType;
use crate::format::PacketHeader;
use crate::format::SnoopHeader;
use crate::format::SnoopPacket;
use crate::format::SnoopPacketRef;
use crate::format::spec_data_len;
use crate::format::spec_file_header;
use crate::format::spec_header_valid;
use crate::format::spec_pad;
use crate::format::spec_packet_header;
use crate::format::spec_validate;
use crate::parser::Parser;
use crate::source::ByteSource;
use crate::source::lemma_stream_extends_refl;
use crate::source::lemma_stream_extends_subrange;
use crate::source::lemma_stream_extends_trans;
use crate::source::stream_extends;

verus! {

/// Size of the reader's scratch buffer: one record's data and pad at
/// their largest, and comfortably more than either header.
pub const READ_BUF_LEN: usize = 4100;

/// Whether the stream holds one whole well-formed record at position
/// `p`: a full 24-byte record header that passes validation and declares
/// at most four pad bytes, followed by as many bytes as it declares.
pub open spec fn stream_has_record(s: Seq<u8>, p: int) -> bool {
    &&& 0 <= p
    &&& p + 24 <= s.len()
    &&& spec_header_valid(spec_packet_header(s.subrange(p, p + 24)))
    &&& spec_pad(spec_packet_header(s.subrange(p, p + 24))) <= 4
    &&& p + 24 + spec_data_len(spec_packet_header(s.subrange(p, p + 24))) <= s.len()
}

/// A reader over a byte source. It owns the source, the file header that
/// was parsed at construction, one reusable record header, and a scratch
/// buffer that each read overwrites.
pub struct Reader<S> {
    /// The byte source being drained.
    pub src: S,
    /// The file header parsed at construction.
    pub header: SnoopHeader,
    /// The record header of the packet read last, reused across reads.
    pub ph: PacketHeader,
    /// The scratch buffer one record is framed into; reads overwrite it.
    pub buf: Vec<u8>,
}

impl<S: ByteSource> Reader<S> {
    /// What every read relies on and preserves: the source is usable and
    /// in bounds, and the scratch buffer has its fixed size.
    pub open spec fn wf(&self) -> bool {
        &&& self.src.inv()
        &&& 0 <= self.src.pos() <= self.src.stream().len()
        &&& self.buf.len() == READ_BUF_LEN
    }

    /// The bytes the reader's source has offered so far.
    pub open spec fn stream(&self) -> Seq<u8> {
        self.src.stream()
    }

    /// How many bytes of the stream have been consumed.
    pub open spec fn pos(&self) -> int {
        self.src.pos()
    }

    /// Whether the source's stream can ever grow. Over a fixed buffer
    /// this is false, and the stream then never changes under the
    /// reader's hands.
    pub open spec fn grows(&self) -> bool {
        self.src.grows()
    }

    /// What a successful packet read means, `prev` being the reader
    /// before the call: one whole record was consumed from the old
    /// position; its header decodes from the first 24 bytes, passes
    /// validation and declares at most four pad bytes; and the packet
    /// hands out exactly the captured data, with the pad consumed from
    /// the stream but stripped.
    pub open spec fn read_ok(&self, prev: Self, h: PacketHeader, data: Seq<u8>) -> bool {
        &&& self.wf()
        &&& stream_extends(self.stream(), prev.stream())
        &&& self.header == prev.header
        &&& h == spec_packet_header(self.stream().subrange(prev.pos(), prev.pos() + 24))
        &&& spec_header_valid(h)
        &&& 0 <= spec_pad(h) <= 4
        &&& data == self.stream().subrange(prev.pos() + 24, prev.pos() + 24 + h.included_length)
        &&& self.pos() == prev.pos() + 24 + spec_data_len(h)
        &&& self.pos() <= self.stream().len()
        &&& self.ph == h
    }

    /// What a failed packet read means, error by error. `Eof` comes with
    /// nothing consumed, or with a well-formed record header after which
    /// the stream ended; `UnexpectedEof` reports a partial header or
    /// partial data; the three validation errors leave the decoded but
    /// rejected header in `ph`; `InvalidPadLen` rejects a validated
    /// header that declares more than four pad bytes; `Io` is the
    /// source's own fault. No other error is ever produced by a read.
    pub open spec fn read_failed(&self, prev: Self, e: Error) -> bool {
        &&& self.wf()
        &&& stream_extends(self.stream(), prev.stream())
        &&& self.header == prev.header
        &&& match e {
            Error::Eof => (self.pos() == prev.pos() && self.ph == prev.ph) || {
                let h = spec_packet_header(self.stream().subrange(prev.pos(), prev.pos() + 24));
                &&& self.ph == h
                &&& spec_header_valid(h)
                &&& 0 <= spec_pad(h) <= 4
                &&& spec_data_len(h) > 0
                &&& self.pos() == prev.pos() + 24
            },
            Error::UnexpectedEof(n) => (0 < n < 24 && self.pos() == prev.pos() + n && self.ph
                == prev.ph) || {
                let h = spec_packet_header(self.stream().subrange(prev.pos(), prev.pos() + 24));
                &&& self.ph == h
                &&& spec_header_valid(h)
                &&& 0 <= spec_pad(h) <= 4
                &&& 0 < n < spec_data_len(h)
                &&& self.pos() == prev.pos() + 24 + n
            },
            Error::OriginalLenExceeded | Error::CaptureLenExceeded | Error::InvalidRecordLength => {
                let h = spec_packet_header(self.stream().subrange(prev.pos(), prev.pos() + 24));
                &&& self.ph == h
                &&& spec_validate(h) == Some(e)
                &&& self.pos() == prev.pos() + 24
            },
            Error::InvalidPadLen => {
                let h = spec_packet_header(self.stream().subrange(prev.pos(), prev.pos() + 24));
                &&& self.ph == h
                &&& spec_header_valid(h)
                &&& spec_pad(h) > 4
                &&& self.pos() == prev.pos() + 24
            },
            Error::Io => prev.pos() <= self.pos(),
            _ => false,
        }
    }

    /// Reads bytes from the source until `buf[start..end]` is full,
    /// accumulating short deliveries. A source that is out of bytes
    /// before any were obtained is a clean `Eof`; one that runs out
    /// after partial progress is `UnexpectedEof` with the count obtained
    /// in this call; a source fault is `Io`. If the stream already held
    /// enough bytes when the call began, the read cannot run out.
    fn read_exact(&mut self, start: usize, end: usize) -> (r: Result<(), Error>)
        requires
            old(self).wf(),
            start <= end,
            end <= old(self).buf.len(),
        ensures
            final(self).wf(),
            final(self).header == old(self).header,
            final(self).ph == old(self).ph,
            final(self).buf.len() == old(self).buf.len(),
            stream_extends(final(self).stream(), old(self).stream()),
            final(self).grows() == old(self).grows(),
            !old(self).grows() ==> final(self).stream() == old(self).stream(),
            forall|i: int|
                0 <= i < final(self).buf.len() && !(start <= i < end) ==> final(self).buf[i] == old(self).buf[i],
            match r {
                Ok(()) => {
                    &&& final(self).pos() == old(self).pos() + (end - start)
                    &&& final(self).buf@.subrange(start as int, end as int) == final(self).stream().subrange(old(self).pos(), old(self).pos() + (end - start))
                },
                Err(e) => match e {
                    Error::Eof => {
                        &&& start < end
                        &&& final(self).pos() == old(self).pos()
                        &&& final(self).pos() == final(self).stream().len()
                        &&& final(self).buf@ == old(self).buf@
                    },
                    Error::UnexpectedEof(n) => {
                        &&& 0 < n < end - start
                        &&& final(self).pos() == old(self).pos() + n
                        &&& final(self).pos() == final(self).stream().len()
                        &&& final(self).buf@.subrange(start as int, start + n) == final(self).stream().subrange(old(self).pos(), old(self).pos() + n)
                    },
                    Error::Io => old(self).pos() <= final(self).pos(),
                    _ => false,
                },
            },
            old(self).pos() + (end - start) <= old(self).stream().len() ==> (r is Ok || r == Err::<
                (),
                Error,
            >(Error::Io)),
            !old(self).grows() && old(self).pos() == old(self).stream().len() && start < end ==> (r
                == Err::<(), Error>(Error::Eof) || r == Err::<(), Error>(Error::Io)),
    {
        let ghost pre = *self;
        proof {
            lemma_stream_extends_refl(pre.src.stream());
        }
        let mut filled: usize = 0;
        let mut ended = false;
        while start + filled < end && !ended
            invariant
                pre == *old(self),
                pre.wf(),
                start <= end <= self.buf.len(),
                filled <= end - start,
                self.buf.len() == pre.buf.len(),
                self.header == pre.header,
                self.ph == pre.ph,
                self.src.inv(),
                0 <= self.src.pos() <= self.src.stream().len(),
                stream_extends(self.src.stream(), pre.src.stream()),
                self.src.grows() == pre.src.grows(),
                !pre.src.grows() ==> self.src.stream() == pre.src.stream(),
                self.src.pos() == pre.src.pos() + filled,
                forall|i: int|
                    0 <= i < self.buf.len() && !(start <= i < start + filled) ==> self.buf[i]
                        == pre.buf[i],
                self.buf@.subrange(start as int, start + filled) == self.src.stream().subrange(
                    pre.src.pos(),
                    pre.src.pos() + filled,
                ),
                ended ==> self.src.pos() == self.src.stream().len() && start + filled < end,
            decreases end - start - filled, (if ended {
                0int
            } else {
                1int
            }),
        {
            let ghost mid = *self;
            let got = ByteSource::read_into(&mut self.src, &mut self.buf, start + filled, end);
            proof {
                lemma_stream_extends_trans(pre.src.stream(), mid.src.stream(), self.src.stream());
            }
            match got {
                Ok(n) => {
                    proof {
                        lemma_stream_extends_subrange(
                            self.src.stream(),
                            mid.src.stream(),
                            pre.src.pos(),
                            pre.src.pos() + filled,
                        );
                        assert(self.buf@.subrange(start as int, start + filled) == mid.buf@
                            .subrange(start as int, start + filled)) by {
                            assert(self.buf@.subrange(start as int, start + filled) =~= mid.buf@
                                .subrange(start as int, start + filled));
                        }
                        assert(self.buf@.subrange(start as int, start + (filled + n)) =~= self.buf@
                            .subrange(start as int, start + filled) + self.buf@.subrange(
                            start + filled,
                            start + (filled + n),
                        ));
                        assert(self.src.stream().subrange(
                            pre.src.pos(),
                            pre.src.pos() + (filled + n),
                        ) =~= self.src.stream().subrange(pre.src.pos(), pre.src.pos() + filled)
                            + self.src.stream().subrange(
                            pre.src.pos() + filled,
                            pre.src.pos() + (filled + n),
                        ));
                    }
                    if n == 0 {
                        ended = true;
                    } else {
                        filled = filled + n;
                    }
                },
                Err(_) => {
                    return Err(Error::Io);
                },
            }
        }
        if filled < end - start {
            if filled == 0 {
                return Err(Error::Eof);
            }
            return Err(Error::UnexpectedEof(filled));
        }
        Ok(())
    }

    /// Reads and parses the 16-byte snoop file header from the source
    /// into `self.header`.
    fn read_header(&mut self) -> (r: Result<(), Error>)
        requires
            old(self).wf(),
        ensures
            final(self).wf(),
            final(self).ph == old(self).ph,
            final(self).buf.len() == old(self).buf.len(),
            stream_extends(final(self).stream(), old(self).stream()),
            final(self).grows() == old(self).grows(),
            !old(self).grows() ==> final(self).stream() == old(self).stream(),
            !old(self).grows() && old(self).pos() == old(self).stream().len() ==> (r == Err::<
                (),
                Error,
            >(Error::Eof) || r == Err::<(), Error>(Error::Io)),
            !old(self).grows() ==> (r matches Err(Error::UnexpectedEof(n)) ==> n == old(
                self,
            ).stream().len() - old(self).pos()),
            match r {
                Ok(()) => {
                    &&& final(self).pos() == old(self).pos() + 16
                    &&& Ok::<SnoopHeader, Error>(final(self).header) == spec_file_header(
                        final(self).stream().subrange(old(self).pos(), old(self).pos() + 16),
                    )
                },
                Err(e) => final(self).header == old(self).header && match e {
                    Error::Eof => final(self).pos() == old(self).pos() && final(self).pos()
                        == final(self).stream().len(),
                    Error::UnexpectedEof(n) => 0 < n < 16 && final(self).pos() == old(self).pos()
                        + n && final(self).pos() == final(self).stream().len(),
                    Error::UnknownMagic | Error::UnknownVersion => final(self).pos() == old(
                        self,
                    ).pos() + 16 && Err::<SnoopHeader, Error>(e) == spec_file_header(
                        final(self).stream().subrange(old(self).pos(), old(self).pos() + 16),
                    ),
                    Error::Io => old(self).pos() <= final(self).pos(),
                    _ => false,
                },
            },
    {
        match self.read_exact(0, 16) {
            Ok(()) => {},
            Err(e) => {
                return Err(e);
            },
        }
        let hdr = slice_subrange(self.buf.as_slice(), 0, 16);
        match Parser::parse_header(hdr) {
            Ok(h) => {
                self.header = h;
                Ok(())
            },
            Err(e) => Err(e),
        }
    }

    /// Makes a reader over the given source: allocates the scratch
    /// buffer, then reads and validates the file header.
    ///
    /// Fails with [`Error::UnknownMagic`] or [`Error::UnknownVersion`]
    /// when the first 16 bytes are no acceptable file header, with
    /// [`Error::Eof`] or [`Error::UnexpectedEof`] when fewer than 16
    /// bytes were ever available, and with [`Error::Io`] on a transport
    /// fault. When the source already held 16 bytes, the outcome is
    /// exactly what those bytes say, unless the transport fails.
    pub fn new(src: S) -> (r: Result<Reader<S>, Error>)
        requires
            src.inv(),
            0 <= src.pos() <= src.stream().len(),
        ensures
            match r {
                Ok(rd) => {
                    &&& rd.wf()
                    &&& stream_extends(rd.stream(), src.stream())
                    &&& rd.pos() == src.pos() + 16
                    &&& Ok::<SnoopHeader, Error>(rd.header) == spec_file_header(
                        rd.stream().subrange(src.pos(), src.pos() + 16),
                    )
                },
                Err(e) => match e {
                    Error::Eof => true,
                    Error::UnexpectedEof(n) => 0 < n < 16,
                    Error::UnknownMagic | Error::UnknownVersion => true,
                    Error::Io => true,
                    _ => false,
                },
            },
            src.pos() + 16 <= src.stream().len() ==> match r {
                Ok(rd) => Ok::<SnoopHeader, Error>(rd.header) == spec_file_header(
                    src.stream().subrange(src.pos(), src.pos() + 16),
                ),
                Err(e) => e == Error::Io || Err::<SnoopHeader, Error>(e) == spec_file_header(
                    src.stream().subrange(src.pos(), src.pos() + 16),
                ),
            },
            match r {
                Ok(rd) => rd.grows() == src.grows() && (!src.grows() ==> rd.stream()
                    == src.stream()),
                Err(_) => true,
            },
            r matches Err(Error::Eof) ==> src.pos() == src.stream().len(),
            r matches Err(Error::UnexpectedEof(n)) ==> n >= src.stream().len() - src.pos(),
            !src.grows() ==> (r matches Err(Error::UnexpectedEof(n)) ==> n == src.stream().len()
                - src.pos()),
            !src.grows() && src.pos() == src.stream().len() ==> (r matches Err(Error::Eof) || r
                matches Err(Error::Io)),
            !src.grows() && src.pos() < src.stream().len() && src.pos() + 16 > src.stream().len()
                ==> (r matches Err(Error::UnexpectedEof(_)) || r matches Err(Error::Io)),
    {
        let ghost s0 = src;
        let mut buf: Vec<u8> = Vec::new();
        let mut k: usize = 0;
        while k < READ_BUF_LEN
            invariant
                buf.len() == k,
                k <= READ_BUF_LEN,
            decreases READ_BUF_LEN - k,
        {
            buf.push(0u8);
            k = k + 1;
        }
        let mut rd = Reader {
            src,
            header: SnoopHeader { version: 0, link_type: DataLinkType::Unassigned },
            ph: PacketHeader {
                original_length: 0,
                included_length: 0,
                packet_record_length: 0,
                cumulative_drops: 0,
                timestamp_seconds: 0,
                timestamp_microseconds: 0,
            },
            buf,
        };
        let outcome = rd.read_header();
        proof {
            if s0.pos() + 16 <= s0.stream().len() {
                lemma_stream_extends_subrange(
                    rd.stream(),
                    s0.stream(),
                    s0.pos(),
                    s0.pos() + 16,
                );
            }
        }
        match outcome {
            Ok(()) => Ok(rd),
            Err(e) => Err(e),
        }
    }

    /// The file header that was parsed when this reader was made.
    pub fn header(&self) -> (r: &SnoopHeader)
        ensures
            *r == self.header,
    {
        &self.header
    }

    /// Reads the next packet and returns it borrowed out of the internal
    /// buffer: the reusable record header, and the captured data with
    /// the pad consumed from the stream but stripped from the slice.
    /// The next read call on this reader overwrites both.
    ///
    /// If the stream already held one whole well-formed record at the
    /// current position, the read succeeds unless the transport fails.
    pub fn read_ref(&mut self) -> (r: Result<SnoopPacketRef<'_>, Error>)
        requires
            old(self).wf(),
        ensures
            match r {
                Ok(p) => final(self).read_ok(*old(self), *p.header, p.data@),
                Err(e) => final(self).read_failed(*old(self), e),
            },
            r matches Err(Error::Eof) ==> final(self).pos() == final(self).stream().len(),
            r matches Err(Error::UnexpectedEof(_))
                ==> final(self).pos() == final(self).stream().len(),
            final(self).grows() == old(self).grows(),
            !old(self).grows() ==> final(self).stream() == old(self).stream(),
            !old(self).grows() && old(self).pos() == old(self).stream().len() ==> (r matches Err(
                Error::Eof,
            ) || r matches Err(Error::Io)),
            stream_has_record(old(self).stream(), old(self).pos()) ==> match r {
                Ok(_) => true,
                Err(e) => e == Error::Io,
            },
    {
        let ghost prev = *self;
        match self.read_exact(0, 24) {
            Ok(()) => {},
            Err(e) => {
                return Err(e);
            },
        }
        let hdr = slice_subrange(self.buf.as_slice(), 0, 24);
        let parsed = Parser::parse_packet_header(hdr, &mut self.ph);
        proof {
            if prev.pos() + 24 <= prev.stream().len() {
                lemma_stream_extends_subrange(
                    self.stream(),
                    prev.stream(),
                    prev.pos(),
                    prev.pos() + 24,
                );
            }
        }
        match parsed {
            Ok(()) => {},
            Err(e) => {
                return Err(e);
            },
        }
        let p = Parser::pad(&self.ph);
        if p > 4 {
            return Err(Error::InvalidPadLen);
        }
        let dl = Parser::data_len(&self.ph);
        let ghost s2 = *self;
        match self.read_exact(0, dl) {
            Ok(()) => {},
            Err(e) => {
                proof {
                    lemma_stream_extends_trans(prev.stream(), s2.stream(), self.stream());
                    lemma_stream_extends_subrange(
                        self.stream(),
                        s2.stream(),
                        prev.pos(),
                        prev.pos() + 24,
                    );
                    if prev.pos() + 24 <= prev.stream().len() {
                        lemma_stream_extends_subrange(
                            self.stream(),
                            prev.stream(),
                            prev.pos(),
                            prev.pos() + 24,
                        );
                    }
                }
                return Err(e);
            },
        }
        let incl = self.ph.included_length as usize;
        proof {
            lemma_stream_extends_trans(prev.stream(), s2.stream(), self.stream());
            lemma_stream_extends_subrange(
                self.stream(),
                s2.stream(),
                prev.pos(),
                prev.pos() + 24,
            );
            assert(self.buf@.subrange(0, incl as int) =~= self.buf@.subrange(0, dl as int)
                .subrange(0, incl as int));
            assert(self.stream().subrange(prev.pos() + 24, prev.pos() + 24 + incl)
                =~= self.stream().subrange(prev.pos() + 24, prev.pos() + 24 + dl).subrange(
                0,
                incl as int,
            ));
        }
        Ok(SnoopPacketRef { header: &self.ph, data: slice_subrange(self.buf.as_slice(), 0, incl) })
    }

    /// Reads the next packet and returns it as an owned copy: the record
    /// header and the captured data, with the pad stripped.
    ///
    /// If the stream already held one whole well-formed record at the
    /// current position, the read succeeds unless the transport fails.
    pub fn read(&mut self) -> (r: Result<SnoopPacket, Error>)
        requires
            old(self).wf(),
        ensures
            match r {
                Ok(p) => final(self).read_ok(*old(self), p.header, p.data@),
                Err(e) => final(self).read_failed(*old(self), e),
            },
            r matches Err(Error::Eof) ==> final(self).pos() == final(self).stream().len(),
            r matches Err(Error::UnexpectedEof(_))
                ==> final(self).pos() == final(self).stream().len(),
            final(self).grows() == old(self).grows(),
            !old(self).grows() ==> final(self).stream() == old(self).stream(),
            !old(self).grows() && old(self).pos() == old(self).stream().len() ==> (r matches Err(
                Error::Eof,
            ) || r matches Err(Error::Io)),
            stream_has_record(old(self).stream(), old(self).pos()) ==> match r {
                Ok(_) => true,
                Err(e) => e == Error::Io,
            },
    {
        let pr = match self.read_ref() {
            Ok(p) => p,
            Err(e) => {
                return Err(e);
            },
        };
        Ok(SnoopPacket { header: *pr.header, data: slice_to_vec(pr.data) })
    }

    /// Reads bytes until `buf[0..size]` is full, waiting on the source
    /// whenever it runs out: partial progress is kept across waits, and
    /// the read returns short only when the source reports that no more
    /// bytes will ever come, or on a transport fault.
    fn read_until(&mut self, size: usize, interval: &Duration) -> (r: Result<(), Error>)
        requires
            old(self).wf(),
            size <= old(self).buf.len(),
        ensures
            final(self).wf(),
            final(self).header == old(self).header,
            final(self).ph == old(self).ph,
            final(self).buf.len() == old(self).buf.len(),
            stream_extends(final(self).stream(), old(self).stream()),
            final(self).grows() == old(self).grows(),
            !old(self).grows() ==> final(self).stream() == old(self).stream(),
            !old(self).grows() && old(self).pos() == old(self).stream().len() && size > 0 ==> (r
                == Err::<(), Error>(Error::Eof) || r == Err::<(), Error>(Error::Io)),
            match r {
                Ok(()) => {
                    &&& final(self).pos() == old(self).pos() + size
                    &&& final(self).buf@.subrange(0, size as int) == final(self).stream().subrange(old(self).pos(), old(self).pos() + size)
                },
                Err(e) => match e {
                    Error::Eof => final(self).pos() == old(self).pos(),
                    Error::UnexpectedEof(n) => 0 < n < size && final(self).pos() == old(self).pos() + n,
                    Error::Io => old(self).pos() <= final(self).pos(),
                    _ => false,
                },
            },
            old(self).pos() + size <= old(self).stream().len() ==> (r is Ok || r == Err::<(), Error>(Error::Io)),
    {
        let ghost pre = *self;
        proof {
            lemma_stream_extends_refl(pre.src.stream());
        }
        let mut filled: usize = 0;
        let mut may_end = true;
        loop
            invariant
                pre == *old(self),
                pre.wf(),
                size <= self.buf.len(),
                self.buf.len() == pre.buf.len(),
                filled <= size,
                filled > 0 ==> filled < size,
                self.header == pre.header,
                self.ph == pre.ph,
                self.src.inv(),
                0 <= self.src.pos() <= self.src.stream().len(),
                stream_extends(self.src.stream(), pre.src.stream()),
                self.src.grows() == pre.src.grows(),
                !pre.src.grows() ==> self.src.stream() == pre.src.stream(),
                self.src.pos() == pre.src.pos() + filled,
                self.buf@.subrange(0, filled as int) == self.src.stream().subrange(
                    pre.src.pos(),
                    pre.src.pos() + filled,
                ),
                !may_end ==> self.src.pos() < self.src.stream().len(),
            decreases size - filled, (if may_end {
                1int
            } else {
                0int
            }),
        {
            let ghost mid = *self;
            let step = self.read_exact(filled, size);
            proof {
                lemma_stream_extends_trans(pre.src.stream(), mid.src.stream(), self.src.stream());
                lemma_stream_extends_subrange(
                    self.src.stream(),
                    mid.src.stream(),
                    pre.src.pos(),
                    pre.src.pos() + filled,
                );
                assert(self.buf@.subrange(0, filled as int) =~= mid.buf@.subrange(
                    0,
                    filled as int,
                ));
            }
            match step {
                Ok(()) => {
                    proof {
                        assert(self.buf@.subrange(0, size as int) =~= self.buf@.subrange(
                            0,
                            filled as int,
                        ) + self.buf@.subrange(filled as int, size as int));
                        assert(self.src.stream().subrange(pre.src.pos(), pre.src.pos() + size)
                            =~= self.src.stream().subrange(
                            pre.src.pos(),
                            pre.src.pos() + filled,
                        ) + self.src.stream().subrange(
                            pre.src.pos() + filled,
                            pre.src.pos() + size,
                        ));
                    }
                    return Ok(());
                },
                Err(e) => match e {
                    Error::Eof => {
                        let ghost w0 = *self;
                        let more = ByteSource::wait(&mut self.src, interval);
                        proof {
                            lemma_stream_extends_trans(
                                pre.src.stream(),
                                w0.src.stream(),
                                self.src.stream(),
                            );
                            lemma_stream_extends_subrange(
                                self.src.stream(),
                                w0.src.stream(),
                                pre.src.pos(),
                                pre.src.pos() + filled,
                            );
                            assert(self.buf@.subrange(0, filled as int) =~= w0.buf@.subrange(
                                0,
                                filled as int,
                            ));
                        }
                        if !more {
                            if filled == 0 {
                                return Err(Error::Eof);
                            }
                            return Err(Error::UnexpectedEof(filled));
                        }
                        may_end = false;
                    },
                    Error::UnexpectedEof(n) => {
                        proof {
                            assert(self.buf@.subrange(0, (filled + n) as int) =~= self.buf@
                                .subrange(0, filled as int) + self.buf@.subrange(
                                filled as int,
                                (filled + n) as int,
                            ));
                            assert(self.src.stream().subrange(
                                pre.src.pos(),
                                pre.src.pos() + filled + n,
                            ) =~= self.src.stream().subrange(
                                pre.src.pos(),
                                pre.src.pos() + filled,
                            ) + self.src.stream().subrange(
                                pre.src.pos() + filled,
                                pre.src.pos() + filled + n,
                            ));
                        }
                        filled = filled + n;
                        let ghost w0 = *self;
                        let more = ByteSource::wait(&mut self.src, interval);
                        proof {
                            lemma_stream_extends_trans(
                                pre.src.stream(),
                                w0.src.stream(),
                                self.src.stream(),
                            );
                            lemma_stream_extends_subrange(
                                self.src.stream(),
                                w0.src.stream(),
                                pre.src.pos(),
                                pre.src.pos() + filled,
                            );
                            assert(self.buf@.subrange(0, filled as int) =~= w0.buf@.subrange(
                                0,
                                filled as int,
                            ));
                        }
                        if !more {
                            return Err(Error::UnexpectedEof(filled));
                        }
                        may_end = false;
                    },
                    _ => {
                        return Err(e);
                    },
                },
            }
        }
    }

    /// Reads the next packet as [`Self::read_ref`] does, but in
    /// tail-follow mode: whenever the source runs out mid-frame, the
    /// reader waits for roughly the given interval and tries again from
    /// where it stopped, for as long as the source reports that more
    /// bytes may come. The framing and its guarantees are the same; the
    /// end-of-stream errors can only arise once the source gives up.
    pub fn read_stream(&mut self, time: Duration) -> (r: Result<SnoopPacketRef<'_>, Error>)
        requires
            old(self).wf(),
        ensures
            match r {
                Ok(p) => final(self).read_ok(*old(self), *p.header, p.data@),
                Err(e) => final(self).read_failed(*old(self), e),
            },
            final(self).grows() == old(self).grows(),
            !old(self).grows() ==> final(self).stream() == old(self).stream(),
            !old(self).grows() && old(self).pos() == old(self).stream().len() ==> (r matches Err(
                Error::Eof,
            ) || r matches Err(Error::Io)),
            stream_has_record(old(self).stream(), old(self).pos()) ==> match r {
                Ok(_) => true,
                Err(e) => e == Error::Io,
            },
    {
        let ghost prev = *self;
        match self.read_until(24, &time) {
            Ok(()) => {},
            Err(e) => {
                return Err(e);
            },
        }
        let hdr = slice_subrange(self.buf.as_slice(), 0, 24);
        let parsed = Parser::parse_packet_header(hdr, &mut self.ph);
        proof {
            if prev.pos() + 24 <= prev.stream().len() {
                lemma_stream_extends_subrange(
                    self.stream(),
                    prev.stream(),
                    prev.pos(),
                    prev.pos() + 24,
                );
            }
        }
        match parsed {
            Ok(()) => {},
            Err(e) => {
                return Err(e);
            },
        }
        let p = Parser::pad(&self.ph);
        if p > 4 {
            return Err(Error::InvalidPadLen);
        }
        let dl = Parser::data_len(&self.ph);
        let ghost s2 = *self;
        match self.read_until(dl, &time) {
            Ok(()) => {},
            Err(e) => {
                proof {
                    lemma_stream_extends_trans(prev.stream(), s2.stream(), self.stream());
                    lemma_stream_extends_subrange(
                        self.stream(),
                        s2.stream(),
                        prev.pos(),
                        prev.pos() + 24,
                    );
                    if prev.pos() + 24 <= prev.stream().len() {
                        lemma_stream_extends_subrange(
                            self.stream(),
                            prev.stream(),
                            prev.pos(),
                            prev.pos() + 24,
                        );
                    }
                }
                return Err(e);
            },
        }
        let incl = self.ph.included_length as usize;
        proof {
            lemma_stream_extends_trans(prev.stream(), s2.stream(), self.stream());
            lemma_stream_extends_subrange(
                self.stream(),
                s2.stream(),
                prev.pos(),
                prev.pos() + 24,
            );
            assert(self.buf@.subrange(0, incl as int) =~= self.buf@.subrange(0, dl as int)
                .subrange(0, incl as int));
            assert(self.stream().subrange(prev.pos() + 24, prev.pos() + 24 + incl)
                =~= self.stream().subrange(prev.pos() + 24, prev.pos() + 24 + dl).subrange(
                0,
                incl as int,
            ));
        }
        Ok(SnoopPacketRef { header: &self.ph, data: slice_subrange(self.buf.as_slice(), 0, incl) })
    }

    /// One step of the lazy packet sequence, borrowing the packet out of
    /// the internal buffer: a packet, `None` for the clean end of the
    /// stream at a record boundary, or a terminal error. After an error
    /// the stream position is unreliable and the sequence should not be
    /// driven further.
    pub fn iter_ref(&mut self) -> (r: Option<Result<SnoopPacketRef<'_>, Error>>)
        requires
            old(self).wf(),
        ensures
            match r {
                Some(Ok(p)) => final(self).read_ok(*old(self), *p.header, p.data@),
                Some(Err(e)) => e != Error::Eof && final(self).read_failed(*old(self), e),
                None => final(self).read_failed(*old(self), Error::Eof) && final(self).pos()
                    == final(self).stream().len(),
            },
            final(self).grows() == old(self).grows(),
            !old(self).grows() ==> final(self).stream() == old(self).stream(),
            !old(self).grows() && old(self).pos() == old(self).stream().len() ==> (r is None || r
                matches Some(Err(Error::Io))),
            stream_has_record(old(self).stream(), old(self).pos()) ==> match r {
                Some(Ok(_)) => true,
                Some(Err(e)) => e == Error::Io,
                None => false,
            },
    {
        match self.read_ref() {
            Ok(packet) => Some(Ok(packet)),
            Err(Error::Eof) => None,
            Err(e) => Some(Err(e)),
        }
    }

    /// One step of the lazy packet sequence, copying the packet out: a
    /// packet, `None` for the clean end of the stream at a record
    /// boundary, or a terminal error.
    pub fn next(&mut self) -> (r: Option<Result<SnoopPacket, Error>>)
        requires
            old(self).wf(),
        ensures
            match r {
                Some(Ok(p)) => final(self).read_ok(*old(self), p.header, p.data@),
                Some(Err(e)) => e != Error::Eof && final(self).read_failed(*old(self), e),
                None => final(self).read_failed(*old(self), Error::Eof) && final(self).pos()
                    == final(self).stream().len(),
            },
            final(self).grows() == old(self).grows(),
            !old(self).grows() ==> final(self).stream() == old(self).stream(),
            !old(self).grows() && old(self).pos() == old(self).stream().len() ==> (r is None || r
                matches Some(Err(Error::Io))),
            stream_has_record(old(self).stream(), old(self).pos()) ==> match r {
                Some(Ok(_)) => true,
                Some(Err(e)) => e == Error::Io,
                None => false,
            },
    {
        match self.read() {
            Ok(packet) => Some(Ok(packet)),
            Err(Error::Eof) => None,
            Err(e) => Some(Err(e)),
        }
    }
}

} // verus!
