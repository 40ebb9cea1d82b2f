//! Writes snoop captures to a byte sink: emits the file header on
//! construction, then frames packets one at a time, validating each
//! record header and padding each record as it declares.

use vstd::prelude::*;

use crate::error::Error;
use crate::format::DataLinkType;
use crate::format::MAX_CAPTURE_LEN;
use crate::format::PacketHeader;
use crate::format::SnoopHeader;
use crate::format::SnoopPacket;
use crate::format::lemma_u32_digits;
use crate::format::spec_auto_header;
use crate::format::spec_file_header_bytes;
use crate::format::spec_header_valid;
use crate::format::spec_pad;
use crate::format::spec_packet_header;
use crate::format::spec_packet_header_bytes;
use crate::format::spec_record_bytes;
use crate::format::spec_u32_bytes;
use crate::format::spec_validate;
use crate::format::spec_zeros;
use crate::parser::Parser;
use crate::parser::lemma_record_bytes_roundtrip;
use crate::reader::stream_has_record;
use crate::sink::ByteSink;

verus! {

/// Appends the four big-endian bytes of `x` to `out`.
fn push_be_u32(out: &mut Vec<u8>, x: u32)
    ensures
        final(out)@ == old(out)@ + spec_u32_bytes(x),
{
    proof {
        lemma_u32_digits(x);
    }
    let b0 = (x / 0x1000000) as u8;
    let b1 = ((x / 0x10000) % 0x100) as u8;
    let b2 = ((x / 0x100) % 0x100) as u8;
    let b3 = (x % 0x100) as u8;
    out.push(b0);
    out.push(b1);
    out.push(b2);
    out.push(b3);
    proof {
        assert(out@ =~= old(out)@ + spec_u32_bytes(x));
    }
}

/// A writer over a byte sink. It owns the sink, the file header it
/// emitted at construction, and the pad count recorded by the most
/// recently written record header.
pub struct Writer<W> {
    /// The byte sink being filled.
    pub w: W,
    /// The file header this capture was opened with.
    pub header: SnoopHeader,
    /// The pad count the most recently written record header declared.
    pub pad: u32,
}

impl<W: ByteSink> Writer<W> {
    /// What every write relies on and preserves: the sink is usable.
    pub open spec fn wf(&self) -> bool {
        self.w.inv()
    }

    /// Everything this writer's sink has been sent so far.
    pub open spec fn sent(&self) -> Seq<u8> {
        self.w.sent()
    }

    /// Makes a writer over the given sink for the given link type and
    /// immediately emits the 16-byte snoop file header: the magic bytes,
    /// version 2, and the link type's on-wire integer.
    pub fn new(w: W, link_type: DataLinkType) -> (r: Result<Writer<W>, Error>)
        requires
            w.inv(),
        ensures
            match r {
                Ok(wr) => {
                    &&& wr.wf()
                    &&& wr.sent() == w.sent() + spec_file_header_bytes(link_type)
                    &&& wr.header == (SnoopHeader { version: 2, link_type })
                    &&& wr.pad == 0
                },
                Err(e) => e == Error::Io,
            },
    {
        let mut wr = Writer { w, header: SnoopHeader { version: 2, link_type }, pad: 0 };
        match wr.write_header() {
            Ok(()) => Ok(wr),
            Err(e) => Err(e),
        }
    }

    /// Serialises the snoop file header to the sink.
    fn write_header(&mut self) -> (r: Result<(), Error>)
        requires
            old(self).wf(),
        ensures
            final(self).wf(),
            final(self).header == (SnoopHeader {
                version: 2,
                link_type: old(self).header.link_type,
            }),
            final(self).pad == old(self).pad,
            match r {
                Ok(()) => final(self).sent() == old(self).sent() + spec_file_header_bytes(
                    old(self).header.link_type,
                ),
                Err(e) => e == Error::Io,
            },
    {
        self.header.version = 2;
        let mut hdr: Vec<u8> = Vec::new();
        hdr.push(0x73);
        hdr.push(0x6E);
        hdr.push(0x6F);
        hdr.push(0x6F);
        hdr.push(0x70);
        hdr.push(0x00);
        hdr.push(0x00);
        hdr.push(0x00);
        push_be_u32(&mut hdr, 2);
        push_be_u32(&mut hdr, self.header.link_type.wire_value());
        proof {
            assert(hdr@ =~= spec_file_header_bytes(self.header.link_type));
        }
        match self.w.write_all(hdr.as_slice()) {
            Ok(()) => Ok(()),
            Err(e) => Err(e),
        }
    }

    /// Validates a record header exactly as the parser does, then
    /// serialises its six big-endian fields to the sink and records the
    /// pad count it declares for the data write that follows.
    fn write_packet_header(&mut self, ph: &PacketHeader) -> (r: Result<(), Error>)
        requires
            old(self).wf(),
        ensures
            final(self).wf(),
            final(self).header == old(self).header,
            match spec_validate(*ph) {
                Some(e) => {
                    &&& r == Err::<(), Error>(e)
                    &&& final(self).sent() == old(self).sent()
                    &&& final(self).pad == old(self).pad
                },
                None => match r {
                    Ok(()) => {
                        &&& final(self).sent() == old(self).sent() + spec_packet_header_bytes(*ph)
                        &&& final(self).pad == spec_pad(*ph)
                    },
                    Err(e) => e == Error::Io && final(self).pad == old(self).pad,
                },
            },
    {
        if ph.included_length > ph.original_length {
            return Err(Error::OriginalLenExceeded);
        }
        if ph.included_length > MAX_CAPTURE_LEN {
            return Err(Error::CaptureLenExceeded);
        }
        if (ph.packet_record_length as u64) < 24 + (ph.original_length as u64) {
            return Err(Error::InvalidRecordLength);
        }
        let mut hdr: Vec<u8> = Vec::new();
        push_be_u32(&mut hdr, ph.original_length);
        push_be_u32(&mut hdr, ph.included_length);
        push_be_u32(&mut hdr, ph.packet_record_length);
        push_be_u32(&mut hdr, ph.cumulative_drops);
        push_be_u32(&mut hdr, ph.timestamp_seconds);
        push_be_u32(&mut hdr, ph.timestamp_microseconds);
        proof {
            assert(hdr@ =~= spec_packet_header_bytes(*ph));
        }
        let pads = Parser::pad(ph);
        match self.w.write_all(hdr.as_slice()) {
            Ok(()) => {
                self.pad = pads as u32;
                Ok(())
            },
            Err(e) => Err(e),
        }
    }

    /// Writes a record's payload bytes, then the zero pad bytes that the
    /// most recently written record header declared.
    ///
    /// Fails with [`Error::InvalidPadLen`] — after the payload has been
    /// written — when that pad count exceeds the supported four bytes,
    /// which can only happen if the record header bypassed validation.
    pub fn write_data(&mut self, data: &[u8]) -> (r: Result<(), Error>)
        requires
            old(self).wf(),
        ensures
            final(self).wf(),
            final(self).header == old(self).header,
            final(self).pad == old(self).pad,
            match r {
                Ok(()) => {
                    &&& old(self).pad <= 4
                    &&& final(self).sent() == old(self).sent() + data@ + spec_zeros(
                        old(self).pad as int,
                    )
                },
                Err(e) => e == Error::Io || (e == Error::InvalidPadLen && old(self).pad > 4
                    && final(self).sent() == old(self).sent() + data@),
            },
    {
        match self.w.write_all(data) {
            Ok(()) => {},
            Err(e) => {
                return Err(e);
            },
        }
        if self.pad == 0 {
            proof {
                assert(self.sent() + spec_zeros(0) =~= self.sent());
            }
            return Ok(());
        }
        if self.pad <= 4 {
            let ghost afterdata = *self;
            let mut padbuf: Vec<u8> = Vec::new();
            let mut k: u32 = 0;
            while k < self.pad
                invariant
                    k <= self.pad,
                    padbuf@ == spec_zeros(k as int),
                    *self == afterdata,
                decreases self.pad - k,
            {
                padbuf.push(0u8);
                proof {
                    assert(padbuf@ =~= spec_zeros(k + 1));
                }
                k = k + 1;
            }
            match self.w.write_all(padbuf.as_slice()) {
                Ok(()) => {
                    proof {
                        assert(self.sent() =~= old(self).sent() + data@ + spec_zeros(
                            old(self).pad as int,
                        ));
                    }
                    Ok(())
                },
                Err(e) => Err(e),
            }
        } else {
            Err(Error::InvalidPadLen)
        }
    }

    /// Writes one whole record: the validated record header, the payload
    /// bytes, and the declared zero pad bytes. Use this when the record
    /// header is built by the caller.
    ///
    /// A validation failure writes nothing. A header that passes
    /// validation but declares more than four pads fails with
    /// [`Error::InvalidPadLen`] only after the header bytes and the
    /// payload have already been emitted.
    pub fn write_packet(&mut self, packet: &SnoopPacket) -> (r: Result<(), Error>)
        requires
            old(self).wf(),
        ensures
            final(self).wf(),
            final(self).header == old(self).header,
            match spec_validate(packet.header) {
                Some(e) => {
                    &&& r == Err::<(), Error>(e)
                    &&& final(self).sent() == old(self).sent()
                    &&& final(self).pad == old(self).pad
                },
                None => match r {
                    Ok(()) => {
                        &&& spec_pad(packet.header) <= 4
                        &&& final(self).sent() == old(self).sent() + spec_record_bytes(
                            packet.header,
                            packet.data@,
                        )
                        &&& final(self).pad == spec_pad(packet.header)
                    },
                    Err(e) => e == Error::Io || (e == Error::InvalidPadLen && spec_pad(
                        packet.header,
                    ) > 4 && final(self).sent() == old(self).sent() + spec_packet_header_bytes(
                        packet.header,
                    ) + packet.data@ && final(self).pad == spec_pad(packet.header)),
                },
            },
    {
        match self.write_packet_header(&packet.header) {
            Ok(()) => {},
            Err(e) => {
                return Err(e);
            },
        }
        let out = self.write_data(packet.data.as_slice());
        proof {
            if out is Ok {
                assert(old(self).sent() + spec_packet_header_bytes(packet.header) + packet.data@
                    + spec_zeros(spec_pad(packet.header)) =~= old(self).sent() + spec_record_bytes(
                    packet.header,
                    packet.data@,
                ));
            }
        }
        out
    }

    /// Writes a payload with a record header derived for the given
    /// wall-clock reading: nothing truncated, no padding, no drops, and
    /// `secs`/`micros` as the timestamp.
    ///
    /// Fails with [`Error::OriginalLenExceeded`] exactly when the
    /// payload length does not fit the header's 32 bits, then with
    /// [`Error::TimeEpoch`] exactly when `secs` does not fit into 32
    /// bits, then with [`Error::CaptureLenExceeded`] exactly when the
    /// payload exceeds the supported capture length; each of these
    /// leaves the sink untouched. Only in-range payloads reach the
    /// sink, so only they can fail with [`Error::Io`].
    pub fn write_clocked(&mut self, data: Vec<u8>, secs: u64, micros: u32) -> (r: Result<
        (),
        Error,
    >)
        requires
            old(self).wf(),
        ensures
            final(self).wf(),
            final(self).header == old(self).header,
            match r {
                Ok(()) => {
                    &&& data@.len() <= MAX_CAPTURE_LEN
                    &&& secs <= u32::MAX
                    &&& final(self).sent() == old(self).sent() + spec_record_bytes(
                        spec_auto_header(data@.len() as u32, secs as u32, micros),
                        data@,
                    )
                    &&& final(self).pad == 0
                },
                Err(e) => match e {
                    Error::OriginalLenExceeded => data@.len() > u32::MAX && final(self).sent()
                        == old(self).sent() && final(self).pad == old(self).pad,
                    Error::TimeEpoch => data@.len() <= u32::MAX && secs > u32::MAX && final(self).sent() == old(self).sent() && final(self).pad == old(self).pad,
                    Error::CaptureLenExceeded => data@.len() <= u32::MAX && secs <= u32::MAX
                        && data@.len() > MAX_CAPTURE_LEN && final(self).sent() == old(self).sent()
                        && final(self).pad == old(self).pad,
                    Error::Io => data@.len() <= MAX_CAPTURE_LEN && secs <= u32::MAX,
                    _ => false,
                },
            },
    {
        if data.len() as u64 > u32::MAX as u64 {
            return Err(Error::OriginalLenExceeded);
        }
        if secs > u32::MAX as u64 {
            return Err(Error::TimeEpoch);
        }
        if data.len() > MAX_CAPTURE_LEN as usize {
            return Err(Error::CaptureLenExceeded);
        }
        let len = data.len() as u32;
        let ph = PacketHeader {
            original_length: len,
            included_length: len,
            packet_record_length: len + 24,
            cumulative_drops: 0,
            timestamp_seconds: secs as u32,
            timestamp_microseconds: micros,
        };
        let packet = SnoopPacket { header: ph, data };
        let out = self.write_packet(&packet);
        proof {
            assert(spec_validate(ph) is None);
            assert(spec_pad(ph) == 0);
            assert(ph == spec_auto_header(packet.data@.len() as u32, secs as u32, micros));
        }
        out
    }

    /// Writes a payload with an automatically derived record header:
    /// nothing truncated, no padding, no drops, and the current wall
    /// clock as the timestamp. Reading the clock is the only step here;
    /// everything else is [`Self::write_clocked`] on its reading.
    ///
    /// Fails with [`Error::Time`] when the clock cannot report a time
    /// since the epoch, with [`Error::OriginalLenExceeded`] when the
    /// payload length does not fit the header's 32 bits, with
    /// [`Error::TimeEpoch`] when the epoch second no longer fits into 32
    /// bits, and with [`Error::CaptureLenExceeded`] for payloads above
    /// the supported capture length; each of these leaves the sink
    /// untouched.
    pub fn write(&mut self, data: Vec<u8>) -> (r: Result<(), Error>)
        requires
            old(self).wf(),
        ensures
            final(self).wf(),
            final(self).header == old(self).header,
            match r {
                Ok(()) => {
                    &&& data@.len() <= MAX_CAPTURE_LEN
                    &&& final(self).pad == 0
                    &&& exists|secs: u32, micros: u32|
                        micros < 1000000 && final(self).sent() == old(self).sent()
                            + spec_record_bytes(
                            #[trigger] spec_auto_header(data@.len() as u32, secs, micros),
                            data@,
                        )
                },
                Err(e) => match e {
                    Error::Time => final(self).sent() == old(self).sent() && final(self).pad
                        == old(self).pad,
                    Error::TimeEpoch => data@.len() <= u32::MAX && final(self).sent() == old(self).sent() && final(self).pad == old(self).pad,
                    Error::OriginalLenExceeded => data@.len() > u32::MAX && final(self).sent()
                        == old(self).sent() && final(self).pad == old(self).pad,
                    Error::CaptureLenExceeded => data@.len() <= u32::MAX && data@.len()
                        > MAX_CAPTURE_LEN && final(self).sent() == old(self).sent() && final(self).pad == old(self).pad,
                    Error::Io => data@.len() <= MAX_CAPTURE_LEN,
                    _ => false,
                },
            },
    {
        let now = epoch_now();
        match now {
            Some(t) => self.write_clocked(data, t.0, t.1),
            None => Err(Error::Time),
        }
    }
}

/// Relies on `std::time::SystemTime::now` and its `duration_since` of
/// `UNIX_EPOCH` for the current wall-clock time, converted to whole
/// seconds and the sub-second microseconds, which `Duration` documents
/// to be below one million. `None` when the clock sits before the epoch.
#[verifier::external_body]
fn epoch_now() -> (r: Option<(u64, u32)>)
    ensures
        r matches Some(t) ==> t.1 < 1000000,
{
    match std::time::SystemTime::now().duration_since(std::time::UNIX_EPOCH) {
        Ok(d) => Some((d.as_secs(), d.subsec_micros())),
        Err(_) => None,
    }
}

/// Writing any payload of up to the supported capture length with the
/// automatically derived record header and reading the record back
/// yields the payload unchanged: the derived header is valid with no
/// padding and both lengths equal to the payload length, the serialised
/// record is one whole well-formed record, its first 24 bytes decode to
/// the same header, and the bytes after them are exactly the payload.
pub proof fn lemma_write_read_roundtrip(data: Seq<u8>, secs: u32, micros: u32)
    ensures
        data.len() <= MAX_CAPTURE_LEN ==> ({
            let h = spec_auto_header(data.len() as u32, secs, micros);
            &&& spec_header_valid(h)
            &&& spec_pad(h) == 0
            &&& h.original_length == data.len() && h.included_length == data.len()
            &&& h.packet_record_length == data.len() + 24
            &&& stream_has_record(spec_record_bytes(h, data), 0)
            &&& spec_packet_header(spec_record_bytes(h, data).subrange(0, 24)) == h
            &&& spec_record_bytes(h, data).subrange(24, 24 + data.len() as int) == data
        }),
{
    if data.len() <= MAX_CAPTURE_LEN {
        let h = spec_auto_header(data.len() as u32, secs, micros);
        lemma_record_bytes_roundtrip(h, data);
        assert(spec_record_bytes(h, data).subrange(24, 24 + data.len() as int)
            =~= spec_record_bytes(h, data).subrange(24, 24 + h.included_length));
    }
}

} // verus!
