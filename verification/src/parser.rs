//! Pure, stateless parsing of snoop headers, and the pad and data-length
//! calculations that the reader and writer share.

use vstd::prelude::*;

use crate::error::Error;
use crate::format::DataLinkType;
use crate::format::PacketHeader;
use crate::format::SnoopHeader;
use crate::format::spec_be_val;
use crate::format::spec_data_len;
use crate::format::spec_file_header;
use crate::format::spec_file_header_bytes;
use crate::format::spec_link_value;
use crate::format::lemma_link_type_roundtrip;
use crate::format::spec_header_valid;
use crate::format::spec_magic;
use crate::format::spec_pad;
use crate::format::spec_packet_header;
use crate::format::spec_packet_header_bytes;
use crate::format::spec_record_bytes;
use crate::format::spec_u32_bytes;
use crate::format::spec_validate;
use crate::format::lemma_u32_bytes_roundtrip;

verus! {

/// Reads four bytes at `i` as one big-endian 32-bit value.
fn read_be_u32(buf: &[u8], i: usize) -> (r: u32)
    requires
        i + 4 <= buf@.len(),
    ensures
        r as int == spec_be_val(buf@.subrange(i as int, i + 4)),
{
    let b0 = buf[i];
    let b1 = buf[i + 1];
    let b2 = buf[i + 2];
    let b3 = buf[i + 3];
    (b0 as u32) * 0x1000000 + (b1 as u32) * 0x10000 + (b2 as u32) * 0x100 + (b3 as u32)
}

/// Interprets byte slices as snoop file and record headers. The functions
/// are pure: they own no resource and are safe to call from several
/// threads on independent inputs.
#[derive(Debug)]
pub struct Parser;

impl Parser {
    /// Parses the 16-byte snoop file header that opens every capture.
    ///
    /// Fails with [`Error::UnknownMagic`] if the first eight bytes are not
    /// the snoop magic bytes, and with [`Error::UnknownVersion`] if the
    /// version field is not 2. The link-type integer is mapped totally;
    /// no value of it is an error.
    pub fn parse_header(buf: &[u8]) -> (r: Result<SnoopHeader, Error>)
        requires
            buf@.len() == 16,
        ensures
            r == spec_file_header(buf@),
    {
        let magic_ok = buf[0] == 0x73 && buf[1] == 0x6E && buf[2] == 0x6F && buf[3] == 0x6F
            && buf[4] == 0x70 && buf[5] == 0x00 && buf[6] == 0x00 && buf[7] == 0x00;
        if !magic_ok {
            proof {
                assert(buf@.subrange(0, 8).len() == 8);
                assert(forall|k: int| 0 <= k < 8 ==> buf@.subrange(0, 8)[k] == buf@[k]);
            }
            return Err(Error::UnknownMagic);
        }
        proof {
            assert(buf@.subrange(0, 8) =~= spec_magic());
        }
        let version = read_be_u32(buf, 8);
        if version != 2 {
            return Err(Error::UnknownVersion);
        }
        let link = read_be_u32(buf, 12);
        Ok(SnoopHeader { version, link_type: DataLinkType::from_wire(link) })
    }

    /// Parses a 24-byte record header into `ph` in place, so that callers
    /// can reuse one allocation across many records, then validates it.
    ///
    /// All six fields are decoded before any check runs: after an error,
    /// `ph` still holds the raw decoded (but rejected) values. The checks
    /// run in order and fail with [`Error::OriginalLenExceeded`],
    /// [`Error::CaptureLenExceeded`] or [`Error::InvalidRecordLength`].
    pub fn parse_packet_header(buf: &[u8], ph: &mut PacketHeader) -> (r: Result<(), Error>)
        requires
            buf@.len() == 24,
        ensures
            *final(ph) == spec_packet_header(buf@),
            r == match spec_validate(spec_packet_header(buf@)) {
                None => Ok::<(), Error>(()),
                Some(e) => Err::<(), Error>(e),
            },
    {
        ph.original_length = read_be_u32(buf, 0);
        ph.included_length = read_be_u32(buf, 4);
        ph.packet_record_length = read_be_u32(buf, 8);
        ph.cumulative_drops = read_be_u32(buf, 12);
        ph.timestamp_seconds = read_be_u32(buf, 16);
        ph.timestamp_microseconds = read_be_u32(buf, 20);

        if ph.included_length > ph.original_length {
            return Err(Error::OriginalLenExceeded);
        }
        if ph.included_length > crate::format::MAX_CAPTURE_LEN {
            return Err(Error::CaptureLenExceeded);
        }
        if (ph.packet_record_length as u64) < 24 + (ph.original_length as u64) {
            return Err(Error::InvalidRecordLength);
        }
        Ok(())
    }

    /// The number of pad bytes appended after a record's captured data.
    ///
    /// The header must have passed validation; on an unvalidated header
    /// the subtraction would be meaningless.
    pub fn pad(ph: &PacketHeader) -> (r: usize)
        requires
            spec_header_valid(*ph),
        ensures
            r == spec_pad(*ph),
    {
        ((ph.packet_record_length - 24) - ph.included_length) as usize
    }

    /// The number of bytes that follow a record header on the wire:
    /// captured data with the pad still included. The pad must be
    /// stripped from the end before the data is handed out.
    pub fn data_len(ph: &PacketHeader) -> (r: usize)
        requires
            spec_header_valid(*ph),
        ensures
            r == spec_data_len(*ph),
    {
        (ph.packet_record_length - 24) as usize
    }
}

/// Serialising the file header for a link type and parsing the 16 bytes
/// back yields version 2 and the same link type: every link type,
/// `Unassigned` included, survives the trip through its on-wire integer.
pub proof fn lemma_file_header_roundtrip(t: DataLinkType)
    ensures
        spec_file_header_bytes(t).len() == 16,
        spec_file_header(spec_file_header_bytes(t)) == Ok::<SnoopHeader, Error>(
            SnoopHeader { version: 2, link_type: t },
        ),
{
    let s = spec_file_header_bytes(t);
    lemma_u32_bytes_roundtrip(2);
    lemma_u32_bytes_roundtrip(spec_link_value(t));
    lemma_link_type_roundtrip(t);
    assert(s.subrange(0, 8) =~= spec_magic());
    assert(s.subrange(8, 12) =~= spec_u32_bytes(2));
    assert(s.subrange(12, 16) =~= spec_u32_bytes(spec_link_value(t)));
}

/// Serialising a record header to its 24 bytes and decoding them again
/// yields the header unchanged.
pub proof fn lemma_packet_header_bytes_parse(h: PacketHeader)
    ensures
        spec_packet_header_bytes(h).len() == 24,
        spec_packet_header(spec_packet_header_bytes(h)) == h,
{
    let s = spec_packet_header_bytes(h);
    lemma_u32_bytes_roundtrip(h.original_length);
    lemma_u32_bytes_roundtrip(h.included_length);
    lemma_u32_bytes_roundtrip(h.packet_record_length);
    lemma_u32_bytes_roundtrip(h.cumulative_drops);
    lemma_u32_bytes_roundtrip(h.timestamp_seconds);
    lemma_u32_bytes_roundtrip(h.timestamp_microseconds);
    assert(s.subrange(0, 4) =~= spec_u32_bytes(h.original_length));
    assert(s.subrange(4, 8) =~= spec_u32_bytes(h.included_length));
    assert(s.subrange(8, 12) =~= spec_u32_bytes(h.packet_record_length));
    assert(s.subrange(12, 16) =~= spec_u32_bytes(h.cumulative_drops));
    assert(s.subrange(16, 20) =~= spec_u32_bytes(h.timestamp_seconds));
    assert(s.subrange(20, 24) =~= spec_u32_bytes(h.timestamp_microseconds));
}

/// A record serialised for a validated header frames exactly: the first
/// 24 bytes decode to the same header, the captured data sits right after
/// them, and the record is as long as the header declares.
pub proof fn lemma_record_bytes_roundtrip(h: PacketHeader, data: Seq<u8>)
    requires
        spec_header_valid(h),
        data.len() == h.included_length,
    ensures
        spec_record_bytes(h, data).len() == 24 + spec_data_len(h),
        spec_packet_header(spec_record_bytes(h, data).subrange(0, 24)) == h,
        spec_record_bytes(h, data).subrange(24, 24 + h.included_length) == data,
{
    let rec = spec_record_bytes(h, data);
    lemma_packet_header_bytes_parse(h);
    lemma_data_len_splits(h);
    assert(rec.subrange(0, 24) =~= spec_packet_header_bytes(h));
    assert(rec.subrange(24, 24 + h.included_length) =~= data);
}

/// Parsing the same 24 valid bytes twice yields identical record headers:
/// the decoded header is a function of the bytes alone.
pub proof fn lemma_parse_packet_header_deterministic(s: Seq<u8>, h1: PacketHeader, h2: PacketHeader)
    requires
        h1 == spec_packet_header(s),
        h2 == spec_packet_header(s),
    ensures
        h1 == h2,
{
}

/// For a validated record header that declares no more than the supported
/// four pad bytes, the pad count is in 0..=4.
pub proof fn lemma_pad_in_range(h: PacketHeader)
    requires
        spec_header_valid(h),
        h.packet_record_length <= h.included_length + 28,
    ensures
        0 <= spec_pad(h) <= 4,
{
}

/// For any validated record header, the bytes that follow the header are
/// exactly the captured data plus the pad: the pad count is never
/// negative, and data length with pad splits as included length plus pad.
pub proof fn lemma_data_len_splits(h: PacketHeader)
    requires
        spec_header_valid(h),
    ensures
        spec_pad(h) >= 0,
        spec_data_len(h) == h.included_length + spec_pad(h),
{
}

} // verus!
