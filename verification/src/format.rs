//! The snoop file format, version 2: layout constants, the link-type
//! enumeration, the plain data records, and the mathematical model of the
//! byte layout that the parser, reader and writer are specified against.
//!
//! All integer values are stored in big-endian order, with the high-order
//! bits first.

use vstd::prelude::*;

use crate::error::Error;

verus! {

use vstd::arithmetic::div_mod::lemma_div_denominator;
use vstd::arithmetic::div_mod::lemma_fundamental_div_mod;
use vstd::arithmetic::div_mod::lemma_mod_division_less_than_divisor;
use vstd::arithmetic::div_mod::lemma_div_pos_is_pos;
use vstd::arithmetic::div_mod::lemma_multiply_divide_lt;

/// Size of the snoop file header in bytes: magic, version, link type.
pub const SNOOP_HEADER_SIZE: usize = 16;

/// Size of the per-record packet header in bytes: six 32-bit fields.
pub const SNOOP_PACKET_HEADER_SIZE: usize = 24;

/// Maximum supported captured length of one packet's data.
pub const MAX_CAPTURE_LEN: u32 = 4096;

/// Maximum number of zero pad bytes that may follow one packet's data.
pub const MAX_CAPTURE_PADS: u32 = 4;

/// The eight magic bytes that open every snoop file: ASCII "snoop"
/// followed by three zero bytes.
pub open spec fn spec_magic() -> Seq<u8> {
    seq![0x73u8, 0x6Eu8, 0x6Fu8, 0x6Fu8, 0x70u8, 0x00u8, 0x00u8, 0x00u8]
}

/// The value of four bytes read in big-endian order.
pub open spec fn spec_be_val(s: Seq<u8>) -> int
    recommends
        s.len() == 4,
{
    (s[0] as int) * 0x1000000 + (s[1] as int) * 0x10000 + (s[2] as int) * 0x100 + (s[3] as int)
}

/// The four bytes that store a 32-bit value in big-endian order.
pub open spec fn spec_u32_bytes(x: u32) -> Seq<u8> {
    seq![
        (x / 0x1000000) as u8,
        ((x / 0x10000) % 0x100) as u8,
        ((x / 0x100) % 0x100) as u8,
        (x % 0x100) as u8,
    ]
}

/// The base-256 digits of a 32-bit value are below 256, and the leading
/// digit is the quotient by 2^24.
pub proof fn lemma_u32_digits(x: u32)
    ensures
        0 <= x / 0x1000000 < 0x100,
        0 <= (x / 0x10000) % 0x100 < 0x100,
        0 <= (x / 0x100) % 0x100 < 0x100,
        0 <= x % 0x100 < 0x100,
{
    lemma_div_pos_is_pos(x as int, 0x1000000);
    lemma_multiply_divide_lt(x as int, 0x100, 0x1000000);
    lemma_mod_division_less_than_divisor((x as int) / 0x10000, 0x100);
    lemma_mod_division_less_than_divisor((x as int) / 0x100, 0x100);
    lemma_mod_division_less_than_divisor(x as int, 0x100);
    lemma_div_pos_is_pos((x as int) / 0x10000, 1);
    lemma_div_pos_is_pos((x as int) / 0x100, 1);
}

/// Storing a value big-endian and reading the four bytes back yields the
/// value again.
pub proof fn lemma_u32_bytes_roundtrip(x: u32)
    ensures
        spec_u32_bytes(x).len() == 4,
        spec_be_val(spec_u32_bytes(x)) == x,
{
    let xi = x as int;
    lemma_u32_digits(x);
    lemma_fundamental_div_mod(xi, 0x100);
    lemma_fundamental_div_mod(xi / 0x100, 0x100);
    lemma_div_denominator(xi, 0x100, 0x100);
    lemma_fundamental_div_mod(xi / 0x10000, 0x100);
    lemma_div_denominator(xi, 0x10000, 0x100);
}

/// The type of the link that a capture was taken from, as RFC 1761 numbers
/// them: the named media are the on-wire integers 0 through 9, and every
/// integer of 10 and above is `Unassigned`.
#[allow(non_camel_case_types)]
#[derive(Debug, PartialEq, Eq, Structural, Copy, Clone)]
pub enum DataLinkType {
    IEEE8023,
    TokenBus,
    TokenRing,
    MetroNet,
    Ethernet,
    Hdlc,
    CharacterSynchronous,
    IBM_C2C,
    Fddi,
    Other,
    Unassigned,
}

/// The total mapping from an on-wire integer to a link type: the named
/// media for 0 through 9, `Unassigned` for everything else. No integer is
/// rejected.
pub open spec fn spec_link_type(v: u32) -> DataLinkType {
    if v == 0 {
        DataLinkType::IEEE8023
    } else if v == 1 {
        DataLinkType::TokenBus
    } else if v == 2 {
        DataLinkType::TokenRing
    } else if v == 3 {
        DataLinkType::MetroNet
    } else if v == 4 {
        DataLinkType::Ethernet
    } else if v == 5 {
        DataLinkType::Hdlc
    } else if v == 6 {
        DataLinkType::CharacterSynchronous
    } else if v == 7 {
        DataLinkType::IBM_C2C
    } else if v == 8 {
        DataLinkType::Fddi
    } else if v == 9 {
        DataLinkType::Other
    } else {
        DataLinkType::Unassigned
    }
}

/// The on-wire integer that stores a link type; `Unassigned` is stored
/// as 10.
pub open spec fn spec_link_value(t: DataLinkType) -> u32 {
    match t {
        DataLinkType::IEEE8023 => 0,
        DataLinkType::TokenBus => 1,
        DataLinkType::TokenRing => 2,
        DataLinkType::MetroNet => 3,
        DataLinkType::Ethernet => 4,
        DataLinkType::Hdlc => 5,
        DataLinkType::CharacterSynchronous => 6,
        DataLinkType::IBM_C2C => 7,
        DataLinkType::Fddi => 8,
        DataLinkType::Other => 9,
        DataLinkType::Unassigned => 10,
    }
}

/// Writing a link type to the wire and mapping the integer back yields the
/// link type again.
pub proof fn lemma_link_type_roundtrip(t: DataLinkType)
    ensures
        spec_link_type(spec_link_value(t)) == t,
{
}

impl DataLinkType {
    /// The link type that an on-wire integer denotes. The mapping is
    /// total: integers of 10 and above yield `Unassigned`, never an error.
    pub fn from_wire(v: u32) -> (r: DataLinkType)
        ensures
            r == spec_link_type(v),
            v >= 10 ==> r == DataLinkType::Unassigned,
    {
        if v == 0 {
            DataLinkType::IEEE8023
        } else if v == 1 {
            DataLinkType::TokenBus
        } else if v == 2 {
            DataLinkType::TokenRing
        } else if v == 3 {
            DataLinkType::MetroNet
        } else if v == 4 {
            DataLinkType::Ethernet
        } else if v == 5 {
            DataLinkType::Hdlc
        } else if v == 6 {
            DataLinkType::CharacterSynchronous
        } else if v == 7 {
            DataLinkType::IBM_C2C
        } else if v == 8 {
            DataLinkType::Fddi
        } else if v == 9 {
            DataLinkType::Other
        } else {
            DataLinkType::Unassigned
        }
    }

    /// The on-wire integer that stores this link type.
    pub fn wire_value(&self) -> (r: u32)
        ensures
            r == spec_link_value(*self),
    {
        match *self {
            DataLinkType::IEEE8023 => 0,
            DataLinkType::TokenBus => 1,
            DataLinkType::TokenRing => 2,
            DataLinkType::MetroNet => 3,
            DataLinkType::Ethernet => 4,
            DataLinkType::Hdlc => 5,
            DataLinkType::CharacterSynchronous => 6,
            DataLinkType::IBM_C2C => 7,
            DataLinkType::Fddi => 8,
            DataLinkType::Other => 9,
            DataLinkType::Unassigned => 10,
        }
    }
}

impl Default for DataLinkType {
    /// The default link type is the catch-all `Unassigned`.
    fn default() -> (r: Self)
        ensures
            r == DataLinkType::Unassigned,
    {
        DataLinkType::Unassigned
    }
}

/// The file header, once the magic bytes have been recognised: the format
/// version and the captured link type.
#[derive(Debug, PartialEq, Eq, Structural, Copy, Clone)]
pub struct SnoopHeader {
    /// The snoop format version; only version 2 is accepted.
    pub version: u32,
    /// The type of the link the capture was taken from.
    pub link_type: DataLinkType,
}

impl Default for SnoopHeader {
    /// A zero file header: version 0, link type `Unassigned`.
    fn default() -> (r: Self)
        ensures
            r == (SnoopHeader { version: 0, link_type: DataLinkType::Unassigned }),
    {
        SnoopHeader { version: 0, link_type: DataLinkType::Unassigned }
    }
}

/// The per-record metadata: six 32-bit fields stored big-endian in front
/// of every packet's data.
#[derive(Debug, PartialEq, Eq, Structural, Copy, Clone)]
pub struct PacketHeader {
    /// Length of the packet as captured on the wire, before truncation.
    pub original_length: u32,
    /// Bytes actually stored in the record, at most `original_length`.
    pub included_length: u32,
    /// Total on-disk size of the record, this header included.
    pub packet_record_length: u32,
    /// Drop counter at capture time.
    pub cumulative_drops: u32,
    /// Seconds since the epoch at capture time.
    pub timestamp_seconds: u32,
    /// Sub-second microseconds at capture time.
    pub timestamp_microseconds: u32,
}

impl Default for PacketHeader {
    /// A zero packet header.
    fn default() -> (r: Self)
        ensures
            r == (PacketHeader {
                original_length: 0,
                included_length: 0,
                packet_record_length: 0,
                cumulative_drops: 0,
                timestamp_seconds: 0,
                timestamp_microseconds: 0,
            }),
    {
        PacketHeader {
            original_length: 0,
            included_length: 0,
            packet_record_length: 0,
            cumulative_drops: 0,
            timestamp_seconds: 0,
            timestamp_microseconds: 0,
        }
    }
}

/// A captured packet that owns its data. The data holds exactly the
/// captured bytes; pad bytes are never exposed.
#[derive(Debug)]
pub struct SnoopPacket {
    /// The record's metadata.
    pub header: PacketHeader,
    /// The captured bytes, of length `header.included_length`.
    pub data: Vec<u8>,
}

/// A captured packet borrowed out of a reader's internal buffer. The
/// borrow is valid only until the next read call on that reader, which
/// overwrites the backing storage.
pub struct SnoopPacketRef<'a> {
    /// The record's metadata, borrowed from the reader.
    pub header: &'a PacketHeader,
    /// The captured bytes, borrowed from the reader's buffer.
    pub data: &'a [u8],
}

/// The 24 bytes of a record header, decoded field by field. Decoding is
/// total; validation is separate.
pub open spec fn spec_packet_header(s: Seq<u8>) -> PacketHeader
    recommends
        s.len() == 24,
{
    PacketHeader {
        original_length: spec_be_val(s.subrange(0, 4)) as u32,
        included_length: spec_be_val(s.subrange(4, 8)) as u32,
        packet_record_length: spec_be_val(s.subrange(8, 12)) as u32,
        cumulative_drops: spec_be_val(s.subrange(12, 16)) as u32,
        timestamp_seconds: spec_be_val(s.subrange(16, 20)) as u32,
        timestamp_microseconds: spec_be_val(s.subrange(20, 24)) as u32,
    }
}

/// The 24 bytes that store a record header.
pub open spec fn spec_packet_header_bytes(h: PacketHeader) -> Seq<u8> {
    spec_u32_bytes(h.original_length) + spec_u32_bytes(h.included_length) + spec_u32_bytes(
        h.packet_record_length,
    ) + spec_u32_bytes(h.cumulative_drops) + spec_u32_bytes(h.timestamp_seconds) + spec_u32_bytes(
        h.timestamp_microseconds,
    )
}

/// The record-header invariants, checked in order; `None` means the header
/// is acceptable. A record may not claim more captured bytes than the
/// original packet had, nor more than the supported capture length, and
/// its declared total size must at least hold the header and the original
/// packet.
pub open spec fn spec_validate(h: PacketHeader) -> Option<Error> {
    if h.included_length > h.original_length {
        Some(Error::OriginalLenExceeded)
    } else if h.included_length > MAX_CAPTURE_LEN {
        Some(Error::CaptureLenExceeded)
    } else if h.packet_record_length < 24 + h.original_length {
        Some(Error::InvalidRecordLength)
    } else {
        None
    }
}

/// Whether a record header passes validation.
pub open spec fn spec_header_valid(h: PacketHeader) -> bool {
    spec_validate(h) is None
}

/// The number of pad bytes a record header declares: whatever of the
/// record length is neither header nor captured data.
pub open spec fn spec_pad(h: PacketHeader) -> int {
    h.packet_record_length - 24 - h.included_length
}

/// The number of bytes that follow a record header on the wire: captured
/// data and pad together.
pub open spec fn spec_data_len(h: PacketHeader) -> int {
    h.packet_record_length - 24
}

/// A run of zero bytes, as written for padding.
pub open spec fn spec_zeros(n: int) -> Seq<u8> {
    Seq::new(n as nat, |i: int| 0u8)
}

/// One whole record as stored: the header bytes, the captured data, and
/// the declared number of zero pad bytes.
pub open spec fn spec_record_bytes(h: PacketHeader, data: Seq<u8>) -> Seq<u8> {
    spec_packet_header_bytes(h) + data + spec_zeros(spec_pad(h))
}

/// The 16 bytes that open a capture written for the given link type:
/// magic, version 2, and the link type's on-wire integer.
pub open spec fn spec_file_header_bytes(t: DataLinkType) -> Seq<u8> {
    spec_magic() + spec_u32_bytes(2) + spec_u32_bytes(spec_link_value(t))
}

/// What 16 file-header bytes mean: the magic bytes are required first,
/// then version 2, and the link-type integer is mapped totally.
pub open spec fn spec_file_header(s: Seq<u8>) -> Result<SnoopHeader, Error>
    recommends
        s.len() == 16,
{
    if s.subrange(0, 8) != spec_magic() {
        Err(Error::UnknownMagic)
    } else if spec_be_val(s.subrange(8, 12)) != 2 {
        Err(Error::UnknownVersion)
    } else {
        Ok(SnoopHeader {
            version: 2,
            link_type: spec_link_type(spec_be_val(s.subrange(12, 16)) as u32),
        })
    }
}

/// The record header that the writer derives for a payload of `len` bytes
/// at the given wall-clock time: nothing truncated, no padding, no drops.
pub open spec fn spec_auto_header(len: u32, secs: u32, micros: u32) -> PacketHeader
    recommends
        len <= MAX_CAPTURE_LEN,
{
    PacketHeader {
        original_length: len,
        included_length: len,
        packet_record_length: (len + 24) as u32,
        cumulative_drops: 0,
        timestamp_seconds: secs,
        timestamp_microseconds: micros,
    }
}

} // verus!
