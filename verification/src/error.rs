//! The errors that reading or writing a snoop stream can produce.

use vstd::prelude::*;

verus! {

/// Everything that can go wrong while parsing, reading or writing.
///
/// The file-header rejections (`UnknownMagic`, `UnknownVersion`) are
/// unrecoverable for the stream. The record-level violations
/// (`OriginalLenExceeded`, `CaptureLenExceeded`, `InvalidRecordLength`,
/// `InvalidPadLen`) leave the stream position unreliable for further
/// framing. `Eof` is a clean end of the stream at a record boundary and
/// signals end-of-sequence rather than a fault; `UnexpectedEof` reports a
/// partial frame together with the number of bytes that were obtained.
#[derive(Debug, Clone, Copy, PartialEq, Eq, Structural)]
pub enum Error {
    /// The first eight bytes are not the snoop magic bytes.
    UnknownMagic,
    /// The file-format version is not version 2.
    UnknownVersion,
    /// A record claims to have captured more than the original packet.
    OriginalLenExceeded,
    /// A record's captured length exceeds the supported capture length.
    CaptureLenExceeded,
    /// A record's total length cannot hold its header and original packet.
    InvalidRecordLength,
    /// A record would need more than the supported four pad bytes.
    InvalidPadLen,
    /// The stream ended cleanly at a record boundary.
    Eof,
    /// The stream ended inside a frame; carries the bytes obtained so far.
    UnexpectedEof(usize),
    /// The underlying byte transport failed.
    Io,
    /// The wall clock could not report a time since the epoch.
    Time,
    /// The current epoch second does not fit into 32 bits.
    TimeEpoch,
}

} // verus!
