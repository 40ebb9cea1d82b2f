//! A verified codec for the snoop packet-capture file format (RFC 1761).
//!
//! A snoop file is a 16-byte file header followed by a sequence of framed
//! packet records, each a 24-byte record header, the captured payload, and
//! up to four zero pad bytes. All integers are big-endian. Only format
//! version 2 is supported, with capture lengths up to 4096 bytes.
//!
//! The crate is organised as:
//! * [`format`] — layout constants, the link-type enumeration, the plain
//!   data records, and the mathematical model of the byte layout;
//! * [`parser`] — pure functions that interpret byte slices as headers and
//!   enforce the format invariants;
//! * [`source`] and [`sink`] — the byte-source and byte-sink abstractions
//!   that readers and writers are generic over, with in-memory instances;
//! * [`reader`] — a stateful reader that validates the file header on
//!   construction and then frames packets one by one, with one-shot and
//!   tail-follow read modes;
//! * [`write`] — a stateful writer that emits the file header on
//!   construction and then frames packets, padding each record.

pub mod error;
pub mod format;
pub mod parser;
pub mod sink;
pub mod source;
pub mod reader;
pub mod write;
