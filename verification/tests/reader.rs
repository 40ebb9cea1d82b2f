use std::time::Duration;

use snoop::error::Error;
use snoop::reader::Reader;
use snoop::source::BufSource;
use snoop::source::GrowingSource;

/* buffer with snoop header + packet header + packet data, 84 bytes */
const HEADER: &[u8] = &[
    // snoop header 16 bytes
    0x73, 0x6E, 0x6F, 0x6F, 0x70, 0x00, 0x00, 0x00, 0x00, 0x00, 0x00, 0x02, 0x00, 0x00, 0x00, 0x04,
    // packet header 24 bytes
    0x00, 0x00, 0x00, 0x2A, 0x00, 0x00, 0x00, 0x2A, 0x00, 0x00, 0x00, 0x44, 0x00, 0x00, 0x00, 0x00,
    0x5C, 0xBE, 0xB8, 0x4C, 0x00, 0x0C, 0xB1, 0x47, // packet data 44 bytes
    0x7c, 0x5a, 0x1c, 0x49, 0x3c, 0xd1, 0x1e, 0x65, 0x50, 0x7f, 0xb9, 0xca, 0x08, 0x06, 0x00, 0x01,
    0x08, 0x00, 0x06, 0x04, 0x00, 0x01, 0x1e, 0x65, 0x50, 0x7f, 0xb9, 0xca, 0x0a, 0x00, 0x33, 0x68,
    0x00, 0x00, 0x00, 0x00, 0x00, 0x00, 0x0a, 0x00, 0x33, 0x01, 0x00, 0x00,
];

#[test]
fn reader() {
    Reader::new(BufSource::new(HEADER.to_vec())).unwrap();
}

#[test]
fn reader_header_invalid_short() {
    assert!(matches!(
        Reader::new(BufSource::new(HEADER[0..14].to_vec())),
        Err(Error::UnexpectedEof(_))
    ));
}

#[test]
fn reader_packet_iter() {
    let mut r = Reader::new(BufSource::new(HEADER.to_vec())).unwrap();
    while let Some(i) = r.next() {
        assert_eq!(&HEADER[40..(HEADER.len() - 2)], &i.unwrap().data[..]);
    }
}

#[test]
fn reader_small_buff() {
    let mut r = Reader::new(BufSource::with_chunk(HEADER.to_vec(), 10)).unwrap();
    let i = r.read();
    let packet = &i.unwrap();
    assert_eq!(&HEADER[40..(HEADER.len() - 2)], &packet.data[..]);
}

#[test]
fn reader_header_fields() {
    let r = Reader::new(BufSource::new(HEADER.to_vec())).unwrap();
    assert_eq!(r.header().version, 2);
    assert_eq!(
        r.header().link_type,
        snoop::format::DataLinkType::Ethernet
    );
}

#[test]
fn reader_exactly_one_packet_then_eof() {
    let mut r = Reader::new(BufSource::new(HEADER.to_vec())).unwrap();
    let mut count = 0;
    while let Some(i) = r.next() {
        let packet = i.unwrap();
        assert_eq!(packet.header.included_length, 42);
        assert_eq!(&HEADER[40..82], &packet.data[..]);
        count += 1;
    }
    assert_eq!(count, 1);
    assert!(matches!(r.read(), Err(Error::Eof)));
}

#[test]
fn reader_short_header_unexpected_eof_count() {
    // 14 of the 16 file-header bytes: the count of bytes obtained rides
    // along in the error.
    match Reader::new(BufSource::new(HEADER[0..14].to_vec())) {
        Err(Error::UnexpectedEof(n)) => assert_eq!(n, 14),
        other => panic!("{:?}", other.err()),
    }
}

#[test]
fn reader_truncated_payload() {
    // file header, record header, but only half the declared payload
    let mut r = Reader::new(BufSource::new(HEADER[0..60].to_vec())).unwrap();
    assert!(matches!(r.read(), Err(Error::UnexpectedEof(20))));
}

#[test]
fn reader_ref_zero_copy() {
    let mut r = Reader::new(BufSource::new(HEADER.to_vec())).unwrap();
    let p = r.read_ref().unwrap();
    assert_eq!(p.header.included_length, 42);
    assert_eq!(p.header.packet_record_length, 68);
    assert_eq!(&HEADER[40..82], p.data);
}

#[test]
fn reader_iter_ref_tri_state() {
    let mut r = Reader::new(BufSource::new(HEADER.to_vec())).unwrap();
    match r.iter_ref() {
        Some(Ok(p)) => assert_eq!(p.data.len(), 42),
        Some(Err(e)) => panic!("{:?}", e),
        None => panic!("sequence ended before its one packet"),
    }
    assert!(r.iter_ref().is_none());
}

#[test]
fn reader_invalid_pad_rejected() {
    // record header with original = included = 0 but record length 29:
    // it passes the three parse-time checks, yet declares five pads.
    let mut bytes = HEADER[0..16].to_vec();
    bytes.extend_from_slice(&[
        0x00, 0x00, 0x00, 0x00, // original_length
        0x00, 0x00, 0x00, 0x00, // included_length
        0x00, 0x00, 0x00, 0x1D, // packet_record_length = 29
        0x00, 0x00, 0x00, 0x00, // cumulative_drops
        0x00, 0x00, 0x00, 0x00, // timestamp_seconds
        0x00, 0x00, 0x00, 0x00, // timestamp_microseconds
    ]);
    bytes.extend_from_slice(&[0u8; 5]);
    let mut r = Reader::new(BufSource::new(bytes)).unwrap();
    assert!(matches!(r.read(), Err(Error::InvalidPadLen)));
}

#[test]
fn reader_stream_growing_source() {
    // only the file header has arrived; the rest trickles in seven
    // bytes per wait, as from a capture file still being written
    let src = GrowingSource::new(HEADER.to_vec(), 16, 7);
    let mut r = Reader::new(src).unwrap();
    let p = r.read_stream(Duration::from_millis(1)).unwrap();
    assert_eq!(p.header.included_length, 42);
    assert_eq!(&HEADER[40..82], p.data);
}

#[test]
fn reader_stream_truncated_capture() {
    // the capture stops mid-payload and the source will never grow past
    // it: the tail-follow read gives up with the partial count
    let src = GrowingSource::new(HEADER[0..60].to_vec(), 16, 9);
    let mut r = Reader::new(src).unwrap();
    assert!(matches!(
        r.read_stream(Duration::from_millis(1)),
        Err(Error::UnexpectedEof(20))
    ));
}

#[test]
fn reader_stream_ends_when_source_gives_up() {
    let src = GrowingSource::new(HEADER.to_vec(), 16, 7);
    let mut r = Reader::new(src).unwrap();
    r.read_stream(Duration::from_millis(1)).unwrap();
    assert!(matches!(
        r.read_stream(Duration::from_millis(1)),
        Err(Error::Eof)
    ));
}
