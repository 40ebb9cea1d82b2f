use snoop::error::Error;
use snoop::format::DataLinkType;
use snoop::format::PacketHeader;
use snoop::format::SnoopPacket;
use snoop::reader::Reader;
use snoop::sink::BufSink;
use snoop::source::BufSource;
use snoop::write::Writer;

/* buffer with snoop header + packet header + packet data, 84 bytes */
const HEADER: &[u8] = &[
    // snoop header 16 bytes
    0x73, 0x6E, 0x6F, 0x6F, 0x70, 0x00, 0x00, 0x00, 0x00, 0x00, 0x00, 0x02, 0x00, 0x00, 0x00, 0x04,
    // packet header 24 bytes
    0x00, 0x00, 0x00, 0x2A, 0x00, 0x00, 0x00, 0x2A, 0x00, 0x00, 0x00, 0x44, 0x00, 0x00, 0x00, 0x00,
    0x5C, 0xBE, 0xB8, 0x4C, 0x00, 0x0C, 0xB1, 0x47, // packet data 44 bytes
    0x7c, 0x5a, 0x1c, 0x49, 0x3c, 0xd1, 0x1e, 0x65, 0x50, 0x7f, 0xb9, 0xca, 0x08, 0x06, 0x00, 0x01,
    0x08, 0x00, 0x06, 0x04, 0x00, 0x01, 0x1e, 0x65, 0x50, 0x7f, 0xb9, 0xca, 0x0a, 0x00, 0x33, 0x68,
    0x00, 0x00, 0x00, 0x00, 0x00, 0x00, 0x0a, 0x00, 0x33, 0x01, 0x00, 0x00,
];

#[test]
fn writer_header() {
    let w = Writer::new(BufSink::new(), DataLinkType::Ethernet).unwrap();
    assert_eq!(HEADER[0..16], w.w.data[..]);
    Reader::new(BufSource::new(w.w.data)).unwrap();
}

#[test]
fn writer_packet() {
    let mut writer = Writer::new(BufSink::new(), DataLinkType::Ethernet).unwrap();
    let mut reader = Reader::new(BufSource::new(HEADER.to_vec())).unwrap();
    while let Some(i) = reader.next() {
        let packet = i.unwrap();
        writer.write_packet(&packet).unwrap();
    }
    assert_eq!(HEADER[..], writer.w.data[..]);
}

#[test]
fn writer_invalid_ci() {
    let mut writer = Writer::new(BufSink::new(), DataLinkType::Ethernet).unwrap();
    let mut packet = SnoopPacket {
        header: PacketHeader {
            ..Default::default()
        },
        data: vec![0u8; 40],
    };
    assert!(matches!(
        writer.write_packet(&packet),
        Err(Error::InvalidRecordLength)
    ));
    packet.header.original_length = 42;
    packet.header.included_length = 42;
    packet.header.packet_record_length = 71; // 5 pads, one more then supported
    assert!(matches!(
        writer.write_packet(&packet),
        Err(Error::InvalidPadLen)
    ));

    packet.header.packet_record_length = 68; // 2 pads
    writer.write_packet(&packet).unwrap();
}

#[test]
fn writer() {
    let mut writer = Writer::new(BufSink::new(), DataLinkType::Ethernet).unwrap();
    let data = HEADER[40..].to_vec();
    writer.write(data).unwrap();
    let mut reader = Reader::new(BufSource::new(writer.w.data)).unwrap();
    let packet = reader.read().unwrap();
    assert_eq!(packet.header.original_length, 44);
    assert_eq!(packet.header.included_length, 44);
    assert_eq!(packet.header.packet_record_length, 68);
    assert_eq!(packet.header.cumulative_drops, 0);
    assert_eq!(&packet.data, &HEADER[40..]);
}

#[test]
fn writer_roundtrip_small_payload() {
    let payload = vec![0xDE, 0xAD, 0xBE, 0xEF, 0x01];
    let mut writer = Writer::new(BufSink::new(), DataLinkType::Ethernet).unwrap();
    writer.write(payload.clone()).unwrap();
    let mut reader = Reader::new(BufSource::new(writer.w.data)).unwrap();
    let packet = reader.read().unwrap();
    assert_eq!(packet.data, payload);
    assert_eq!(packet.header.included_length, 5);
    assert_eq!(packet.header.original_length, 5);
    assert_eq!(packet.header.packet_record_length, 29);
    assert!(matches!(reader.read(), Err(Error::Eof)));
}

#[test]
fn writer_roundtrip_empty_payload() {
    let mut writer = Writer::new(BufSink::new(), DataLinkType::Hdlc).unwrap();
    writer.write(Vec::new()).unwrap();
    let mut reader = Reader::new(BufSource::new(writer.w.data)).unwrap();
    assert_eq!(reader.header().link_type, DataLinkType::Hdlc);
    let packet = reader.read().unwrap();
    assert_eq!(packet.data.len(), 0);
    assert_eq!(packet.header.included_length, 0);
    assert_eq!(packet.header.packet_record_length, 24);
}

#[test]
fn writer_roundtrip_max_payload() {
    let payload = vec![0x5Au8; 4096];
    let mut writer = Writer::new(BufSink::new(), DataLinkType::Ethernet).unwrap();
    writer.write(payload.clone()).unwrap();
    let mut reader = Reader::new(BufSource::new(writer.w.data)).unwrap();
    let packet = reader.read().unwrap();
    assert_eq!(packet.data, payload);
    assert_eq!(packet.header.included_length, 4096);
}

#[test]
fn writer_over_capture_len() {
    let mut writer = Writer::new(BufSink::new(), DataLinkType::Ethernet).unwrap();
    assert!(matches!(
        writer.write(vec![0u8; 4097]),
        Err(Error::CaptureLenExceeded)
    ));
}

#[test]
fn writer_clocked_exact_header() {
    // a fixed clock reading is stamped into the record verbatim
    let mut writer = Writer::new(BufSink::new(), DataLinkType::Ethernet).unwrap();
    writer
        .write_clocked(vec![1, 2, 3], 1556002892, 831815)
        .unwrap();
    let mut reader = Reader::new(BufSource::new(writer.w.data)).unwrap();
    let packet = reader.read().unwrap();
    assert_eq!(packet.header.timestamp_seconds, 1556002892);
    assert_eq!(packet.header.timestamp_microseconds, 831815);
    assert_eq!(packet.header.original_length, 3);
    assert_eq!(packet.header.included_length, 3);
    assert_eq!(packet.header.packet_record_length, 27);
    assert_eq!(packet.header.cumulative_drops, 0);
    assert_eq!(packet.data, vec![1, 2, 3]);
}

#[test]
fn writer_clocked_epoch_overflow() {
    // an epoch second above 32 bits is rejected with the sink untouched
    let mut writer = Writer::new(BufSink::new(), DataLinkType::Ethernet).unwrap();
    assert!(matches!(
        writer.write_clocked(vec![1], u64::MAX, 0),
        Err(Error::TimeEpoch)
    ));
    assert_eq!(writer.w.data.len(), 16);
}

#[test]
fn writer_auto_header_timestamp() {
    // the timestamp comes from the wall clock: seconds since the epoch
    // and a microsecond remainder below one million
    let mut writer = Writer::new(BufSink::new(), DataLinkType::Ethernet).unwrap();
    writer.write(vec![1, 2, 3]).unwrap();
    let mut reader = Reader::new(BufSource::new(writer.w.data)).unwrap();
    let packet = reader.read().unwrap();
    assert!(packet.header.timestamp_microseconds < 1_000_000);
    assert!(packet.header.timestamp_seconds > 0);
}

#[test]
fn writer_unassigned_link_type_roundtrip() {
    let writer = Writer::new(BufSink::new(), DataLinkType::Unassigned).unwrap();
    let reader = Reader::new(BufSource::new(writer.w.data)).unwrap();
    assert_eq!(reader.header().link_type, DataLinkType::Unassigned);
}
