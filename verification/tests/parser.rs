use snoop::error::Error;
use snoop::format::DataLinkType;
use snoop::format::PacketHeader;
use snoop::parser::Parser;

/* buffer with snoop header + packet header + packet data, 84 bytes */
const HEADER: &[u8] = &[
    // snoop header 16 bytes
    0x73, 0x6E, 0x6F, 0x6F, 0x70, 0x00, 0x00, 0x00, 0x00, 0x00, 0x00, 0x02, 0x00, 0x00, 0x00, 0x04,
    // packet header 24 bytes
    0x00, 0x00, 0x00, 0x2A, 0x00, 0x00, 0x00, 0x2A, 0x00, 0x00, 0x00, 0x44, 0x00, 0x00, 0x00, 0x00,
    0x5C, 0xBE, 0xB8, 0x4C, 0x00, 0x0C, 0xB1, 0x47, // packet data 44 bytes
    0x7c, 0x5a, 0x1c, 0x49, 0x3c, 0xd1, 0x1e, 0x65, 0x50, 0x7f, 0xb9, 0xca, 0x08, 0x06, 0x00, 0x01,
    0x08, 0x00, 0x06, 0x04, 0x00, 0x01, 0x1e, 0x65, 0x50, 0x7f, 0xb9, 0xca, 0x0a, 0x00, 0x33, 0x68,
    0x00, 0x00, 0x00, 0x00, 0x00, 0x00, 0x0a, 0x00, 0x33, 0x01, 0x00, 0x00,
];

#[test]
fn parser_header() {
    Parser::parse_header(&HEADER[..16]).unwrap();
}

#[test]
fn parser_header_link_type() {
    assert_eq!(
        Parser::parse_header(&HEADER[..16]).unwrap().link_type,
        DataLinkType::Ethernet
    );
}

#[test]
fn parser_header_unassigned_link_type() {
    let mut h: [u8; 16] = [0; 16];
    h.copy_from_slice(&HEADER[0..16]);
    h[14] = 0xFF;
    assert_eq!(
        Parser::parse_header(&h).unwrap().link_type,
        DataLinkType::Unassigned
    );
}

#[test]
fn parser_header_invalid_magic() {
    let mut h: [u8; 16] = [0; 16];
    h.copy_from_slice(&HEADER[0..16]);
    h[2] = 0xFF;
    assert!(matches!(Parser::parse_header(&h), Err(Error::UnknownMagic)));
}

#[test]
fn parser_header_invalid_version() {
    let mut h: [u8; 16] = [0; 16];
    h.copy_from_slice(&HEADER[0..16]);
    h[11] = 0xFF;
    assert!(matches!(
        Parser::parse_header(&h),
        Err(Error::UnknownVersion)
    ));
}

#[test]
fn parser_packet_header_ci() {
    let mut p = PacketHeader {
        ..Default::default()
    };
    Parser::parse_packet_header(&HEADER[16..40], &mut p).unwrap();
    assert_eq!(p.original_length, 42);
    assert_eq!(p.included_length, 42);
    assert_eq!(p.packet_record_length, 68);
    assert_eq!(p.cumulative_drops, 0);
    assert_eq!(p.timestamp_seconds, 1556002892);
    assert_eq!(p.timestamp_microseconds, 831815);
}

#[test]
fn parser_packet_header_invalid_orig() {
    let mut h: [u8; 24] = [0; 24];
    h.copy_from_slice(&HEADER[16..40]);
    h[4] = 0xFF;
    h[5] = 0xFF;
    h[6] = 0xFF;
    h[7] = 0xFF;
    println!("{:#?}", &h[..]);
    let mut p = PacketHeader {
        ..Default::default()
    };
    assert!(matches!(
        Parser::parse_packet_header(&h, &mut p),
        Err(Error::OriginalLenExceeded)
    ));
}

#[test]
fn parser_packet_header_invalid_cap() {
    let mut h: [u8; 40] = [0; 40];
    h.copy_from_slice(&HEADER[0..40]); // 16 snoop, 24 packet header
    h[17] = 0x10;
    h[18] = 0x00;
    h[19] = 0x00;
    h[20] = 0x00;

    h[21] = 0x10;
    h[22] = 0x00;
    h[23] = 0x00;
    h[24] = 0x00;
    let mut p = PacketHeader {
        ..Default::default()
    };
    assert!(matches!(
        Parser::parse_packet_header(&h[16..], &mut p),
        Err(Error::CaptureLenExceeded)
    ));
}

#[test]
fn packet_header_invalid_cap_record() {
    let mut h: [u8; 40] = [0; 40];
    h.copy_from_slice(&HEADER[0..40]); // 16 snoop, 24 packet header
                                       // this will pass the max_cap_len and orgin_len check
    h[17] = 0x00;
    h[18] = 0x10;
    h[19] = 0x00;
    h[20] = 0x00;

    h[21] = 0x00;
    h[22] = 0x10;
    h[23] = 0x00;
    h[24] = 0x00;
    let mut p = PacketHeader {
        ..Default::default()
    };
    assert!(matches!(
        Parser::parse_packet_header(&h[16..], &mut p),
        Err(Error::InvalidRecordLength)
    ));
}

#[test]
fn parser_packet_header_idempotent() {
    let mut p1 = PacketHeader {
        ..Default::default()
    };
    let mut p2 = PacketHeader {
        ..Default::default()
    };
    Parser::parse_packet_header(&HEADER[16..40], &mut p1).unwrap();
    Parser::parse_packet_header(&HEADER[16..40], &mut p2).unwrap();
    assert_eq!(p1, p2);
    Parser::parse_packet_header(&HEADER[16..40], &mut p2).unwrap();
    assert_eq!(p1, p2);
}

#[test]
fn parser_pad_and_data_len() {
    let mut p = PacketHeader {
        ..Default::default()
    };
    Parser::parse_packet_header(&HEADER[16..40], &mut p).unwrap();
    let pad = Parser::pad(&p);
    assert_eq!(pad, 2); // 68 - (24 + 42)
    assert!(pad <= 4);
    assert_eq!(Parser::data_len(&p), 44);
    assert_eq!(Parser::data_len(&p), p.included_length as usize + pad);
}

#[test]
fn link_type_wire_mapping_total() {
    assert_eq!(DataLinkType::from_wire(0), DataLinkType::IEEE8023);
    assert_eq!(DataLinkType::from_wire(4), DataLinkType::Ethernet);
    assert_eq!(DataLinkType::from_wire(9), DataLinkType::Other);
    assert_eq!(DataLinkType::from_wire(10), DataLinkType::Unassigned);
    assert_eq!(DataLinkType::from_wire(11), DataLinkType::Unassigned);
    assert_eq!(DataLinkType::from_wire(0xFFFF_FFFF), DataLinkType::Unassigned);
    assert_eq!(DataLinkType::default(), DataLinkType::Unassigned);
}
