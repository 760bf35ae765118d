use dns_codec::{CodecError, DnsHeader, OPCODE, QR, RCODE};

#[test]
fn test_header() {
    let header = DnsHeader::new();
    println!("{:X?}", header);
    let bytes = header.to_bytes();
    println!("{:X?}", bytes);
}

#[test]
fn test_header_serde() {
    let header = DnsHeader::new();
    println!("header: {:X?}", header);

    let copy = header.clone();

    let bytes = header.to_bytes();
    let reconstructed: DnsHeader = DnsHeader::from_bytes(&bytes).unwrap();
    println!("bytes : {:X?}", bytes);
    println!("reconstructed : {:X?}", reconstructed);

    assert_eq!(copy, reconstructed);
}

#[test]
fn header_response_bytes() {
    let header = DnsHeader {
        id: 0x04D2,
        qr: QR::RESPONSE,
        opcode: OPCODE::QUERY,
        aa: 0,
        tc: 0,
        rd: 0,
        ra: 0,
        z: 0,
        rcode: RCODE::NOERROR,
        qdcount: 1,
        ancount: 1,
        nscount: 0,
        arcount: 0,
    };
    assert_eq!(
        header.to_bytes(),
        [0x04, 0xD2, 0x80, 0x00, 0x00, 0x01, 0x00, 0x01, 0x00, 0x00, 0x00, 0x00]
    );
}

#[test]
fn header_all_fields_round_trip() {
    let header = DnsHeader {
        id: 0xBEEF,
        qr: QR::QUERY,
        opcode: OPCODE::DSO,
        aa: 1,
        tc: 1,
        rd: 1,
        ra: 1,
        z: 5,
        rcode: RCODE::DSOTYPENI,
        qdcount: 0xFFFF,
        ancount: 0x0102,
        nscount: 7,
        arcount: 0x8000,
    };
    let bytes = header.to_bytes();
    assert_eq!(bytes[2], 0x37);
    assert_eq!(bytes[3], 0xDB);
    assert_eq!(DnsHeader::from_bytes(&bytes), Ok(header));
}

#[test]
fn header_flag_bits_land_in_place() {
    let mut header = DnsHeader::new();
    header.set_qr(QR::QUERY);
    header.opcode = OPCODE::STATUS;
    header.rd = 1;
    header.rcode = RCODE::NXDOMAIN;
    let bytes = header.to_bytes();
    assert_eq!(bytes[0..2], [0x04, 0xD2]);
    assert_eq!(bytes[2], 0b0001_0001);
    assert_eq!(bytes[3], 0b0000_0011);
}

#[test]
fn header_unknown_opcode_is_rejected() {
    let mut bytes = [0u8; 12];
    bytes[2] = 0b0_0111_000;
    assert_eq!(DnsHeader::from_bytes(&bytes), Err(CodecError::UnknownCode));
    bytes[2] = 0b1_1111_111;
    assert_eq!(DnsHeader::from_bytes(&bytes), Err(CodecError::UnknownCode));
}

#[test]
fn header_unknown_rcode_is_rejected() {
    let mut bytes = [0u8; 12];
    bytes[3] = 12;
    assert_eq!(DnsHeader::from_bytes(&bytes), Err(CodecError::UnknownCode));
}

#[test]
fn header_decode_then_encode_keeps_bytes() {
    let bytes = [0x12, 0x34, 0xAF, 0xFA, 0, 1, 2, 3, 4, 5, 6, 7];
    let header = DnsHeader::from_bytes(&bytes).unwrap();
    assert_eq!(header.qr, QR::RESPONSE);
    assert_eq!(header.opcode, OPCODE::UPDATE);
    assert_eq!((header.aa, header.tc, header.rd), (1, 1, 1));
    assert_eq!((header.ra, header.z), (1, 7));
    assert_eq!(header.rcode, RCODE::NOTZONE);
    assert_eq!(header.qdcount, 0x0001);
    assert_eq!(header.arcount, 0x0607);
    assert_eq!(header.to_bytes(), bytes);
}

#[test]
fn qr_codes() {
    assert_eq!(QR::try_from(0), Ok(QR::QUERY));
    assert_eq!(QR::try_from(1), Ok(QR::RESPONSE));
    assert_eq!(QR::try_from(2), Err(CodecError::UnknownCode));
    assert_eq!(OPCODE::NOTIFY.code(), 4);
    assert_eq!(RCODE::try_from(9), Ok(RCODE::NOTAUTH));
}
