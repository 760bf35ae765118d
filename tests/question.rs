use dns_codec::{Class, CodecError, DnsQuestion, Type};

#[test]
fn question_wire_bytes() {
    let q = DnsQuestion::new();
    let bytes = q.serialize().unwrap();
    assert_eq!(bytes.len(), 21);
    assert_eq!(bytes[0], 12);
    assert_eq!(bytes[17..], [0x00, 0x01, 0x00, 0x01]);
    assert_eq!(q.len(), 17);
}

#[test]
fn question_round_trip() {
    let q = DnsQuestion {
        name: vec![b"example".to_vec(), b"net".to_vec()],
        qtype: Type::AAAA,
        qclass: Class::CS,
    };
    let bytes = q.serialize().unwrap();
    assert_eq!(DnsQuestion::deserialize(&bytes), Ok((q.clone(), bytes.len())));
    let mut shifted = vec![0xEE, 0xEE, 0xEE];
    shifted.extend(bytes.iter());
    assert_eq!(DnsQuestion::decode_at(&shifted, 3), Ok((q, bytes.len())));
}

#[test]
fn question_errors() {
    let bytes = DnsQuestion::new().serialize().unwrap();
    assert_eq!(DnsQuestion::deserialize(&bytes[..19]), Err(CodecError::TruncatedInput));
    let mut bad = bytes.clone();
    bad[18] = 0x00;
    assert_eq!(DnsQuestion::deserialize(&bad), Err(CodecError::UnknownCode));
    let q = DnsQuestion { name: vec![vec![b'q'; 64]], qtype: Type::A, qclass: Class::IN };
    assert_eq!(q.serialize(), Err(CodecError::LabelTooLong));
}

#[test]
fn unterminated_question_name_is_truncated() {
    assert_eq!(DnsQuestion::deserialize(&[0x80, 0x01]), Err(CodecError::TruncatedInput));
}
