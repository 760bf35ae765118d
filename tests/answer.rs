use dns_codec::{build_answer, Class, CodecError, DnsAnswer, Type, RR};

fn labels(parts: &[&str]) -> Vec<Vec<u8>> {
    parts.iter().map(|p| p.as_bytes().to_vec()).collect()
}

#[test]
fn test_answer() {
    let answer = RR::new();
    println!("{:X?}", answer);
    let bytes = answer.to_bytes().unwrap();
    println!("{:X?}", bytes);
}

#[test]
fn test_serde_answer() {
    let answer = RR::new();
    println!("answer: {:X?}", answer.name);

    let copy = answer.clone();

    let bytes = answer.to_bytes().unwrap();
    println!("bytes : {:X?}", bytes);
    let (reconstructed, _) = RR::from_bytes(&bytes).unwrap();
    println!("reconstructed : {:X?}", reconstructed.name);

    assert_eq!(copy, reconstructed);
}

#[test]
fn a_record_wire_bytes() {
    let mut rr = RR::new();
    rr.set_name(&[0x02, b'i', b'o', 0x00]).unwrap();
    rr.set_type(Type::A);
    rr.set_class(Class::IN);
    rr.set_ttl(60);
    rr.set_rdlength(4);
    rr.set_rdata(vec![127, 0, 0, 1]);
    let bytes = rr.to_bytes().unwrap();
    assert_eq!(
        bytes,
        vec![
            0x02, 0x69, 0x6F, 0x00, 0x00, 0x01, 0x00, 0x01, 0x00, 0x00, 0x00, 0x3C, 0x00, 0x04,
            0x7F, 0x00, 0x00, 0x01
        ]
    );
    assert_eq!(
        bytes[4..],
        [0x00, 0x01, 0x00, 0x01, 0x00, 0x00, 0x00, 0x3C, 0x00, 0x04, 0x7F, 0x00, 0x00, 0x01]
    );
}

#[test]
fn record_round_trip_with_consumed_length() {
    let rr = RR {
        name: labels(&["mail", "example", "org"]),
        atype: Type::MX,
        aclass: Class::CH,
        ttl: 0x01020304,
        rdlength: 3,
        rdata: vec![9, 8, 7],
    };
    let mut bytes = rr.to_bytes().unwrap();
    let len = bytes.len();
    assert_eq!(bytes[len - 13..len - 3], [0, 15, 0, 3, 1, 2, 3, 4, 0, 3]);
    bytes.extend([0xAA, 0xBB]);
    assert_eq!(RR::from_bytes(&bytes), Ok((rr, len)));
}

#[test]
fn record_rdlength_mismatch_is_rejected() {
    let mut rr = RR::new();
    rr.set_rdlength(5);
    assert_eq!(rr.to_bytes(), Err(CodecError::InvariantViolation));
}

#[test]
fn record_long_label_wins_over_rdlength() {
    let mut rr = RR::new();
    rr.name = vec![vec![b'x'; 70]];
    rr.set_rdlength(5);
    assert_eq!(rr.to_bytes(), Err(CodecError::LabelTooLong));
}

#[test]
fn record_unknown_type_or_class() {
    let mut bytes = RR::new().to_bytes().unwrap();
    bytes[17] = 0x07;
    assert_eq!(RR::from_bytes(&bytes), Err(CodecError::UnknownCode));
    let mut bytes = RR::new().to_bytes().unwrap();
    bytes[19] = 0x09;
    assert_eq!(RR::from_bytes(&bytes), Err(CodecError::UnknownCode));
}

#[test]
fn record_missing_rdata_is_truncated() {
    let bytes = RR::new().to_bytes().unwrap();
    assert_eq!(RR::from_bytes(&bytes[..bytes.len() - 1]), Err(CodecError::TruncatedInput));
    assert_eq!(RR::from_bytes(&bytes[..20]), Err(CodecError::TruncatedInput));
}

#[test]
fn set_name_keeps_record_on_error() {
    let mut rr = RR::new();
    assert_eq!(rr.set_name(&[0x03, b'a']), Err(CodecError::TruncatedInput));
    assert_eq!(rr, RR::new());
    assert_eq!(rr.set_name(&[0x01, b'a', 0x00, 0x55]), Ok(()));
    assert_eq!(rr.name, labels(&["a"]));
}

#[test]
fn build_answer_for_name() {
    let answer = build_answer(&[0x02, b'i', b'o', 0x00, 0x00, 0x1C, 0x00, 0x01]).unwrap();
    assert_eq!(answer.rrs.len(), 1);
    let rr = &answer.rrs[0];
    assert_eq!(rr.name, labels(&["io"]));
    assert_eq!(rr.atype, Type::A);
    assert_eq!(rr.aclass, Class::IN);
    assert_eq!(rr.ttl, 60);
    assert_eq!(rr.rdlength, 4);
    assert_eq!(rr.rdata, vec![127, 0, 0, 1]);
    assert_eq!(build_answer(&[0x04, b'i']).unwrap_err(), CodecError::TruncatedInput);
}

#[test]
fn answer_bytes_are_first_record() {
    let answer = DnsAnswer::new();
    assert_eq!(answer.to_bytes(), RR::new().to_bytes());
    let empty = DnsAnswer { rrs: Vec::new() };
    assert_eq!(empty.to_bytes(), Ok(Vec::new()));
}

#[test]
fn type_and_class_codes() {
    assert_eq!(Type::CAA.code(), 257);
    assert_eq!(Type::try_from(28), Ok(Type::AAAA));
    assert_eq!(Type::try_from(3), Err(CodecError::UnknownCode));
    assert_eq!(Class::try_from(255), Ok(Class::ANY));
    assert_eq!(Class::try_from(5), Err(CodecError::UnknownCode));
    assert_eq!(Class::HS.code(), 4);
}

#[test]
fn unterminated_record_name_is_truncated() {
    assert_eq!(RR::from_bytes(&[0x80, 0x01]), Err(CodecError::TruncatedInput));
    let mut rr = RR::new();
    assert_eq!(rr.set_name(&[0x80, 0x01]), Err(CodecError::TruncatedInput));
    assert_eq!(rr, RR::new());
    assert_eq!(build_answer(&[0x80, 0x01]).unwrap_err(), CodecError::TruncatedInput);
}

#[test]
fn record_with_address_round_trips_inside_a_longer_buffer() {
    let rr = RR::new();
    let mut bytes = rr.to_bytes().unwrap();
    let len = bytes.len();
    bytes.extend([1, 2, 3, 4, 5]);
    assert_eq!(RR::from_bytes(&bytes), Ok((rr, len)));
}
