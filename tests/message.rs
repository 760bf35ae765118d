use bytes::Bytes;
use dns_codec::{CodecError, DnsHeader, DnsMessage, DnsQuestion, RR};

#[test]
fn test_message() {
    let message = DnsMessage::new();
    let bytes = message.serialize().unwrap();
    assert_eq!(bytes.len(), 512);
}

#[test]
fn message_frame_is_padded_with_zeros() {
    let mut message = DnsMessage::new();
    message.header.qdcount = 1;
    let bytes = message.serialize().unwrap();
    assert_eq!(bytes.len(), 512);
    let q = DnsQuestion::new().serialize().unwrap();
    let rr = RR::new().to_bytes().unwrap();
    let used = 12 + q.len() + rr.len() + 4;
    assert_eq!(bytes[..12], message.header.to_bytes());
    assert_eq!(bytes[12..12 + q.len()], q[..]);
    assert_eq!(bytes[12 + q.len()..used - 4], rr[..]);
    assert_eq!(bytes[used - 4..used], [127, 0, 0, 1]);
    assert!(bytes[used..].iter().all(|b| *b == 0));
}

#[test]
fn message_decode_and_reencode_is_stable() {
    let frame = DnsMessage::new().serialize().unwrap();
    let decoded = DnsMessage::deserialize(&frame).unwrap();
    assert_eq!(decoded.header, DnsHeader::new());
    assert_eq!(decoded.question, Some(DnsQuestion::new()));
    assert_eq!(decoded.answer, Some(RR::new()));
    assert_eq!(decoded.authority, [127, 0, 0, 1]);
    assert_eq!(decoded.additional_space, 512 - (12 + 21 + 31 + 4));
    let again = decoded.serialize().unwrap();
    assert_eq!(again, frame);
    assert_eq!(DnsMessage::deserialize(&again), Ok(decoded));
}

#[test]
fn message_without_sections() {
    let mut message = DnsMessage::new();
    message.question = None;
    message.answer = None;
    message.authority = [0, 1, 2, 3];
    let frame = message.serialize().unwrap();
    assert_eq!(frame[12..16], [0, 1, 2, 3]);
    let decoded = DnsMessage::deserialize(&frame).unwrap();
    assert_eq!(decoded.question, None);
    assert_eq!(decoded.answer, None);
    assert_eq!(decoded.authority, [0, 1, 2, 3]);
    assert_eq!(decoded.additional_space, 512 - 16);
}

#[test]
fn message_decode_errors() {
    assert_eq!(DnsMessage::deserialize(&Bytes::from(vec![0u8; 11])), Err(CodecError::TruncatedInput));
    assert_eq!(DnsMessage::from_frame(&[0u8; 14]), Err(CodecError::TruncatedInput));
    let mut frame = vec![0u8; 512];
    frame[3] = 0x0F;
    assert_eq!(DnsMessage::from_frame(&frame), Err(CodecError::UnknownCode));
    let mut frame = vec![0u8; 512];
    frame[12..16].copy_from_slice(&[0x02, b'i', b'o', 0x00]);
    frame[16..20].copy_from_slice(&[0x00, 0x03, 0x00, 0x01]);
    assert_eq!(DnsMessage::from_frame(&frame), Err(CodecError::UnknownCode));
    let frame = vec![0x7u8; 512];
    assert_eq!(DnsMessage::from_frame(&frame), Err(CodecError::TruncatedInput));
}

#[test]
fn message_encode_errors() {
    let mut message = DnsMessage::new();
    message.answer.as_mut().unwrap().set_rdlength(2);
    assert_eq!(message.serialize(), Err(CodecError::InvariantViolation));
    message.question.as_mut().unwrap().name = vec![vec![0u8; 100]];
    assert_eq!(message.serialize(), Err(CodecError::LabelTooLong));
}

#[test]
fn message_longer_than_frame_is_cut() {
    let mut message = DnsMessage::new();
    message.answer.as_mut().unwrap().set_rdata(vec![0xAB; 600]);
    message.answer.as_mut().unwrap().set_rdlength(600);
    let frame = message.to_frame().unwrap();
    assert_eq!(frame.len(), 512);
    assert_eq!(frame[511], 0xAB);
}
