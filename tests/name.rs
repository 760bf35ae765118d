use dns_codec::name::{decode_name, encode_name};
use dns_codec::CodecError;

fn labels(parts: &[&str]) -> Vec<Vec<u8>> {
    parts.iter().map(|p| p.as_bytes().to_vec()).collect()
}

#[test]
fn name_wire_bytes() {
    let bytes = encode_name(&labels(&["codecrafters", "io"])).unwrap();
    assert_eq!(
        bytes,
        vec![
            0x0C, 0x63, 0x6F, 0x64, 0x65, 0x63, 0x72, 0x61, 0x66, 0x74, 0x65, 0x72, 0x73, 0x02,
            0x69, 0x6F, 0x00
        ]
    );
}

#[test]
fn name_round_trip() {
    let name = labels(&["www", "example", "com"]);
    let bytes = encode_name(&name).unwrap();
    assert_eq!(decode_name(&bytes, 0), Ok((name, bytes.len())));
}

#[test]
fn empty_name_is_one_zero_byte() {
    let bytes = encode_name(&Vec::new()).unwrap();
    assert_eq!(bytes, vec![0]);
    assert_eq!(decode_name(&bytes, 0), Ok((Vec::new(), 1)));
}

#[test]
fn longest_label_is_accepted() {
    let name = vec![vec![b'a'; 63]];
    let bytes = encode_name(&name).unwrap();
    assert_eq!(bytes.len(), 65);
    assert_eq!(bytes[0], 63);
    assert_eq!(decode_name(&bytes, 0), Ok((name, 65)));
}

#[test]
fn label_too_long_is_rejected() {
    let name = vec![b"ok".to_vec(), vec![b'a'; 64]];
    assert_eq!(encode_name(&name), Err(CodecError::LabelTooLong));
    let mut bytes = vec![64u8];
    bytes.extend(vec![b'a'; 64]);
    bytes.push(0);
    assert_eq!(decode_name(&bytes, 0), Err(CodecError::LabelTooLong));
}

#[test]
fn unterminated_name_is_truncated() {
    let bytes = vec![0x03, b'w', b'w', b'w', 0x02, b'i', b'o'];
    assert_eq!(decode_name(&bytes, 0), Err(CodecError::TruncatedInput));
    let bytes = vec![0x05, b'a', b'b'];
    assert_eq!(decode_name(&bytes, 0), Err(CodecError::TruncatedInput));
    assert_eq!(decode_name(&[], 0), Err(CodecError::TruncatedInput));
}

#[test]
fn name_decodes_at_offset() {
    let bytes = vec![0xFF, 0xFF, 0x02, b'i', b'o', 0x00, 0x99];
    assert_eq!(decode_name(&bytes, 2), Ok((labels(&["io"]), 4)));
}

#[test]
fn unterminated_name_with_long_length_byte_is_truncated() {
    assert_eq!(decode_name(&[0x80, 0x01], 0), Err(CodecError::TruncatedInput));
    let mut bytes = vec![64u8];
    bytes.extend(vec![b'a'; 64]);
    assert_eq!(decode_name(&bytes, 0), Err(CodecError::TruncatedInput));
    bytes.push(0x03);
    assert_eq!(decode_name(&bytes, 0), Err(CodecError::TruncatedInput));
}
