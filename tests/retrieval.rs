use std::io::Write;

use flate2::write::ZlibEncoder;
use flate2::Compression;

use rit::error::{HeaderFault, ObjectError};
use rit::header::{parse_header, parse_header_text, parse_size};
use rit::inflate::read_object;
use rit::object::{dispatch, parse_object, ObjectKind};

fn compress(data: &[u8]) -> Vec<u8> {
    let mut e = ZlibEncoder::new(Vec::new(), Compression::default());
    e.write_all(data).unwrap();
    e.finish().unwrap()
}

fn retrieve(stream: &[u8]) -> Result<Vec<u8>, ObjectError> {
    let whole = parse_object(stream);
    let streamed = read_object(&compress(stream));
    assert_eq!(whole, streamed);
    streamed
}

#[test]
fn end_to_end_hello_blob() {
    let compressed = compress(b"blob 5\0hello");
    assert_eq!(read_object(&compressed), Ok(b"hello".to_vec()));
}

#[test]
fn round_trip_payloads() {
    for payload in [Vec::new(), b"x".to_vec(), vec![0u8; 3], (0..=255u8).collect::<Vec<u8>>()] {
        let mut stream = format!("blob {}", payload.len()).into_bytes();
        stream.push(0);
        stream.extend_from_slice(&payload);
        assert_eq!(retrieve(&stream), Ok(payload));
    }
}

#[test]
fn round_trip_large_payload() {
    let payload: Vec<u8> = (0..100_000u32).map(|i| (i % 251) as u8).collect();
    let mut stream = format!("blob {}", payload.len()).into_bytes();
    stream.push(0);
    stream.extend_from_slice(&payload);
    assert_eq!(retrieve(&stream), Ok(payload));
}

#[test]
fn truncated_payload() {
    assert_eq!(
        retrieve(b"blob 5\0hel"),
        Err(ObjectError::TruncatedPayload { expected: 5, received: 3 })
    );
    assert_eq!(
        retrieve(b"blob 1\0"),
        Err(ObjectError::TruncatedPayload { expected: 1, received: 0 })
    );
}

#[test]
fn trailing_data() {
    assert_eq!(retrieve(b"blob 5\0hello!"), Err(ObjectError::TrailingData { expected: 5 }));
    assert_eq!(retrieve(b"blob 0\0\0"), Err(ObjectError::TrailingData { expected: 0 }));
}

#[test]
fn missing_terminator() {
    let fault = Err(ObjectError::MalformedHeader(HeaderFault::MissingTerminator));
    assert_eq!(retrieve(b""), fault);
    assert_eq!(retrieve(b"blob 5 hello"), fault);
}

#[test]
fn missing_separator() {
    assert_eq!(
        retrieve(b"blob5\0hello"),
        Err(ObjectError::MalformedHeader(HeaderFault::MissingSeparator))
    );
}

#[test]
fn header_bytes_without_space() {
    assert_eq!(
        retrieve(b"\xff\xfe\0"),
        Err(ObjectError::MalformedHeader(HeaderFault::InvalidEncoding))
    );
    assert_eq!(
        retrieve("tr\u{e9}e\0".as_bytes()),
        Err(ObjectError::MalformedHeader(HeaderFault::MissingSeparator))
    );
}

#[test]
fn invalid_size_token() {
    let fault = Err(ObjectError::MalformedHeader(HeaderFault::InvalidSize));
    assert_eq!(retrieve(b"blob five\0hello"), fault);
    assert_eq!(retrieve(b"blob \0"), fault);
    assert_eq!(retrieve(b"blob 5x\0hello"), fault);
    assert_eq!(retrieve(b"blob -5\0hello"), fault);
    assert_eq!(retrieve(b"blob 99999999999999999999999\0"), fault);
}

#[test]
fn invalid_encoding() {
    assert_eq!(
        retrieve(b"bl\xffb 5\0hello"),
        Err(ObjectError::MalformedHeader(HeaderFault::InvalidEncoding))
    );
}

#[test]
fn unsupported_kind() {
    assert_eq!(
        retrieve(b"tree 5\0hello"),
        Err(ObjectError::UnsupportedKind("tree".to_string()))
    );
    assert_eq!(
        retrieve(b"commit 0\0"),
        Err(ObjectError::UnsupportedKind("commit".to_string()))
    );
}

#[test]
fn unsupported_kind_checked_after_size() {
    assert_eq!(
        retrieve(b"tree 5\0hel"),
        Err(ObjectError::TruncatedPayload { expected: 5, received: 3 })
    );
}

#[test]
fn corrupt_compressed_data() {
    assert_eq!(read_object(b"not zlib at all"), Err(ObjectError::DecompressionError));
    let mut cut = compress(b"blob 5\0hello");
    cut.truncate(cut.len() / 2);
    assert_eq!(read_object(&cut), Err(ObjectError::DecompressionError));
}

#[test]
fn size_token_values() {
    assert_eq!(parse_size("0"), Some(0));
    assert_eq!(parse_size("42"), Some(42));
    assert_eq!(parse_size("007"), Some(7));
    assert_eq!(parse_size("18446744073709551615"), Some(usize::MAX));
    assert_eq!(parse_size(""), None);
    assert_eq!(parse_size("+5"), None);
    assert_eq!(parse_size("4 2"), None);
}

#[test]
fn header_split_at_first_space() {
    let h = parse_header_text("blob 12").unwrap();
    assert_eq!(h.kind, "blob");
    assert_eq!(h.size, 12);
    assert_eq!(parse_header_text("a b 1").err(), Some(HeaderFault::InvalidSize));
    assert_eq!(parse_header_text("blob").err(), Some(HeaderFault::MissingSeparator));
    let h = parse_header_text(" 3").unwrap();
    assert_eq!(h.kind, "");
    assert_eq!(h.size, 3);
}

#[test]
fn header_bytes_decoded() {
    let h = parse_header("tr\u{e9}e 7".as_bytes()).unwrap();
    assert_eq!(h.kind, "tr\u{e9}e");
    assert_eq!(h.size, 7);
    assert_eq!(parse_header(b"\xc3 1").err(), Some(HeaderFault::InvalidEncoding));
}

#[test]
fn kinds_and_dispatch() {
    assert!(matches!(ObjectKind::from_name("blob"), ObjectKind::Blob));
    assert!(matches!(ObjectKind::from_name("Blob"), ObjectKind::Unsupported(ref k) if k == "Blob"));
    assert_eq!(dispatch(ObjectKind::Blob, vec![1, 2]), Ok(vec![1, 2]));
    assert_eq!(
        dispatch(ObjectKind::Unsupported("tag".to_string()), vec![1]),
        Err(ObjectError::UnsupportedKind("tag".to_string()))
    );
}
