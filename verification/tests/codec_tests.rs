use miniredis::codec::parse_message;
use miniredis::codec::ProtocolError;
use miniredis::Value;

#[test]
fn parse_simple_string() {
    let buf = b"+OK\r\n".to_vec();
    let (v, n) = parse_message(&buf).unwrap();
    assert_eq!(v, Value::SimpleString(b"OK".to_vec()));
    assert_eq!(n, 5);
}

#[test]
fn parse_bulk_string() {
    let buf = b"$5\r\nhello\r\n".to_vec();
    let (v, n) = parse_message(&buf).unwrap();
    assert_eq!(v, Value::BulkString(b"hello".to_vec()));
    assert_eq!(n, 11);
}

#[test]
fn parse_two_element_array() {
    let buf = b"*2\r\n$3\r\nfoo\r\n$3\r\nbar\r\n".to_vec();
    let (v, n) = parse_message(&buf).unwrap();
    assert_eq!(
        v,
        Value::Array(vec![
            Value::BulkString(b"foo".to_vec()),
            Value::BulkString(b"bar".to_vec()),
        ])
    );
    assert_eq!(n, 22);
}

#[test]
fn parse_nested_array() {
    let buf = b"*2\r\n*1\r\n+a\r\n$1\r\nb\r\n".to_vec();
    let (v, n) = parse_message(&buf).unwrap();
    assert_eq!(
        v,
        Value::Array(vec![
            Value::Array(vec![Value::SimpleString(b"a".to_vec())]),
            Value::BulkString(b"b".to_vec()),
        ])
    );
    assert_eq!(n, buf.len());
}

#[test]
fn parse_leaves_trailing_bytes_unconsumed() {
    let buf = b"+PONG\r\n+EXTRA\r\n".to_vec();
    let (v, n) = parse_message(&buf).unwrap();
    assert_eq!(v, Value::SimpleString(b"PONG".to_vec()));
    assert_eq!(n, 7);
}

#[test]
fn round_trip_simple_string() {
    let buf = b"+PONG\r\n".to_vec();
    let (v, n) = parse_message(&buf).unwrap();
    assert_eq!(n, buf.len());
    assert_eq!(v.serialize(), buf);
}

#[test]
fn round_trip_bulk_string() {
    let buf = b"$12\r\nhello world!\r\n".to_vec();
    let (v, n) = parse_message(&buf).unwrap();
    assert_eq!(n, buf.len());
    assert_eq!(v.serialize(), buf);
}

#[test]
fn round_trip_bulk_string_with_embedded_crlf() {
    let payload: Vec<u8> = vec![0, 13, 10, 7];
    let encoded = Value::BulkString(payload.clone()).serialize();
    assert_eq!(encoded, b"$4\r\n\x00\r\n\x07\r\n".to_vec());
    let (v, n) = parse_message(&encoded).unwrap();
    assert_eq!(v, Value::BulkString(payload));
    assert_eq!(n, encoded.len());
}

#[test]
fn round_trip_multibyte_bulk_string() {
    let buf = "$6\r\nh\u{e9}llo\r\n".as_bytes().to_vec();
    let (v, n) = parse_message(&buf).unwrap();
    assert_eq!(v, Value::BulkString("h\u{e9}llo".as_bytes().to_vec()));
    assert_eq!(n, buf.len());
    assert_eq!(v.serialize(), buf);
}

#[test]
fn non_utf8_bulk_payload_is_an_error() {
    let buf = b"$1\r\n\xff\r\n".to_vec();
    assert_eq!(parse_message(&buf).unwrap_err(), ProtocolError::InvalidUtf8);
}

#[test]
fn non_utf8_simple_payload_is_an_error() {
    let buf = b"+\xc3\r\n".to_vec();
    assert_eq!(parse_message(&buf).unwrap_err(), ProtocolError::InvalidUtf8);
}

#[test]
fn overlong_and_surrogate_encodings_are_errors() {
    // overlong two-byte encoding of '/'
    let buf = b"$2\r\n\xc0\xaf\r\n".to_vec();
    assert_eq!(parse_message(&buf).unwrap_err(), ProtocolError::InvalidUtf8);
    // a UTF-16 surrogate, which UTF-8 excludes
    let buf2 = b"$3\r\n\xed\xa0\x80\r\n".to_vec();
    assert_eq!(parse_message(&buf2).unwrap_err(), ProtocolError::InvalidUtf8);
    // the largest scalar value is fine
    let buf3 = b"$4\r\n\xf4\x8f\xbf\xbf\r\n".to_vec();
    let (v, _) = parse_message(&buf3).unwrap();
    assert_eq!(v, Value::BulkString(vec![0xf4, 0x8f, 0xbf, 0xbf]));
}

#[test]
fn serialize_null_bulk_string() {
    assert_eq!(Value::NullBulkString.serialize(), b"$-1\r\n".to_vec());
}

#[test]
fn try_serialize_refuses_array() {
    let v = Value::Array(vec![Value::SimpleString(b"x".to_vec())]);
    assert!(v.try_serialize().is_none());
    assert_eq!(
        Value::SimpleString(b"hi".to_vec()).try_serialize().unwrap(),
        b"+hi\r\n".to_vec()
    );
}

#[test]
fn empty_buffer_is_an_error() {
    let buf: Vec<u8> = Vec::new();
    assert_eq!(parse_message(&buf).unwrap_err(), ProtocolError::Empty);
}

#[test]
fn unknown_type_byte_is_an_error() {
    let buf = b"?3\r\n".to_vec();
    assert_eq!(parse_message(&buf).unwrap_err(), ProtocolError::UnknownType);
}

#[test]
fn missing_terminator_is_an_error() {
    let buf = b"+PONG".to_vec();
    assert_eq!(parse_message(&buf).unwrap_err(), ProtocolError::MissingCrlf);
}

#[test]
fn bulk_without_final_crlf_is_an_error() {
    let buf = b"$3\r\nfooXY".to_vec();
    assert_eq!(parse_message(&buf).unwrap_err(), ProtocolError::MissingCrlf);
}

#[test]
fn non_numeric_length_is_an_error() {
    let buf = b"$ab\r\nxx\r\n".to_vec();
    assert_eq!(parse_message(&buf).unwrap_err(), ProtocolError::InvalidInteger);
}

#[test]
fn negative_bulk_length_is_an_error() {
    let buf = b"$-1\r\n".to_vec();
    assert_eq!(parse_message(&buf).unwrap_err(), ProtocolError::NegativeLength);
}

#[test]
fn overlong_bulk_length_is_truncated_error() {
    let buf = b"$10\r\nfoo\r\n".to_vec();
    assert_eq!(parse_message(&buf).unwrap_err(), ProtocolError::Truncated);
}

#[test]
fn huge_declared_length_does_not_read_out_of_bounds() {
    let buf = b"$9223372036854775807\r\nx\r\n".to_vec();
    assert_eq!(parse_message(&buf).unwrap_err(), ProtocolError::Truncated);
}

#[test]
fn signed_positive_length_is_accepted() {
    let buf = b"$+3\r\nfoo\r\n".to_vec();
    let (v, n) = parse_message(&buf).unwrap();
    assert_eq!(v, Value::BulkString(b"foo".to_vec()));
    assert_eq!(n, buf.len());
}

#[test]
fn negative_array_count_is_an_empty_array() {
    let buf = b"*-1\r\n".to_vec();
    let (v, n) = parse_message(&buf).unwrap();
    assert_eq!(v, Value::Array(Vec::new()));
    assert_eq!(n, 5);
}

#[test]
fn array_with_missing_element_is_an_error() {
    let buf = b"*2\r\n$3\r\nfoo\r\n".to_vec();
    assert_eq!(parse_message(&buf).unwrap_err(), ProtocolError::Empty);
}

#[test]
fn too_deep_nesting_is_an_error() {
    let mut buf: Vec<u8> = Vec::new();
    for _ in 0..33 {
        buf.extend_from_slice(b"*1\r\n");
    }
    buf.extend_from_slice(b"+x\r\n");
    assert_eq!(parse_message(&buf).unwrap_err(), ProtocolError::DepthExceeded);
}

#[test]
fn nesting_within_the_bound_parses() {
    let mut buf: Vec<u8> = Vec::new();
    for _ in 0..32 {
        buf.extend_from_slice(b"*1\r\n");
    }
    buf.extend_from_slice(b"+x\r\n");
    let (_, n) = parse_message(&buf).unwrap();
    assert_eq!(n, buf.len());
}
