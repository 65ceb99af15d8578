use thrift_sniffer::errors::DecodeError;
use thrift_sniffer::detect::ProtocolVariant;
use thrift_sniffer::message::{decode_payload, MessageKind};
use thrift_sniffer::value::{Field, Value};

fn binary_envelope(kind: u8, method: &[u8], seq: i32) -> Vec<u8> {
    let mut buf: Vec<u8> = vec![0x80, 0x01, 0x00, kind];
    buf.extend_from_slice(&(method.len() as u32).to_be_bytes());
    buf.extend_from_slice(method);
    buf.extend_from_slice(&seq.to_be_bytes());
    buf
}

#[test]
fn binary_call_ping_empty_fields() {
    let mut buf = binary_envelope(0x01, b"ping", 7);
    buf.push(0x00);
    let msg = decode_payload(&buf).expect("decode");
    assert_eq!(msg.variant, ProtocolVariant::Binary);
    assert_eq!(msg.kind, MessageKind::Call);
    assert_eq!(msg.method_name, b"ping".to_vec());
    assert_eq!(msg.sequence_id, 7);
    assert!(msg.fields.is_empty());
    assert_eq!(msg.field_error, None);
}

#[test]
fn compact_zigzag_sequence_id() {
    // kind Call in the low three bits of the third byte; name "foo";
    // sequence id -5 zigzag-encoded as 9.
    let buf = vec![0x82, 0x01, 0x01, 0x03, b'f', b'o', b'o', 0x09, 0x00];
    let msg = decode_payload(&buf).expect("decode");
    assert_eq!(msg.variant, ProtocolVariant::Compact);
    assert_eq!(msg.kind, MessageKind::Call);
    assert_eq!(msg.method_name, b"foo".to_vec());
    assert_eq!(msg.sequence_id, -5);
    assert_eq!(msg.field_error, None);
}

#[test]
fn truncated_mid_struct_keeps_fields() {
    let mut buf = binary_envelope(0x01, b"m", 1);
    // one complete bool field
    buf.extend_from_slice(&[0x02, 0x00, 0x01, 0x01]);
    // a struct field whose inner i64 is cut short
    buf.extend_from_slice(&[0x0c, 0x00, 0x02]);
    buf.extend_from_slice(&[0x0a, 0x00, 0x03, 0xde, 0xad, 0xbe, 0xef]);
    let msg = decode_payload(&buf).expect("decode");
    assert_eq!(msg.field_error, Some(DecodeError::Truncated));
    assert_eq!(msg.fields.len(), 1);
    assert_eq!(msg.fields[0], Field { id: 1, value: Value::Bool(true) });
}

#[test]
fn struct_with_list_of_strings() {
    let mut buf = binary_envelope(0x02, b"answer", 9);
    // field 1: a struct holding field 2, a list of three strings
    buf.extend_from_slice(&[0x0c, 0x00, 0x01]);
    buf.extend_from_slice(&[0x0f, 0x00, 0x02, 0x0b]);
    buf.extend_from_slice(&3u32.to_be_bytes());
    for s in [b"ab".as_slice(), b"cde".as_slice(), b"f".as_slice()] {
        buf.extend_from_slice(&(s.len() as u32).to_be_bytes());
        buf.extend_from_slice(s);
    }
    buf.push(0x00); // inner STOP
    buf.push(0x00); // outer STOP
    let msg = decode_payload(&buf).expect("decode");
    assert_eq!(msg.kind, MessageKind::Reply);
    assert_eq!(msg.field_error, None);
    assert_eq!(msg.fields.len(), 1);
    let expected = Field {
        id: 1,
        value: Value::Struct(vec![Field {
            id: 2,
            value: Value::ListOf(
                0x0b,
                vec![
                    Value::Text(b"ab".to_vec()),
                    Value::Text(b"cde".to_vec()),
                    Value::Text(b"f".to_vec()),
                ],
            ),
        }]),
    };
    assert_eq!(msg.fields[0], expected);
}

#[test]
fn theader_wrapped_matches_inner() {
    let mut inner = binary_envelope(0x01, b"getItem", 42);
    inner.push(0x00);
    let mut wrapped: Vec<u8> = vec![0x00, 0x00, 0x00, 0x40, 0x10];
    wrapped.extend_from_slice(&[0x00; 7]); // flags, sequence, padding
    wrapped.push(0x00); // header length in words
    wrapped.extend_from_slice(&inner);
    let direct = decode_payload(&inner).expect("decode inner");
    let via_header = decode_payload(&wrapped).expect("decode wrapped");
    assert_eq!(via_header.method_name, direct.method_name);
    assert_eq!(via_header.sequence_id, direct.sequence_id);
    assert_eq!(via_header.kind, direct.kind);
}

#[test]
fn scalar_fields_of_every_width() {
    let mut buf = binary_envelope(0x01, b"all", 3);
    buf.extend_from_slice(&[0x02, 0x00, 0x01, 0x00]); // bool false
    buf.extend_from_slice(&[0x03, 0x00, 0x02, 0xff]); // byte
    buf.extend_from_slice(&[0x06, 0x00, 0x03, 0xff, 0xfe]); // i16 -2
    buf.extend_from_slice(&[0x08, 0x00, 0x04]);
    buf.extend_from_slice(&(-100_000i32).to_be_bytes());
    buf.extend_from_slice(&[0x0a, 0x00, 0x05]);
    buf.extend_from_slice(&(-5_000_000_000i64).to_be_bytes());
    buf.extend_from_slice(&[0x04, 0x00, 0x06]);
    buf.extend_from_slice(&1.5f64.to_be_bytes());
    buf.push(0x00);
    let msg = decode_payload(&buf).expect("decode");
    assert_eq!(msg.field_error, None);
    assert_eq!(msg.fields.len(), 6);
    assert_eq!(msg.fields[0].value, Value::Bool(false));
    assert_eq!(msg.fields[1].value, Value::Byte(0xff));
    assert_eq!(msg.fields[2].value, Value::I16(-2));
    assert_eq!(msg.fields[3].value, Value::I32(-100_000));
    assert_eq!(msg.fields[4].value, Value::I64(-5_000_000_000));
    match msg.fields[5].value {
        Value::DoubleBits(bits) => assert_eq!(f64::from_bits(bits), 1.5),
        ref other => panic!("expected a double, got {:?}", other),
    }
}

#[test]
fn map_and_set_fields() {
    let mut buf = binary_envelope(0x01, b"ms", 4);
    // field 1: map i32 -> string with one pair (7, "x")
    buf.extend_from_slice(&[0x0d, 0x00, 0x01, 0x08, 0x0b]);
    buf.extend_from_slice(&1u32.to_be_bytes());
    buf.extend_from_slice(&7i32.to_be_bytes());
    buf.extend_from_slice(&1u32.to_be_bytes());
    buf.push(b'x');
    // field 2: set of two bytes
    buf.extend_from_slice(&[0x0e, 0x00, 0x02, 0x03]);
    buf.extend_from_slice(&2u32.to_be_bytes());
    buf.extend_from_slice(&[0x05, 0x06]);
    buf.push(0x00);
    let msg = decode_payload(&buf).expect("decode");
    assert_eq!(msg.field_error, None);
    assert_eq!(
        msg.fields[0].value,
        Value::MapOf(0x08, 0x0b, vec![(Value::I32(7), Value::Text(b"x".to_vec()))])
    );
    assert_eq!(
        msg.fields[1].value,
        Value::SetOf(0x03, vec![Value::Byte(5), Value::Byte(6)])
    );
}

#[test]
fn compact_fields_with_varint_lengths() {
    // string field id 1 (zigzag 2), then STOP
    let buf = vec![
        0x82, 0x01, 0x01, 0x01, b'c', 0x02, 0x0b, 0x02, 0x02, b'h', b'i', 0x00,
    ];
    let msg = decode_payload(&buf).expect("decode");
    assert_eq!(msg.sequence_id, 1); // zigzag 2 decodes to 1
    assert_eq!(msg.fields.len(), 1);
    assert_eq!(msg.fields[0], Field { id: 1, value: Value::Text(b"hi".to_vec()) });
}

#[test]
fn unsupported_protocol_version() {
    let buf = vec![0x12, 0x34, 0x56, 0x78, 0x9a];
    assert_eq!(decode_payload(&buf), Err(DecodeError::UnsupportedProtocolVersion));
}

#[test]
fn short_buffer_is_truncated() {
    assert_eq!(decode_payload(&[0x80, 0x01]), Err(DecodeError::Truncated));
}

#[test]
fn envelope_name_truncated() {
    // declares a 100-byte method name but ends early
    let buf = vec![0x80, 0x01, 0x00, 0x01, 0x00, 0x00, 0x00, 0x64, b'p'];
    assert_eq!(decode_payload(&buf), Err(DecodeError::Truncated));
}

#[test]
fn theader_without_marker_is_unrecognized() {
    let buf = vec![
        0x00, 0x00, 0x00, 0x10, 0x10, 0x00, 0x00, 0x00, 0x00, 0x00, 0x00, 0x00, 0x00, 0x01,
        0x02, 0x03,
    ];
    assert_eq!(decode_payload(&buf), Err(DecodeError::UnrecognizedEnvelope));
}

#[test]
fn theader_header_too_large_is_truncated() {
    let buf = vec![
        0x00, 0x00, 0x00, 0x10, 0x10, 0x00, 0x00, 0x00, 0x00, 0x00, 0x00, 0x00, 0xff, 0x01,
    ];
    assert_eq!(decode_payload(&buf), Err(DecodeError::Truncated));
}

#[test]
fn unknown_field_tag_reported() {
    let mut buf = binary_envelope(0x01, b"u", 1);
    buf.extend_from_slice(&[0x63, 0x00, 0x01, 0x00]);
    let msg = decode_payload(&buf).expect("decode");
    assert_eq!(msg.field_error, Some(DecodeError::UnsupportedFieldType));
    assert!(msg.fields.is_empty());
}

#[test]
fn oversized_list_count_reported() {
    let mut buf = binary_envelope(0x01, b"big", 2);
    buf.extend_from_slice(&[0x0f, 0x00, 0x01, 0x0a]);
    buf.extend_from_slice(&4096u32.to_be_bytes());
    let msg = decode_payload(&buf).expect("decode");
    assert_eq!(msg.field_error, Some(DecodeError::CountOverflow));
}

#[test]
fn nesting_limit_reported() {
    let mut buf = binary_envelope(0x01, b"deep", 5);
    for _ in 0..65 {
        buf.extend_from_slice(&[0x0c, 0x00, 0x01]);
    }
    let msg = decode_payload(&buf).expect("decode");
    assert_eq!(msg.field_error, Some(DecodeError::RecursionLimitExceeded));
}

#[test]
fn varint_overrun_reported() {
    // the method-name length varint never terminates within ten bytes
    let mut buf = vec![0x82, 0x01, 0x01];
    buf.extend_from_slice(&[0x80; 10]);
    buf.push(0x01);
    assert_eq!(decode_payload(&buf), Err(DecodeError::Overflow));
}

#[test]
fn exhaustion_at_field_boundary_is_quiet() {
    // a complete bool field, then the buffer simply ends without a STOP
    let mut buf = binary_envelope(0x01, b"q", 8);
    buf.extend_from_slice(&[0x02, 0x00, 0x01, 0x01]);
    let msg = decode_payload(&buf).expect("decode");
    assert_eq!(msg.field_error, None);
    assert_eq!(msg.fields.len(), 1);
}

#[test]
fn error_name_is_stable() {
    assert_eq!(DecodeError::Truncated.name(), "truncated");
    assert_eq!(DecodeError::CountOverflow.name(), "count overflow");
}
