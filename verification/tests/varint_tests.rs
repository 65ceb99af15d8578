use thrift_sniffer::cursor::ByteCursor;
use thrift_sniffer::errors::DecodeError;
use thrift_sniffer::varint::{
    decode_varint, encode_varint, zigzag_decode32, zigzag_decode64, zigzag_encode32,
    zigzag_encode64,
};

fn decode_all(bytes: &[u8]) -> (Result<u64, DecodeError>, usize) {
    let mut cur = ByteCursor::new(bytes, 0);
    let r = decode_varint(&mut cur);
    (r, cur.pos)
}

#[test]
fn varint_zigzag_round_trip_i64_samples() {
    for n in [0i64, -1, 1, -5, 63, -64, 64, 300, -300, i64::MIN, i64::MAX] {
        let enc = encode_varint(zigzag_encode64(n));
        let (got, used) = decode_all(&enc);
        assert_eq!(used, enc.len());
        assert_eq!(zigzag_decode64(got.expect("decode")), n);
    }
}

#[test]
fn varint_zigzag_round_trip_i32_samples() {
    for n in [0i32, -1, 1, -5, 1000, -1000, i32::MIN, i32::MAX] {
        let enc = encode_varint(zigzag_encode32(n) as u64);
        let (got, used) = decode_all(&enc);
        assert_eq!(used, enc.len());
        assert_eq!(zigzag_decode32(got.expect("decode") as u32), n);
    }
}

#[test]
fn zigzag_exact_values() {
    assert_eq!(zigzag_encode64(0), 0);
    assert_eq!(zigzag_encode64(-1), 1);
    assert_eq!(zigzag_encode64(1), 2);
    assert_eq!(zigzag_encode64(-5), 9);
    assert_eq!(zigzag_decode64(9), -5);
    assert_eq!(zigzag_decode64(2), 1);
    assert_eq!(zigzag_encode32(-2), 3);
    assert_eq!(zigzag_decode32(3), -2);
}

#[test]
fn varint_exact_encodings() {
    assert_eq!(encode_varint(0), vec![0x00]);
    assert_eq!(encode_varint(1), vec![0x01]);
    assert_eq!(encode_varint(127), vec![0x7f]);
    assert_eq!(encode_varint(128), vec![0x80, 0x01]);
    assert_eq!(encode_varint(300), vec![0xac, 0x02]);
    assert_eq!(encode_varint(u64::MAX).len(), 10);
}

#[test]
fn varint_truncated_input() {
    let (r, _) = decode_all(&[0x80, 0x80]);
    assert_eq!(r, Err(DecodeError::Truncated));
    let (r2, _) = decode_all(&[]);
    assert_eq!(r2, Err(DecodeError::Truncated));
}

#[test]
fn varint_too_long_overflows() {
    let bytes = [0x80u8; 11];
    let (r, _) = decode_all(&bytes);
    assert_eq!(r, Err(DecodeError::Overflow));
}

#[test]
fn cursor_reads_are_bounds_checked() {
    let data = [0x12u8, 0x34, 0x56, 0x78];
    let mut cur = ByteCursor::new(&data, 0);
    assert_eq!(cur.read_u16_be(), Ok(0x1234));
    assert_eq!(cur.read_u32_be(), Err(DecodeError::Truncated));
    assert_eq!(cur.read_u16_be(), Ok(0x5678));
    assert_eq!(cur.read_u8(), Err(DecodeError::Truncated));
    assert_eq!(cur.remaining(), 0);
}
