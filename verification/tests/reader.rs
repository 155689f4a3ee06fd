use squillion::messages::error::ErrorKind;
use squillion::messages::length::encode_length;
use squillion::messages::length::read_size_check;
use squillion::messages::length::MAX_LENGTH;
use squillion::messages::reader::Reader;

#[test]
fn read_u8_basic() {
    let mut r = Reader::new(&[0xAB]);
    assert_eq!(r.read_u8().unwrap(), 0xAB);
    assert!(r.is_empty());
}

#[test]
fn read_u8_empty_errors() {
    let mut r = Reader::new(&[]);
    assert!(r.read_u8().is_err());
}

#[test]
fn read_u16_basic() {
    let mut r = Reader::new(&[0x01, 0x02]);
    assert_eq!(r.read_u16().unwrap(), 0x0102);
}

#[test]
fn read_u16_short_errors() {
    let mut r = Reader::new(&[0x01]);
    assert!(r.read_u16().is_err());
}

#[test]
fn read_bytes_basic() {
    let mut r = Reader::new(&[1, 2, 3, 4]);
    assert_eq!(r.read_bytes(2).unwrap(), &[1, 2]);
    assert_eq!(r.read_bytes(2).unwrap(), &[3, 4]);
}

#[test]
fn read_bytes_overflow_errors() {
    let mut r = Reader::new(&[1, 2]);
    assert!(r.read_bytes(3).is_err());
}

#[test]
fn read_mqtt_string_invalid_utf8() {
    // 0xFF is not valid UTF-8
    let mut r = Reader::new(&[0xFF]);
    assert!(r.read_mqtt_string(1).is_err());
}

#[test]
fn read_varint_one_byte() {
    let mut r = Reader::new(&[0x7F]);
    assert_eq!(r.read_varint().unwrap(), (127, 1));
}

#[test]
fn read_varint_two_bytes() {
    let mut r = Reader::new(&[0x80, 0x01]);
    assert_eq!(r.read_varint().unwrap(), (128, 2));
}

#[test]
fn read_varint_truncated_errors() {
    // continuation bit set but no next byte
    let mut r = Reader::new(&[0x80]);
    assert!(r.read_varint().is_err());
}

#[test]
fn read_varint_too_long_errors() {
    let mut r = Reader::new(&[0x80, 0x80, 0x80, 0x80, 0x00]);
    assert!(r.read_varint().is_err());
}

#[test]
fn expect_end_passes_when_empty() {
    let mut r = Reader::new(&[0xAB]);
    r.read_u8().unwrap();
    assert!(r.expect_end("test").is_ok());
}

#[test]
fn expect_end_fails_when_data_remains() {
    let r = Reader::new(&[0xAB, 0xCD]);
    assert!(r.expect_end("test").is_err());
}

#[test]
fn prefixed_strings() {
    let mut r = Reader::new(&[0, 3, b'a', 0xC3, 0xA4, 7]);
    assert_eq!(r.read_mqtt_string_prefixed().unwrap(), "aä");
    assert_eq!(r.remaining(), 1);
    let mut short = Reader::new(&[0, 3, b'a']);
    let e = short.read_mqtt_string_prefixed().unwrap_err();
    assert_eq!(e.kind(), ErrorKind::InvalidData);
    assert_eq!(e.message(), "unexpected end of packet");
}

#[test]
fn skip_moves_on() {
    let mut r = Reader::new(&[1, 2, 3]);
    assert!(r.skip(2).is_ok());
    assert_eq!(r.read_u8().unwrap(), 3);
    assert!(r.skip(1).is_err());
}

#[test]
fn lengths_are_read_back() {
    assert_eq!(encode_length(0), vec![0]);
    assert_eq!(encode_length(127), vec![0x7f]);
    assert_eq!(encode_length(128), vec![0x80, 0x01]);
    assert_eq!(encode_length(16384), vec![0x80, 0x80, 0x01]);
    assert_eq!(encode_length(MAX_LENGTH), vec![0xff, 0xff, 0xff, 0x7f]);
    for n in [0usize, 1, 127, 128, 300, 16383, 16384, 2097152, MAX_LENGTH] {
        let mut bytes = encode_length(n);
        let size = bytes.len();
        bytes.push(0xff);
        assert_eq!(read_size_check(&bytes), Ok(Some((n, size))));
        assert_eq!(Reader::new(&bytes).read_varint().unwrap(), (n, size));
        assert_eq!(read_size_check(&bytes[..size - 1]), Ok(None));
    }
    assert_eq!(read_size_check(&[0x80, 0x80, 0x80, 0x80]), Err(()));
}
