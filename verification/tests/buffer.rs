use falcon_protocol::buffer::PacketBuffer;
use falcon_protocol::errors::ErrorKind;

#[test]
fn read_exactly_k_bytes_advances_to_k() {
    let mut buf = PacketBuffer::from_bytes(vec![1, 2, 3, 4]);
    let got = buf.read_u8_array(4).unwrap();
    assert_eq!(got, vec![1, 2, 3, 4]);
    assert_eq!(buf.position(), 4);
    assert_eq!(buf.remaining(), 0);
}

#[test]
fn read_k_plus_one_bytes_fails_without_moving() {
    let mut buf = PacketBuffer::from_bytes(vec![1, 2, 3, 4]);
    let r = buf.read_u8_array(5);
    assert!(matches!(r, Err(ErrorKind::NoMoreBytes)));
    assert_eq!(buf.position(), 0);

    // The same from a part-way cursor.
    let one = buf.read_u8().unwrap();
    assert_eq!(one, 1);
    assert_eq!(buf.position(), 1);
    let r = buf.read_u8_array(4);
    assert!(matches!(r, Err(ErrorKind::NoMoreBytes)));
    assert_eq!(buf.position(), 1);
}

#[test]
fn read_u8_sequence() {
    let mut buf = PacketBuffer::from_bytes(vec![10, 20]);
    assert_eq!(buf.read_u8().unwrap(), 10);
    assert_eq!(buf.read_u8().unwrap(), 20);
    assert!(matches!(buf.read_u8(), Err(ErrorKind::NoMoreBytes)));
    assert_eq!(buf.position(), 2);
}

#[test]
fn writes_append_and_leave_cursor() {
    let mut buf = PacketBuffer::new();
    buf.write_u8(7);
    buf.write_u8_array(&vec![8, 9]);
    assert_eq!(buf.position(), 0);
    assert_eq!(buf.len(), 3);
    assert_eq!(buf.into_bytes(), vec![7, 8, 9]);
}

#[test]
fn string_round_trip() {
    let mut buf = PacketBuffer::new();
    buf.write_string("hello");
    let got = buf.read_string(100).unwrap();
    assert_eq!(got, "hello");
    assert_eq!(buf.remaining(), 0);
}

#[test]
fn string_round_trip_multibyte() {
    let text = "héllo wörld ✓";
    let mut buf = PacketBuffer::new();
    assert!(buf.try_write_string(text));
    let got = buf.read_string(1000).unwrap();
    assert_eq!(got, text);
}

#[test]
fn string_length_zero_rejected() {
    let mut buf = PacketBuffer::new();
    buf.write_string("");
    // An empty string writes a zero length prefix, which the reader rejects.
    let r = buf.read_string(100);
    assert!(matches!(r, Err(ErrorKind::StringSizeZero)));
    assert_eq!(buf.position(), 0);
}

#[test]
fn string_longer_than_max_rejected() {
    let mut buf = PacketBuffer::new();
    buf.write_string("hello");
    let r = buf.read_string(4);
    assert!(matches!(r, Err(ErrorKind::StringTooLong)));
    assert_eq!(buf.position(), 0);
    // With a generous max the same bytes read fine.
    assert_eq!(buf.read_string(5).unwrap(), "hello");
}

#[test]
fn string_invalid_utf8_rejected() {
    // Length 2, then bytes that are not valid UTF-8.
    let mut buf = PacketBuffer::from_bytes(vec![0x02, 0xFF, 0xFE]);
    let r = buf.read_string(100);
    assert!(matches!(r, Err(ErrorKind::BadString)));
    assert_eq!(buf.position(), 0);
}

#[test]
fn string_truncated_payload_fails() {
    // Length 5 declared, only 2 bytes present.
    let mut buf = PacketBuffer::from_bytes(vec![0x05, b'h', b'i']);
    let r = buf.read_string(100);
    assert!(matches!(r, Err(ErrorKind::NoMoreBytes)));
    assert_eq!(buf.position(), 0);
}

#[test]
fn mixed_fields_in_one_packet() {
    let mut buf = PacketBuffer::new();
    buf.write_var_i32(42);
    buf.write_string("falcon");
    buf.write_var_i64(-7);
    buf.write_u8(0xAB);

    assert_eq!(buf.read_var_i32().unwrap(), 42);
    assert_eq!(buf.read_string(16).unwrap(), "falcon");
    assert_eq!(buf.read_var_i64().unwrap(), -7);
    assert_eq!(buf.read_u8().unwrap(), 0xAB);
    assert_eq!(buf.remaining(), 0);
}

#[test]
fn error_messages() {
    assert_eq!(ErrorKind::NoMoreBytes.message(), "PacketBuffer reached EOF!");
    assert_eq!(ErrorKind::StringSizeZero.message(), "String size was 0!");
}
