use falcon_protocol::buffer::PacketBuffer;
use falcon_protocol::codec::{decode_varint, get_var_i32_size, get_var_i64_size, VarFail};
use falcon_protocol::errors::ErrorKind;

#[test]
fn var_i32_size_one_byte_range() {
    assert_eq!(get_var_i32_size(0), 1);
    assert_eq!(get_var_i32_size(1), 1);
    assert_eq!(get_var_i32_size(127), 1);
}

#[test]
fn var_i32_size_two_byte_range() {
    assert_eq!(get_var_i32_size(128), 2);
    assert_eq!(get_var_i32_size(300), 2);
    assert_eq!(get_var_i32_size(16383), 2);
}

#[test]
fn var_i32_size_upper_ranges() {
    assert_eq!(get_var_i32_size(16384), 3);
    assert_eq!(get_var_i32_size(0x1F_FFFF), 3);
    assert_eq!(get_var_i32_size(0x20_0000), 4);
    assert_eq!(get_var_i32_size(0x0FFF_FFFF), 4);
    assert_eq!(get_var_i32_size(0x1000_0000), 5);
    assert_eq!(get_var_i32_size(i32::MAX), 5);
}

#[test]
fn var_i32_size_negative_is_max() {
    assert_eq!(get_var_i32_size(-1), 5);
    assert_eq!(get_var_i32_size(-128), 5);
    assert_eq!(get_var_i32_size(i32::MIN), 5);
}

#[test]
fn var_i64_size_boundaries() {
    assert_eq!(get_var_i64_size(0), 1);
    assert_eq!(get_var_i64_size(127), 1);
    assert_eq!(get_var_i64_size(128), 2);
    assert_eq!(get_var_i64_size(16383), 2);
    assert_eq!(get_var_i64_size(16384), 3);
    assert_eq!(get_var_i64_size(i64::MAX), 9);
}

#[test]
fn var_i64_size_negative_is_max() {
    assert_eq!(get_var_i64_size(-1), 10);
    assert_eq!(get_var_i64_size(i64::MIN), 10);
}

#[test]
fn var_i32_round_trip_many_values() {
    let values = [
        0i32,
        1,
        2,
        127,
        128,
        255,
        300,
        16383,
        16384,
        0x1F_FFFF,
        0x20_0000,
        0x0FFF_FFFF,
        0x1000_0000,
        i32::MAX,
        -1,
        -2,
        -127,
        -128,
        -300,
        i32::MIN,
    ];
    for &v in values.iter() {
        let mut buf = PacketBuffer::new();
        buf.write_var_i32(v);
        let encoded_len = buf.len();
        assert_eq!(encoded_len, get_var_i32_size(v));
        let got = buf.read_var_i32().unwrap();
        assert_eq!(got, v);
        assert_eq!(buf.position(), encoded_len);
    }
}

#[test]
fn var_i64_round_trip_many_values() {
    let values = [
        0i64,
        1,
        127,
        128,
        16383,
        16384,
        0x7FFF_FFFF,
        0x8000_0000,
        i64::MAX,
        -1,
        -2,
        -128,
        i64::MIN,
    ];
    for &v in values.iter() {
        let mut buf = PacketBuffer::new();
        buf.write_var_i64(v);
        let encoded_len = buf.len();
        assert_eq!(encoded_len, get_var_i64_size(v));
        let got = buf.read_var_i64().unwrap();
        assert_eq!(got, v);
        assert_eq!(buf.position(), encoded_len);
    }
}

#[test]
fn var_i32_known_wire_bytes() {
    let mut buf = PacketBuffer::new();
    buf.write_var_i32(300);
    assert_eq!(buf.into_bytes(), vec![0xAC, 0x02]);

    let mut buf = PacketBuffer::new();
    buf.write_var_i32(-1);
    assert_eq!(buf.into_bytes(), vec![0xFF, 0xFF, 0xFF, 0xFF, 0x0F]);

    let mut buf = PacketBuffer::new();
    buf.write_var_i32(0);
    assert_eq!(buf.into_bytes(), vec![0x00]);
}

#[test]
fn var_i32_five_continuation_bytes_too_long() {
    let mut buf = PacketBuffer::from_bytes(vec![0x80, 0x80, 0x80, 0x80, 0x80, 0x00]);
    let r = buf.read_var_i32();
    assert!(matches!(r, Err(ErrorKind::VarIntTooLong)));
    assert_eq!(buf.position(), 0);
}

#[test]
fn var_i64_ten_continuation_bytes_too_long() {
    let mut buf = PacketBuffer::from_bytes(vec![0x80; 10]);
    let r = buf.read_var_i64();
    assert!(matches!(r, Err(ErrorKind::VarLongTooLong)));
    assert_eq!(buf.position(), 0);
}

#[test]
fn var_i32_truncated_input_out_of_bytes() {
    let mut buf = PacketBuffer::from_bytes(vec![0x80, 0x80]);
    let r = buf.read_var_i32();
    assert!(matches!(r, Err(ErrorKind::NoMoreBytes)));
    assert_eq!(buf.position(), 0);
}

#[test]
fn decode_varint_raw() {
    assert_eq!(decode_varint(&vec![0x00], 0, 5), Ok((0u128, 1usize)));
    assert_eq!(decode_varint(&vec![0xAC, 0x02], 0, 5), Ok((300u128, 2usize)));
    assert_eq!(decode_varint(&vec![], 0, 5), Err(VarFail::OutOfBytes));
    assert_eq!(decode_varint(&vec![0x80; 5], 0, 5), Err(VarFail::Unterminated));
}

#[test]
fn decode_varint_accepts_non_canonical_zero() {
    // A redundant continuation byte still decodes, to the same value.
    let mut buf = PacketBuffer::from_bytes(vec![0x80, 0x00]);
    assert_eq!(buf.read_var_i32().unwrap(), 0);
    assert_eq!(buf.position(), 2);
}
