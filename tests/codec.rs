use arte_protocol::codec::{
    read_bool, read_option_uuid, read_string_limit, read_u16, read_uuid, write_bool,
    write_option_uuid, write_string, write_u16, write_uuid, Uuid,
};
use arte_protocol::error::{Error, WireEnum};
use arte_protocol::varint::{VarInt, VarLong};

fn encode(v: i32) -> Vec<u8> {
    let mut out = Vec::new();
    VarInt(v).write_to(&mut out);
    out
}

#[test]
fn varint_canonical_vectors() {
    assert_eq!(encode(0), vec![0x00]);
    assert_eq!(encode(-1), vec![0x7F]);
    assert_eq!(encode(64), vec![0xC0, 0x00]);
    assert_eq!(encode(-64), vec![0x40]);
    assert_eq!(encode(63), vec![0x3F]);
    assert_eq!(encode(-65), vec![0xBF, 0x7F]);
}

#[test]
fn varint_round_trip_and_length() {
    let values = [0, 1, -1, 63, 64, -64, -65, 127, 128, 300, -300, 8191, 8192, 1 << 20, i32::MAX, i32::MIN];
    for v in values {
        let bytes = encode(v);
        assert_eq!(VarInt(v).length(), bytes.len());
        let (decoded, end) = VarInt::read_from(&bytes, 0).unwrap();
        assert_eq!(decoded, VarInt(v));
        assert_eq!(end, bytes.len());
    }
    assert_eq!(VarInt(i32::MIN).length(), 5);
    assert_eq!(VarInt(i32::MAX).length(), 5);
}

#[test]
fn varint_stops_at_its_last_group() {
    let buf = vec![0xAA, 0xC0, 0x00, 0x7F];
    let (v, end) = VarInt::read_from(&buf, 1).unwrap();
    assert_eq!(v, VarInt(64));
    assert_eq!(end, 3);
}

#[test]
fn varint_truncated_is_end_of_stream() {
    assert_eq!(VarInt::read_from(&[], 0), Err(Error::UnexpectedEof));
    assert_eq!(VarInt::read_from(&[0x80, 0x80], 0), Err(Error::UnexpectedEof));
}

#[test]
fn varint_too_long_is_malformed() {
    assert_eq!(VarInt::read_from(&[0x80, 0x80, 0x80, 0x80, 0x80, 0x00], 0), Err(Error::MalformedVarInt));
    // five groups whose value is above i32::MAX
    assert_eq!(VarInt::read_from(&[0xFF, 0xFF, 0xFF, 0xFF, 0x0F], 0), Err(Error::MalformedVarInt));
}

#[test]
fn varint_usize_conversions() {
    assert_eq!(VarInt::usize(300), VarInt(300));
    assert_eq!(VarInt(300).to_usize(), 300);
}

#[test]
fn string_round_trip() {
    let mut out = Vec::new();
    write_string("héllo", &mut out);
    assert_eq!(out, vec![6, b'h', 0xC3, 0xA9, b'l', b'l', b'o']);
    let (s, end) = read_string_limit(&out, 0, 16).unwrap();
    assert_eq!(s, "héllo");
    assert_eq!(end, 7);
}

#[test]
fn string_over_limit_is_refused_before_payload() {
    // declared length 20, no payload bytes at all
    let buf = vec![20];
    assert_eq!(read_string_limit(&buf, 0, 16), Err(Error::StringTooLarge { length: 20, limit: 16 }));
}

#[test]
fn string_at_limit_is_accepted() {
    let mut out = Vec::new();
    write_string("abcdefghijklmnop", &mut out);
    let (s, _) = read_string_limit(&out, 0, 16).unwrap();
    assert_eq!(s, "abcdefghijklmnop");
}

#[test]
fn string_short_payload_is_end_of_stream() {
    assert_eq!(read_string_limit(&[3, b'a'], 0, 16), Err(Error::UnexpectedEof));
}

#[test]
fn string_invalid_utf8_or_negative_length() {
    assert_eq!(read_string_limit(&[2, 0xFF, 0xFE], 0, 16), Err(Error::InvalidData));
    assert_eq!(read_string_limit(&[0x7F], 0, 16), Err(Error::InvalidData));
}

#[test]
fn u16_is_big_endian() {
    let mut out = Vec::new();
    write_u16(25565, &mut out);
    assert_eq!(out, vec![0x63, 0xDD]);
    assert_eq!(read_u16(&out, 0), Ok((25565, 2)));
    assert_eq!(read_u16(&out, 1), Err(Error::UnexpectedEof));
}

#[test]
fn bool_values() {
    let mut out = Vec::new();
    write_bool(true, &mut out);
    write_bool(false, &mut out);
    assert_eq!(out, vec![1, 0]);
    assert_eq!(read_bool(&out, 0), Ok((true, 1)));
    assert_eq!(read_bool(&out, 1), Ok((false, 2)));
    assert_eq!(read_bool(&out, 2), Err(Error::UnexpectedEof));
}

#[test]
fn bool_bad_value_names_accepted_values() {
    let r = read_bool(&[2], 0);
    assert_eq!(r, Err(Error::BadEnumValue { field: WireEnum::Bool, got: 2 }));
    assert_eq!(WireEnum::Bool.accepted_values(), vec![0, 1]);
    assert_eq!(WireEnum::NextState.accepted_values(), vec![1, 2]);
}

#[test]
fn uuid_and_optional_uuid() {
    let id = Uuid { bytes: [7; 16] };
    let mut out = Vec::new();
    write_uuid(&id, &mut out);
    assert_eq!(out.len(), 16);
    assert_eq!(read_uuid(&out, 0).unwrap(), (id, 16));
    assert_eq!(read_uuid(&out, 1), Err(Error::UnexpectedEof));

    let mut out = Vec::new();
    write_option_uuid(&Some(id), &mut out);
    write_option_uuid(&None, &mut out);
    assert_eq!(out.len(), 18);
    assert_eq!(out[0], 1);
    assert_eq!(out[17], 0);
    assert_eq!(read_option_uuid(&out, 0).unwrap(), (Some(id), 17));
    assert_eq!(read_option_uuid(&out, 17).unwrap(), (None, 18));
    assert_eq!(read_option_uuid(&[3], 0), Err(Error::BadEnumValue { field: WireEnum::Bool, got: 3 }));
}

#[test]
fn string_without_limit() {
    let mut out = Vec::new();
    let long = "z".repeat(300);
    write_string(&long, &mut out);
    assert_eq!(&out[..2], &[0xAC, 0x02]);
    assert_eq!(arte_protocol::codec::read_string(&out, 0), Ok((long, 302)));
}

#[test]
fn varlong_round_trip_and_vectors() {
    let mut out = Vec::new();
    VarLong(-1).write_to(&mut out);
    assert_eq!(out, vec![0x7F]);
    for v in [0i64, 1, -1, 64, -64, 1 << 40, -(1 << 40), i64::MAX, i64::MIN, i32::MAX as i64 + 1] {
        let mut out = Vec::new();
        VarLong(v).write_to(&mut out);
        assert_eq!(VarLong(v).length(), out.len());
        assert_eq!(VarLong::read_from(&out, 0), Ok((VarLong(v), out.len())));
    }
    assert_eq!(VarLong(i64::MIN).length(), 10);
    assert_eq!(VarLong::read_from(&[0x80; 9], 0), Err(Error::UnexpectedEof));
    assert_eq!(VarLong::read_from(&[0x80; 11], 0), Err(Error::MalformedVarInt));
}
