use arte_protocol::codec::Uuid;
use arte_protocol::error::Error;
use arte_protocol::packets::{PacketContext, PacketData, SerializedPacket, State};
use arte_protocol::phases::{check_context, Handshake, LoginStart, LoginSuccess, Property};
use arte_protocol::varint::VarInt;

fn plain(id: i32, data: &[u8]) -> Vec<u8> {
    let mut out = Vec::new();
    PacketData { packet_id: VarInt(id), data: data.to_vec() }.write_to(&mut out);
    out
}

fn compressed(id: i32, data: &[u8], threshold: Option<usize>) -> Vec<u8> {
    let mut out = Vec::new();
    let packet = SerializedPacket::Compressed(arte_protocol::compression::Zlib(PacketData {
        packet_id: VarInt(id),
        data: data.to_vec(),
    }));
    packet.write_to(&mut out, threshold).unwrap();
    out
}

#[test]
fn plain_frame_layout() {
    assert_eq!(plain(0x02, &[0xAA, 0xBB]), vec![3, 0x02, 0xAA, 0xBB]);
    assert_eq!(plain(0x00, &[]), vec![1, 0x00]);
}

#[test]
fn plain_frame_round_trip() {
    let payloads: Vec<Vec<u8>> = vec![vec![], vec![0], vec![0xFF; 200], (0..=255).collect()];
    for (i, payload) in payloads.iter().enumerate() {
        let id = i as i32 * 70;
        let mut buf = plain(id, payload);
        let frame_len = buf.len();
        buf.extend_from_slice(&[9, 9, 9]);
        let (cx, data, end) = SerializedPacket::read_packet(&buf, 0, false, State::Play).unwrap();
        assert_eq!(cx, PacketContext { id: VarInt(id), state: State::Play });
        assert_eq!(&data, payload);
        assert_eq!(end, frame_len);
    }
}

#[test]
fn frame_truncated_is_end_of_stream() {
    let buf = plain(1, &[1, 2, 3]);
    assert_eq!(SerializedPacket::read_packet(&buf[..3], 0, false, State::Play).err(), Some(Error::UnexpectedEof));
}

#[test]
fn below_threshold_uses_sentinel() {
    let framed = compressed(0x05, &[1, 2, 3], Some(64));
    let mut expected = vec![5, 0, 0x05, 1, 2, 3];
    assert_eq!(framed, expected);
    // the plain frame with the sentinel inserted and the length bumped by one
    let mut p = plain(0x05, &[1, 2, 3]);
    p[0] += 1;
    p.insert(1, 0);
    assert_eq!(framed, p);
    expected.push(0xEE);
    let (packet, end) = SerializedPacket::read_from(&expected, 0, true).unwrap();
    assert_eq!(end, 6);
    match packet {
        SerializedPacket::Uncompressed(d) => {
            assert_eq!(d.packet_id, VarInt(5));
            assert_eq!(d.data, vec![1, 2, 3]);
        }
        SerializedPacket::Compressed(_) => panic!("sentinel packet read as compressed"),
    }
}

#[test]
fn at_threshold_is_deflated() {
    let payload: Vec<u8> = (0..300u32).map(|i| (i % 7) as u8).collect();
    let framed = compressed(0x21, &payload, Some(301));
    // outer length, then the data length 301 = id byte + 300 payload bytes
    let (outer, after_outer) = VarInt::read_from(&framed, 0).unwrap();
    assert_eq!(outer.0 as usize, framed.len() - after_outer);
    let (data_length, body_start) = VarInt::read_from(&framed, after_outer).unwrap();
    assert_eq!(data_length, VarInt(301));
    let mut inflated = Vec::new();
    let mut decoder = async_compression::futures::bufread::ZlibDecoder::new(&framed[body_start..]);
    futures::executor::block_on(futures::io::AsyncReadExt::read_to_end(&mut decoder, &mut inflated)).unwrap();
    let mut body = vec![0x21];
    body.extend_from_slice(&payload);
    assert_eq!(inflated, body);
    assert!(framed.len() < body.len());

    let (cx, data, end) = SerializedPacket::read_packet(&framed, 0, true, State::Play).unwrap();
    assert_eq!(cx.id, VarInt(0x21));
    assert_eq!(data, payload);
    assert_eq!(end, framed.len());
}

#[test]
fn no_threshold_always_deflates() {
    let framed = compressed(0x01, &[4], None);
    let (_, after_outer) = VarInt::read_from(&framed, 0).unwrap();
    let (data_length, _) = VarInt::read_from(&framed, after_outer).unwrap();
    assert_eq!(data_length, VarInt(2));
    let (cx, data, _) = SerializedPacket::read_packet(&framed, 0, true, State::Login).unwrap();
    assert_eq!(cx, PacketContext { id: VarInt(1), state: State::Login });
    assert_eq!(data, vec![4]);
}

#[test]
fn uncompressed_variant_ignores_threshold() {
    let mut out = Vec::new();
    SerializedPacket::Uncompressed(PacketData { packet_id: VarInt(3), data: vec![1] })
        .write_to(&mut out, Some(0))
        .unwrap();
    assert_eq!(out, vec![2, 3, 1]);
}

#[test]
fn bad_zlib_body_is_refused() {
    // outer length 4, data length 10, then three bytes that are no zlib stream
    let buf = vec![4, 10, 1, 2, 3];
    assert_eq!(SerializedPacket::read_packet(&buf, 0, true, State::Play).err(), Some(Error::Compression));
}

#[test]
fn wrong_inflated_size_is_refused() {
    let framed = compressed(0x01, &[4, 5], None);
    let mut buf = framed.clone();
    let (_, after_outer) = VarInt::read_from(&buf, 0).unwrap();
    buf[after_outer] = 9;
    assert_eq!(SerializedPacket::read_packet(&buf, 0, true, State::Play).err(), Some(Error::InvalidData));
}

fn handshake_payload(version: i32, next: State) -> Vec<u8> {
    let mut out = Vec::new();
    Handshake { protocol_version: VarInt(version), address: "x".to_string(), port: 25565, next_state: next }
        .write_to(&mut out)
        .unwrap();
    out
}

#[test]
fn handshake_layout_and_round_trip() {
    let payload = handshake_payload(763, State::Play);
    assert_eq!(payload, vec![0xFB, 0x05, 1, b'x', 0x63, 0xDD, 2]);
    let cx = PacketContext { id: VarInt(0), state: State::Handshaking };
    let h = Handshake::read_with_context(&payload, &cx).unwrap();
    assert_eq!(h.protocol_version, VarInt(763));
    assert_eq!(h.address, "x");
    assert_eq!(h.port, 25565);
    assert_eq!(h.next_state, State::Play);
    let s = Handshake::read_with_context(&handshake_payload(763, State::Status), &cx).unwrap();
    assert_eq!(s.next_state, State::Status);
}

#[test]
fn handshake_refuses_other_next_states() {
    let mut payload = handshake_payload(763, State::Play);
    *payload.last_mut().unwrap() = 3;
    let cx = PacketContext { id: VarInt(0), state: State::Handshaking };
    assert_eq!(
        Handshake::read_with_context(&payload, &cx).err(),
        Some(Error::BadEnumValue { field: arte_protocol::error::WireEnum::NextState, got: 3 })
    );
    let mut out = Vec::new();
    let h = Handshake { protocol_version: VarInt(763), address: String::new(), port: 1, next_state: State::Login };
    assert_eq!(h.write_to(&mut out), Err(Error::UnencodableState(State::Login)));
    assert!(out.is_empty());
}

#[test]
fn handshake_address_limit() {
    let long = "a".repeat(257);
    let mut out = Vec::new();
    Handshake { protocol_version: VarInt(763), address: long, port: 1, next_state: State::Status }
        .write_to(&mut out)
        .unwrap();
    let cx = PacketContext { id: VarInt(0), state: State::Handshaking };
    assert_eq!(
        Handshake::read_with_context(&out, &cx).err(),
        Some(Error::StringTooLarge { length: 257, limit: 256 })
    );
}

#[test]
fn mismatched_context_is_refused() {
    let payload = handshake_payload(763, State::Play);
    let wrong_state = PacketContext { id: VarInt(0), state: State::Login };
    assert_eq!(
        Handshake::read_with_context(&payload, &wrong_state).err(),
        Some(Error::InvalidIdState {
            id: VarInt(0),
            state: State::Login,
            expected_id: VarInt(0),
            expected_state: State::Handshaking,
        })
    );
    let wrong_id = PacketContext { id: VarInt(2), state: State::Login };
    let mut login = Vec::new();
    LoginStart { username: "Notch".to_string(), uuid: None }.write_to(&mut login);
    assert_eq!(
        LoginStart::read_with_context(&login, &wrong_id).err(),
        Some(Error::InvalidIdState {
            id: VarInt(2),
            state: State::Login,
            expected_id: VarInt(0),
            expected_state: State::Login,
        })
    );
    assert_eq!(check_context(&wrong_id, 2, State::Login), Ok(()));
    assert_eq!(LoginSuccess::id(), VarInt(2));
    assert_eq!(LoginSuccess::state(), State::Login);
    assert_eq!(Handshake::id(), VarInt(0));
    assert_eq!(Handshake::state(), State::Handshaking);
    assert_eq!(LoginStart::id(), VarInt(0));
    assert_eq!(LoginStart::state(), State::Login);
}

#[test]
fn login_start_round_trip() {
    let id = Uuid { bytes: [3; 16] };
    let cx = PacketContext { id: VarInt(0), state: State::Login };
    for uuid in [None, Some(id)] {
        let mut out = Vec::new();
        LoginStart { username: "Notch".to_string(), uuid }.write_to(&mut out);
        let p = LoginStart::read_with_context(&out, &cx).unwrap();
        assert_eq!(p.username, "Notch");
        assert_eq!(p.uuid, uuid);
    }
    let mut out = Vec::new();
    LoginStart { username: "a_name_longer_than_16".to_string(), uuid: None }.write_to(&mut out);
    assert_eq!(
        LoginStart::read_with_context(&out, &cx).err(),
        Some(Error::StringTooLarge { length: 21, limit: 16 })
    );
}

#[test]
fn login_success_layout() {
    let mut out = Vec::new();
    let answer = LoginSuccess {
        uuid: Uuid { bytes: [1; 16] },
        username: "ab".to_string(),
        properties: vec![Property { name: "t".to_string(), value: "v".to_string(), signature: Some("s".to_string()) }],
    };
    answer.write_to(&mut out);
    let mut expected = vec![1u8; 16];
    expected.extend_from_slice(&[2, b'a', b'b', 1, 1, b't', 1, b'v', 1, 1, b's']);
    assert_eq!(out, expected);

    let mut out = Vec::new();
    LoginSuccess { uuid: Uuid { bytes: [0; 16] }, username: String::new(), properties: vec![] }.write_to(&mut out);
    assert_eq!(out, [vec![0u8; 16], vec![0, 0]].concat());
}

#[test]
fn login_success_round_trip() {
    let answer = LoginSuccess {
        uuid: Uuid { bytes: [5; 16] },
        username: "Notch".to_string(),
        properties: vec![
            Property { name: "textures".to_string(), value: "abc".to_string(), signature: None },
            Property { name: "x".to_string(), value: "y".to_string(), signature: Some("sig".to_string()) },
        ],
    };
    let mut out = Vec::new();
    answer.write_to(&mut out);
    let cx = PacketContext { id: VarInt(2), state: State::Login };
    let back = LoginSuccess::read_with_context(&out, &cx).unwrap();
    assert_eq!(back.uuid, answer.uuid);
    assert_eq!(back.username, "Notch");
    assert_eq!(back.properties.len(), 2);
    assert_eq!(back.properties[0].name, "textures");
    assert_eq!(back.properties[0].value, "abc");
    assert_eq!(back.properties[0].signature, None);
    assert_eq!(back.properties[1].signature, Some("sig".to_string()));
    // one property announced, none present
    let mut short = vec![5u8; 16];
    short.extend_from_slice(&[1, b'a', 1]);
    assert_eq!(LoginSuccess::read_with_context(&short, &cx).err(), Some(Error::UnexpectedEof));
    let wrong = PacketContext { id: VarInt(0), state: State::Login };
    assert!(matches!(LoginSuccess::read_with_context(&out, &wrong), Err(Error::InvalidIdState { .. })));
}

#[test]
fn content_cut_short_inside_a_complete_envelope() {
    // the envelope announces one byte, which starts an id that never ends
    assert_eq!(SerializedPacket::read_packet(&[1, 0x80], 0, false, State::Play).err(), Some(Error::TruncatedPacket));
    // a sentinel packet whose content holds no id
    assert_eq!(SerializedPacket::read_packet(&[1, 0], 0, true, State::Play).err(), Some(Error::TruncatedPacket));
}

#[test]
fn plain_connection_reads_uncompressed_variant() {
    let buf = plain(7, &[1, 2]);
    match SerializedPacket::read_from(&buf, 0, false).unwrap() {
        (SerializedPacket::Uncompressed(d), end) => {
            assert_eq!(d.packet_id, VarInt(7));
            assert_eq!(d.data, vec![1, 2]);
            assert_eq!(end, buf.len());
        }
        _ => panic!("plain packet read as compressed"),
    }
    let deflated = compressed(7, &[1, 2], None);
    assert!(matches!(SerializedPacket::read_from(&deflated, 0, true), Ok((SerializedPacket::Compressed(_), _))));
}

#[test]
fn long_property_strings_read_back() {
    let long = "p".repeat(32768);
    let answer = LoginSuccess {
        uuid: Uuid { bytes: [4; 16] },
        username: "Notch".to_string(),
        properties: vec![Property { name: long.clone(), value: long.clone(), signature: Some(long.clone()) }],
    };
    let mut out = Vec::new();
    answer.write_to(&mut out);
    let cx = PacketContext { id: VarInt(2), state: State::Login };
    let back = LoginSuccess::read_with_context(&out, &cx).unwrap();
    assert_eq!(back.properties[0].name, long);
    assert_eq!(back.properties[0].value, long);
    assert_eq!(back.properties[0].signature, Some(long));
}
