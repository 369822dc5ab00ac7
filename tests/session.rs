use arte_protocol::codec::Uuid;
use arte_protocol::error::Error;
use arte_protocol::packets::{PacketData, State};
use arte_protocol::phases::{Handshake, LoginStart, LoginSuccess};
use arte_protocol::session::{offline_uuid, PlayerNetwork, PROTOCOL_VERSION};
use arte_protocol::varint::VarInt;

fn frame(id: i32, payload: Vec<u8>) -> Vec<u8> {
    let mut out = Vec::new();
    PacketData { packet_id: VarInt(id), data: payload }.write_to(&mut out);
    out
}

fn handshake_frame(version: i32) -> Vec<u8> {
    let mut payload = Vec::new();
    Handshake { protocol_version: VarInt(version), address: "x".to_string(), port: 25565, next_state: State::Play }
        .write_to(&mut payload)
        .unwrap();
    frame(0x00, payload)
}

fn uuid_of(name: &str) -> [u8; 16] {
    *uuid::Uuid::new_v3(&uuid::Uuid::NAMESPACE_DNS, name.as_bytes()).as_bytes()
}

#[test]
fn offline_uuid_is_deterministic() {
    let a = offline_uuid("Notch");
    let b = offline_uuid("Notch");
    assert_eq!(a, b);
    assert_ne!(offline_uuid("Notch"), offline_uuid("jeb_"));
    assert_eq!(a.bytes, uuid_of("OfflinePlayer:Notch"));
    assert_ne!(a.bytes, uuid_of("Notch"));
    // version 3, RFC variant
    assert_eq!(a.bytes[6] >> 4, 3);
    assert_eq!(a.bytes[8] >> 6, 2);
}

#[test]
fn handshake_then_login_reaches_play() {
    let mut client = handshake_frame(763);
    let mut login = Vec::new();
    LoginStart { username: "Notch".to_string(), uuid: None }.write_to(&mut login);
    client.extend(frame(0x00, login));

    let mut network = PlayerNetwork::new(None);
    assert_eq!(network.state, State::Handshaking);
    let (next, pos) = network.handshake(&client, 0).unwrap();
    assert_eq!(next, State::Play);
    assert_eq!(network.state, State::Login);

    let mut reply = Vec::new();
    let (player, end) = network.login(&client, pos, &mut reply).unwrap();
    assert_eq!(end, client.len());
    assert_eq!(player.name, "Notch");
    let expected_uuid = Uuid { bytes: uuid_of("OfflinePlayer:Notch") };
    assert_eq!(player.uuid, expected_uuid);
    assert_eq!(player.network.state, State::Play);

    let mut answer = Vec::new();
    LoginSuccess { uuid: expected_uuid, username: "Notch".to_string(), properties: vec![] }.write_to(&mut answer);
    assert_eq!(reply, frame(0x02, answer));
}

#[test]
fn login_keeps_a_client_uuid() {
    let id = Uuid { bytes: [9; 16] };
    let mut login = Vec::new();
    LoginStart { username: "Alex".to_string(), uuid: Some(id) }.write_to(&mut login);
    let client = frame(0x00, login);
    let network = PlayerNetwork { compressing: false, state: State::Login, compression_threshold: None };
    let mut reply = Vec::new();
    let (player, _) = network.login(&client, 0, &mut reply).unwrap();
    assert_eq!(player.uuid, id);
}

#[test]
fn wrong_protocol_version_is_refused() {
    let mut client = handshake_frame(PROTOCOL_VERSION - 1);
    client.extend(frame(0x00, vec![0xFF, 0xFF]));
    let mut network = PlayerNetwork::new(Some(256));
    let before = network;
    assert_eq!(network.handshake(&client, 0), Err(Error::InvalidProtocolVersion(VarInt(762))));
    assert_eq!(network, before);
}

#[test]
fn status_handshake_moves_to_status() {
    let mut payload = Vec::new();
    Handshake { protocol_version: VarInt(763), address: "x".to_string(), port: 1, next_state: State::Status }
        .write_to(&mut payload)
        .unwrap();
    let client = frame(0x00, payload);
    let mut network = PlayerNetwork::new(None);
    assert_eq!(network.handshake(&client, 0), Ok((State::Status, client.len())));
    assert_eq!(network.state, State::Status);
}

#[test]
fn login_in_wrong_phase_is_refused() {
    let mut login = Vec::new();
    LoginStart { username: "Notch".to_string(), uuid: None }.write_to(&mut login);
    let client = frame(0x00, login);
    let network = PlayerNetwork::new(None);
    let mut reply = Vec::new();
    assert_eq!(
        network.login(&client, 0, &mut reply).err(),
        Some(Error::InvalidIdState {
            id: VarInt(0),
            state: State::Handshaking,
            expected_id: VarInt(0),
            expected_state: State::Login,
        })
    );
    assert!(reply.is_empty());
}

#[test]
fn compressing_connection_frames_by_threshold() {
    let network = PlayerNetwork { compressing: true, state: State::Play, compression_threshold: Some(4) };
    let mut out = Vec::new();
    network.send_packet(VarInt(1), vec![7, 7], &mut out).unwrap();
    assert_eq!(out, vec![4, 0, 1, 7, 7]);
    let (cx, data, end) = network.recv_packet(&out, 0).unwrap();
    assert_eq!(cx.id, VarInt(1));
    assert_eq!(cx.state, State::Play);
    assert_eq!(data, vec![7, 7]);
    assert_eq!(end, 5);

    let mut big = Vec::new();
    network.send_packet(VarInt(1), vec![7; 40], &mut big).unwrap();
    assert_eq!(big[1], 41);
    let (_, data, _) = network.recv_packet(&big, 0).unwrap();
    assert_eq!(data, vec![7; 40]);

    let plain = PlayerNetwork::new(Some(4));
    let mut out = Vec::new();
    plain.send_packet(VarInt(1), vec![7; 40], &mut out).unwrap();
    assert_eq!(out.len(), 42);
}

#[test]
fn handshake_cut_short_inside_its_envelope_fails() {
    // a complete envelope holding only the id and the protocol version
    let client = frame(0x00, vec![0xFB, 0x05]);
    let mut network = PlayerNetwork::new(None);
    assert_eq!(network.handshake(&client, 0), Err(Error::TruncatedPacket));
    assert_eq!(network.state, State::Handshaking);
    // an envelope that has not fully arrived asks for more bytes
    assert_eq!(network.handshake(&client[..2], 0), Err(Error::UnexpectedEof));
}
