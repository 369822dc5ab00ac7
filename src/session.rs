use vstd::prelude::*;
use vstd::utf8::encode_utf8;

use crate::codec::{append_bytes, Uuid};
use crate::compression::Zlib;
use crate::error::{envelope_error, Error};
use crate::packets::{
    State,
    deflated_fits, frame_parse, id_payload_bytes, outgoing_frame, plain_frame, sent_plain, PacketContext, PacketData,
    SerializedPacket,
};
use crate::phases::{
    context_error, handshake_parse, login_start_parse, login_success_bytes, Handshake, LoginStart,
    LoginSuccess, HANDSHAKE_ID, LOGIN_START_ID, LOGIN_SUCCESS_ID,
};
use crate::varint::VarInt;

verus! {

/// The protocol version this server speaks.
pub const PROTOCOL_VERSION: i32 = 763;

/// What precedes a username in the name an offline UUID is derived from.
pub const OFFLINE_PREFIX: &'static str = "OfflinePlayer:";

/// The name-based (MD5, version 3) UUID in the DNS namespace for `name`.
pub uninterp spec fn name_uuid_v3(name: Seq<u8>) -> Seq<u8>;

/// Relies on `uuid::Uuid::new_v3` with `Uuid::NAMESPACE_DNS`: the UUID is a
/// digest of the namespace and the name, so it depends on the name alone.
#[verifier::external_body]
fn uuid_v3_dns(name: &[u8]) -> (r: [u8; 16])
    ensures
        r@ == name_uuid_v3(name@),
{
    *uuid::Uuid::new_v3(&uuid::Uuid::NAMESPACE_DNS, name).as_bytes()
}

/// The bytes an offline player's UUID is derived from.
pub open spec fn offline_seed(username: Seq<char>) -> Seq<u8> {
    encode_utf8(OFFLINE_PREFIX@) + encode_utf8(username)
}

/// UUID of a player who brought none: derived from `"OfflinePlayer:"`
/// followed by the username.
pub fn offline_uuid(username: &str) -> (r: Uuid)
    ensures
        r.bytes@ == name_uuid_v3(offline_seed(username@)),
{
    let mut seed: Vec<u8> = Vec::new();
    append_bytes(&mut seed, OFFLINE_PREFIX.as_bytes());
    append_bytes(&mut seed, username.as_bytes());
    Uuid { bytes: uuid_v3_dns(seed.as_slice()) }
}

/// The same username always receives the same offline UUID, and different
/// usernames are hashed from different names.
pub proof fn lemma_offline_uuid_deterministic(a: Seq<char>, b: Seq<char>)
    ensures
        a == b ==> name_uuid_v3(offline_seed(a)) == name_uuid_v3(offline_seed(b)),
        a != b ==> offline_seed(a) != offline_seed(b),
{
    if a != b && offline_seed(a) == offline_seed(b) {
        let p = encode_utf8(OFFLINE_PREFIX@);
        assert(offline_seed(a).skip(p.len() as int) =~= encode_utf8(a));
        assert(offline_seed(b).skip(p.len() as int) =~= encode_utf8(b));
        vstd::utf8::encode_utf8_decode_utf8(a);
        vstd::utf8::encode_utf8_decode_utf8(b);
    }
}

/// Bytes in which a connection sends a packet: the plain envelope, or on a
/// compressing connection the one its threshold selects.
pub open spec fn network_frame(net: PlayerNetwork, id: int, data: Seq<u8>) -> Seq<u8> {
    if net.compressing {
        outgoing_frame(id, data, net.compression_threshold)
    } else {
        plain_frame(id, data)
    }
}

/// Whether a connection can send a packet: always without compression, and
/// with it when the packet goes behind the sentinel or its deflated envelope
/// fits the length prefix.
pub open spec fn network_fits(net: PlayerNetwork, id: int, data: Seq<u8>) -> bool {
    !net.compressing || sent_plain(id, data, net.compression_threshold) || deflated_fits(id, data)
}

/// The phase a connection enters after a handshake that asked for `next`.
pub open spec fn phase_after_handshake(next: State) -> State {
    if next == State::Play {
        State::Login
    } else {
        next
    }
}

/// Phase asked for by the handshake at the front of `s` and the bytes it
/// took, or the error that ends the connection.
pub open spec fn handshake_outcome(net: PlayerNetwork, s: Seq<u8>) -> Result<(State, nat), Error> {
    match frame_parse(s, net.compressing) {
        Err(e) => Err(e),
        Ok((id, payload, n)) => match context_error(
            PacketContext { id: VarInt(id as i32), state: net.state },
            HANDSHAKE_ID,
            State::Handshaking,
        ) {
            Some(e) => Err(e),
            None => match handshake_parse(payload) {
                Err(e) => Err(envelope_error(e)),
                Ok((version, _, _, next)) => if version != PROTOCOL_VERSION {
                    Err(Error::InvalidProtocolVersion(VarInt(version as i32)))
                } else {
                    Ok((next, n))
                },
            },
        },
    }
}

/// Username and optional UUID bytes of the login start at the front of `s`,
/// and the bytes it took, or the error that ends the connection.
pub open spec fn login_outcome(net: PlayerNetwork, s: Seq<u8>) -> Result<(Seq<char>, Option<Seq<u8>>, nat), Error> {
    match frame_parse(s, net.compressing) {
        Err(e) => Err(e),
        Ok((id, payload, n)) => match context_error(
            PacketContext { id: VarInt(id as i32), state: net.state },
            LOGIN_START_ID,
            State::Login,
        ) {
            Some(e) => Err(e),
            None => match login_start_parse(payload) {
                Err(e) => Err(envelope_error(e)),
                Ok((username, uuid)) => Ok((username, uuid, n)),
            },
        },
    }
}

/// The UUID a login settles on: the client's own, or the offline one.
pub open spec fn resolved_uuid(username: Seq<char>, uuid: Option<Seq<u8>>) -> Seq<u8> {
    match uuid {
        Some(id) => id,
        None => name_uuid_v3(offline_seed(username)),
    }
}

/// Codec state of one connection: its phase, whether compression was
/// negotiated, and the threshold under which packets still go uncompressed.
#[derive(Clone, Copy, PartialEq, Eq, Debug, Structural)]
pub struct PlayerNetwork {
    pub compressing: bool,
    pub state: State,
    pub compression_threshold: Option<usize>,
}

/// A player that completed the login.
#[derive(Debug)]
pub struct ServerPlayer {
    pub network: PlayerNetwork,
    pub name: String,
    pub uuid: Uuid,
}

impl PlayerNetwork {
    /// A freshly accepted connection: handshaking, not compressing.
    pub fn new(compression_threshold: Option<usize>) -> (r: PlayerNetwork)
        ensures
            r.state == State::Handshaking,
            !r.compressing,
            r.compression_threshold == compression_threshold,
    {
        PlayerNetwork { compressing: false, state: State::Handshaking, compression_threshold }
    }

    /// Reads the envelope at `pos` as this connection frames it, and pairs
    /// its id with the current phase.
    pub fn recv_packet(&self, buf: &[u8], pos: usize) -> (r: Result<(PacketContext, Vec<u8>, usize), Error>)
        requires
            pos <= buf@.len(),
        ensures
            match (r, frame_parse(buf@.skip(pos as int), self.compressing)) {
                (Ok((cx, payload, end)), Ok((id, data, n))) => cx.id.0 == id && cx.state == self.state
                    && payload@ == data && end == pos + n,
                (Err(e), Err(expected)) => e == expected,
                _ => false,
            },
    {
        SerializedPacket::read_packet(buf, pos, self.compressing, self.state)
    }

    /// Appends the envelope of a packet as this connection frames it. It
    /// fails only when a deflated envelope is too long to announce, and then
    /// nothing is written.
    pub fn send_packet(&self, id: VarInt, payload: Vec<u8>, out: &mut Vec<u8>) -> (r: Result<(), Error>)
        requires
            id_payload_bytes(id.0 as int, payload@).len() < i32::MAX,
        ensures
            r is Ok ==> final(out)@ == old(out)@ + network_frame(*self, id.0 as int, payload@),
            r is Err ==> final(out)@ == old(out)@ && r->Err_0 is PacketTooLarge,
            r is Ok <==> network_fits(*self, id.0 as int, payload@),
    {
        let data = PacketData { packet_id: id, data: payload };
        let packet = if self.compressing {
            SerializedPacket::Compressed(Zlib(data))
        } else {
            SerializedPacket::Uncompressed(data)
        };
        packet.write_to(out, self.compression_threshold)
    }

    /// Reads the handshake at `pos`. A client of another protocol version is
    /// refused; otherwise the connection moves to `Status`, or to `Login`
    /// when it asked for `Play`. On failure the phase is left as it was.
    pub fn handshake(&mut self, buf: &[u8], pos: usize) -> (r: Result<(State, usize), Error>)
        requires
            pos <= buf@.len(),
        ensures
            match (r, handshake_outcome(*old(self), buf@.skip(pos as int))) {
                (Ok((next, end)), Ok((expected, n))) => next == expected && end == pos + n
                    && final(self).state == phase_after_handshake(next)
                    && final(self).compressing == old(self).compressing
                    && final(self).compression_threshold == old(self).compression_threshold,
                (Err(e), Err(expected)) => e == expected && *final(self) == *old(self),
                _ => false,
            },
    {
        let (context, payload, end) = match self.recv_packet(buf, pos) {
            Ok(v) => v,
            Err(e) => return Err(e),
        };
        let handshake = match Handshake::read_with_context(payload.as_slice(), &context) {
            Ok(h) => h,
            Err(e) => return Err(e.in_envelope()),
        };
        if handshake.protocol_version.0 != PROTOCOL_VERSION {
            return Err(Error::InvalidProtocolVersion(handshake.protocol_version));
        }
        self.state = if handshake.next_state == State::Play {
            State::Login
        } else {
            handshake.next_state
        };
        Ok((handshake.next_state, end))
    }

    /// Reads the login start at `pos`, settles the player's UUID (the
    /// offline one when the client sent none), appends the login success
    /// answer to `out` and moves the connection to `Play`.
    pub fn login(self, buf: &[u8], pos: usize, out: &mut Vec<u8>) -> (r: Result<(ServerPlayer, usize), Error>)
        requires
            pos <= buf@.len(),
        ensures
            match (r, login_outcome(self, buf@.skip(pos as int))) {
                (Ok((player, end)), Ok((username, uuid, n))) => player.name@ == username
                    && player.uuid.bytes@ == resolved_uuid(username, uuid) && end == pos + n
                    && player.network.state == State::Play
                    && player.network.compressing == self.compressing
                    && player.network.compression_threshold == self.compression_threshold
                    && final(out)@ == old(out)@ + network_frame(
                        self,
                        LOGIN_SUCCESS_ID as int,
                        login_success_bytes(player.uuid.bytes@, username, Seq::empty()),
                    ),
                (Err(e), Ok((username, uuid, _))) => final(out)@ == old(out)@ && e is PacketTooLarge
                    && !network_fits(
                    self,
                    LOGIN_SUCCESS_ID as int,
                    login_success_bytes(resolved_uuid(username, uuid), username, Seq::empty()),
                ),
                (Err(e), Err(expected)) => e == expected && final(out)@ == old(out)@,
                _ => false,
            },
    {
        let (context, payload, end) = match self.recv_packet(buf, pos) {
            Ok(v) => v,
            Err(e) => return Err(e),
        };
        let start = match LoginStart::read_with_context(payload.as_slice(), &context) {
            Ok(p) => p,
            Err(e) => return Err(e.in_envelope()),
        };
        let uuid = match start.uuid {
            Some(id) => id,
            None => offline_uuid(start.username.as_str()),
        };
        proof {
            lemma_username_fits(payload@);
        }
        let answer = LoginSuccess { uuid, username: start.username, properties: Vec::new() };
        let mut body: Vec<u8> = Vec::new();
        answer.write_to(&mut body);
        match self.send_packet(LoginSuccess::id(), body, out) {
            Ok(()) => {},
            Err(e) => return Err(e),
        }
        let network = PlayerNetwork { state: State::Play, ..self };
        Ok((ServerPlayer { network, name: answer.username, uuid }, end))
    }
}

/// Two logins without a client UUID under the same username settle on the
/// same UUID, and a connection without compression always gets its answer
/// out.
pub proof fn lemma_login_uuid_deterministic(net1: PlayerNetwork, s1: Seq<u8>, net2: PlayerNetwork, s2: Seq<u8>)
    requires
        login_outcome(net1, s1) matches Ok((u1, None, _)),
        login_outcome(net2, s2) matches Ok((u2, None, _)),
        login_outcome(net1, s1)->Ok_0.0 == login_outcome(net2, s2)->Ok_0.0,
    ensures
        resolved_uuid(login_outcome(net1, s1)->Ok_0.0, None) == resolved_uuid(
            login_outcome(net2, s2)->Ok_0.0,
            None,
        ),
        forall|id: int, data: Seq<u8>| !net1.compressing ==> network_fits(net1, id, data),
{
}

/// A username that reads back encodes in at most the limit's bytes.
proof fn lemma_username_fits(s: Seq<u8>)
    ensures
        login_start_parse(s) matches Ok((username, _)) ==> encode_utf8(username).len() <= 16,
{
    if let Ok((username, _)) = login_start_parse(s) {
        if let Some((n, l)) = crate::varint::varint_parse(s) {
            let b = s.subrange(l as int, l + n);
            vstd::utf8::decode_utf8_encode_utf8(b);
        }
    }
}

} // verus!
