use vstd::prelude::*;
use vstd::utf8::encode_utf8;

use crate::codec::{
    bool_parse, option_uuid_bytes, option_uuid_parse, read_bool, read_option_uuid,
    read_string_limit, read_u16, read_uuid, string_bytes, string_parse, u16_bytes, u16_parse,
    write_option_uuid, write_string, write_u16, write_uuid, Uuid,
};
use crate::error::{Error, WireEnum};
use crate::packets::{varint_error, PacketContext, State};
use crate::varint::{varint_bytes, varint_parse, VarInt};

verus! {

/// Longest server address a handshake may carry, in bytes.
pub const MAX_ADDRESS_LEN: usize = 256;

/// Longest username, in bytes.
pub const MAX_USERNAME_LEN: usize = 16;

/// Longest property name, value or signature, in bytes: what a length
/// prefix can announce.
pub const MAX_PROPERTY_LEN: usize = 2147483647;

pub const HANDSHAKE_ID: i32 = 0x00;

pub const LOGIN_START_ID: i32 = 0x00;

pub const LOGIN_SUCCESS_ID: i32 = 0x02;

/// The mismatch error for a packet of id `expected_id` and phase
/// `expected_state` met with `context`, if there is a mismatch.
pub open spec fn context_error(context: PacketContext, expected_id: i32, expected_state: State) -> Option<Error> {
    if context.id.0 != expected_id || context.state != expected_state {
        Some(
            Error::InvalidIdState {
                id: context.id,
                state: context.state,
                expected_id: VarInt(expected_id),
                expected_state,
            },
        )
    } else {
        None
    }
}

/// Checks that an envelope's id and phase are the ones a packet type
/// declares, reporting both pairs when they are not.
pub fn check_context(context: &PacketContext, expected_id: i32, expected_state: State) -> (r: Result<(), Error>)
    ensures
        match context_error(*context, expected_id, expected_state) {
            Some(e) => r == Err::<(), Error>(e),
            None => r is Ok,
        },
{
    if context.id.0 != expected_id || context.state != expected_state {
        Err(
            Error::InvalidIdState {
                id: context.id,
                state: context.state,
                expected_id: VarInt(expected_id),
                expected_state,
            },
        )
    } else {
        Ok(())
    }
}

/// Wire value of the phase a handshake asks for.
pub open spec fn next_state_wire(state: State) -> Option<int> {
    match state {
        State::Status => Some(1),
        State::Play => Some(2),
        _ => None,
    }
}

/// First packet of every connection: the client's protocol version, the
/// address and port it dialled, and the phase it asks for next.
#[derive(Debug)]
pub struct Handshake {
    pub protocol_version: VarInt,
    pub address: String,
    pub port: u16,
    pub next_state: State,
}

pub open spec fn handshake_bytes(version: int, address: Seq<char>, port: u16, next: int) -> Seq<u8> {
    varint_bytes(version) + string_bytes(address) + u16_bytes(port) + varint_bytes(next)
}

/// Fields of a handshake payload, or the error that reading it reports.
pub open spec fn handshake_parse(s: Seq<u8>) -> Result<(int, Seq<char>, u16, State), Error> {
    match varint_parse(s) {
        None => Err(varint_error(s)),
        Some((version, a)) => match string_parse(s.skip(a as int), MAX_ADDRESS_LEN) {
            Err(e) => Err(e),
            Ok((address, b)) => match u16_parse(s.skip((a + b) as int)) {
                Err(e) => Err(e),
                Ok((port, c)) => {
                    let t = s.skip((a + b + c) as int);
                    match varint_parse(t) {
                        None => Err(varint_error(t)),
                        Some((next, _)) => if next == 1 {
                            Ok((version, address, port, State::Status))
                        } else if next == 2 {
                            Ok((version, address, port, State::Play))
                        } else {
                            Err(Error::BadEnumValue { field: WireEnum::NextState, got: next as i32 })
                        },
                    }
                },
            },
        },
    }
}

impl Handshake {
    pub fn id() -> (r: VarInt)
        ensures
            r.0 == HANDSHAKE_ID,
    {
        VarInt(HANDSHAKE_ID)
    }

    pub fn state() -> (r: State)
        ensures
            r == State::Handshaking,
    {
        State::Handshaking
    }

    /// Decodes a handshake payload, after checking the envelope's id and
    /// phase.
    pub fn read_with_context(payload: &[u8], context: &PacketContext) -> (r: Result<Handshake, Error>)
        ensures
            match context_error(*context, HANDSHAKE_ID, State::Handshaking) {
                Some(e) => r matches Err(f) && f == e,
                None => match (r, handshake_parse(payload@)) {
                    (Ok(h), Ok((version, address, port, next))) => h.protocol_version.0 == version
                        && h.address@ == address && h.port == port && h.next_state == next,
                    (Err(e), Err(expected)) => e == expected,
                    _ => false,
                },
            },
    {
        match check_context(context, HANDSHAKE_ID, State::Handshaking) {
            Ok(()) => {},
            Err(e) => return Err(e),
        }
        let ghost s = payload@;
        assert(s.skip(0) =~= s);
        let (protocol_version, a) = match VarInt::read_from(payload, 0) {
            Ok(v) => v,
            Err(e) => return Err(e),
        };
        let (address, b) = match read_string_limit(payload, a, MAX_ADDRESS_LEN) {
            Ok(v) => v,
            Err(e) => return Err(e),
        };
        assert(s.skip(a as int).skip(b - a) =~= s.skip(b as int));
        let (port, c) = match read_u16(payload, b) {
            Ok(v) => v,
            Err(e) => return Err(e),
        };
        assert(s.skip(a as int).skip(b - a).skip(c - b) =~= s.skip(c as int));
        let (next, _) = match VarInt::read_from(payload, c) {
            Ok(v) => v,
            Err(e) => return Err(e),
        };
        let next_state = if next.0 == 1 {
            State::Status
        } else if next.0 == 2 {
            State::Play
        } else {
            return Err(Error::BadEnumValue { field: WireEnum::NextState, got: next.0 });
        };
        Ok(Handshake { protocol_version, address, port, next_state })
    }

    /// Appends the payload; only `Status` and `Play` can be asked for.
    pub fn write_to(&self, out: &mut Vec<u8>) -> (r: Result<(), Error>)
        requires
            encode_utf8(self.address@).len() <= i32::MAX,
        ensures
            match next_state_wire(self.next_state) {
                Some(next) => r is Ok && final(out)@ == old(out)@ + handshake_bytes(
                    self.protocol_version.0 as int,
                    self.address@,
                    self.port,
                    next,
                ),
                None => r == Err::<(), Error>(Error::UnencodableState(self.next_state)) && final(out)@
                    == old(out)@,
            },
    {
        let next: i32 = match self.next_state {
            State::Status => 1,
            State::Play => 2,
            other => return Err(Error::UnencodableState(other)),
        };
        self.protocol_version.write_to(out);
        write_string(self.address.as_str(), out);
        write_u16(self.port, out);
        VarInt(next).write_to(out);
        assert(out@ =~= old(out)@ + handshake_bytes(
            self.protocol_version.0 as int,
            self.address@,
            self.port,
            next as int,
        ));
        Ok(())
    }
}

/// A client's first login packet: its name, and its UUID if it has one.
#[derive(Debug)]
pub struct LoginStart {
    pub username: String,
    pub uuid: Option<Uuid>,
}

pub open spec fn login_start_bytes(username: Seq<char>, uuid: Option<Uuid>) -> Seq<u8> {
    string_bytes(username) + option_uuid_bytes(uuid)
}

/// Fields of a login start payload, the UUID as its bytes, or the error
/// that reading it reports.
pub open spec fn login_start_parse(s: Seq<u8>) -> Result<(Seq<char>, Option<Seq<u8>>), Error> {
    match string_parse(s, MAX_USERNAME_LEN) {
        Err(e) => Err(e),
        Ok((username, a)) => match option_uuid_parse(s.skip(a as int)) {
            Err(e) => Err(e),
            Ok((uuid, _)) => Ok((username, uuid)),
        },
    }
}

impl LoginStart {
    pub fn id() -> (r: VarInt)
        ensures
            r.0 == LOGIN_START_ID,
    {
        VarInt(LOGIN_START_ID)
    }

    pub fn state() -> (r: State)
        ensures
            r == State::Login,
    {
        State::Login
    }

    /// Decodes a login start payload, after checking the envelope's id and
    /// phase.
    pub fn read_with_context(payload: &[u8], context: &PacketContext) -> (r: Result<LoginStart, Error>)
        ensures
            match context_error(*context, LOGIN_START_ID, State::Login) {
                Some(e) => r matches Err(f) && f == e,
                None => match (r, login_start_parse(payload@)) {
                    (Ok(p), Ok((username, None))) => p.username@ == username && p.uuid is None,
                    (Ok(p), Ok((username, Some(id)))) => p.username@ == username && (p.uuid matches Some(u)
                        && u.bytes@ == id),
                    (Err(e), Err(expected)) => e == expected,
                    _ => false,
                },
            },
    {
        match check_context(context, LOGIN_START_ID, State::Login) {
            Ok(()) => {},
            Err(e) => return Err(e),
        }
        let ghost s = payload@;
        assert(s.skip(0) =~= s);
        let (username, a) = match read_string_limit(payload, 0, MAX_USERNAME_LEN) {
            Ok(v) => v,
            Err(e) => return Err(e),
        };
        let (uuid, _) = match read_option_uuid(payload, a) {
            Ok(v) => v,
            Err(e) => return Err(e),
        };
        Ok(LoginStart { username, uuid })
    }

    /// Appends the payload.
    pub fn write_to(&self, out: &mut Vec<u8>)
        requires
            encode_utf8(self.username@).len() <= i32::MAX,
        ensures
            final(out)@ == old(out)@ + login_start_bytes(self.username@, self.uuid),
    {
        write_string(self.username.as_str(), out);
        write_option_uuid(&self.uuid, out);
        assert(out@ =~= old(out)@ + login_start_bytes(self.username@, self.uuid));
    }
}

/// A signed entry of a player's profile.
#[derive(Debug)]
pub struct Property {
    pub name: String,
    pub value: String,
    pub signature: Option<String>,
}

pub open spec fn property_bytes(p: Property) -> Seq<u8> {
    string_bytes(p.name@) + string_bytes(p.value@) + match p.signature {
        Some(sig) => seq![1u8] + string_bytes(sig@),
        None => seq![0u8],
    }
}

pub open spec fn properties_bytes(ps: Seq<Property>) -> Seq<u8>
    decreases ps.len(),
{
    if ps.len() == 0 {
        Seq::empty()
    } else {
        properties_bytes(ps.drop_last()) + property_bytes(ps.last())
    }
}

/// Every string of the property fits its length prefix.
pub open spec fn property_fits(p: Property) -> bool {
    &&& encode_utf8(p.name@).len() <= i32::MAX
    &&& encode_utf8(p.value@).len() <= i32::MAX
    &&& p.signature matches Some(sig) ==> encode_utf8(sig@).len() <= i32::MAX
}

/// Name, value and optional signature of a property.
pub type PropertyView = (Seq<char>, Seq<char>, Option<Seq<char>>);

pub open spec fn property_view(p: Property) -> PropertyView {
    (p.name@, p.value@, match p.signature {
        Some(sig) => Some(sig@),
        None => None,
    })
}

pub open spec fn properties_view(ps: Seq<Property>) -> Seq<PropertyView> {
    ps.map_values(|p: Property| property_view(p))
}

/// The property at the front of `s` and the bytes it took, or the error
/// that reading it reports.
#[verifier::opaque]
pub open spec fn property_parse(s: Seq<u8>) -> Result<(PropertyView, nat), Error> {
    match string_parse(s, MAX_PROPERTY_LEN) {
        Err(e) => Err(e),
        Ok((name, a)) => match string_parse(s.skip(a as int), MAX_PROPERTY_LEN) {
            Err(e) => Err(e),
            Ok((value, b)) => {
                let t = s.skip((a + b) as int);
                match bool_parse(t) {
                    Err(e) => Err(e),
                    Ok((false, c)) => Ok(((name, value, None), a + b + c)),
                    Ok((true, c)) => match string_parse(t.skip(c as int), MAX_PROPERTY_LEN) {
                        Err(e) => Err(e),
                        Ok((sig, d)) => Ok(((name, value, Some(sig)), a + b + c + d)),
                    },
                }
            },
        },
    }
}

/// Prepends what was already read to the outcome of reading the rest.
pub open spec fn chain_parsed(
    done: Seq<PropertyView>,
    consumed: nat,
    rest: Result<(Seq<PropertyView>, nat), Error>,
) -> Result<(Seq<PropertyView>, nat), Error> {
    match rest {
        Ok((ps, n)) => Ok((done + ps, consumed + n)),
        Err(e) => Err(e),
    }
}

/// `count` properties read one after another from the front of `s`.
#[verifier::opaque]
pub open spec fn properties_parse(s: Seq<u8>, count: nat) -> Result<(Seq<PropertyView>, nat), Error>
    decreases count,
{
    if count == 0 {
        Ok((Seq::empty(), 0))
    } else {
        match property_parse(s) {
            Err(e) => Err(e),
            Ok((p, n)) => chain_parsed(seq![p], n, properties_parse(s.skip(n as int), (count - 1) as nat)),
        }
    }
}

/// Reading one more property moves it from the outcome of the rest to what
/// was already read.
proof fn lemma_properties_step(s: Seq<u8>, k: nat, done: Seq<Property>, consumed: nat, p: Property, n: nat)
    requires
        k > 0,
        property_parse(s) == Ok::<(PropertyView, nat), Error>((property_view(p), n)),
    ensures
        chain_parsed(properties_view(done), consumed, properties_parse(s, k)) == chain_parsed(
            properties_view(done.push(p)),
            consumed + n,
            properties_parse(s.skip(n as int), (k - 1) as nat),
        ),
{
    reveal(properties_parse);
    assert(properties_view(done.push(p)) =~= properties_view(done) + seq![property_view(p)]);
    match properties_parse(s.skip(n as int), (k - 1) as nat) {
        Ok((ps, m)) => {
            assert(properties_view(done) + (seq![property_view(p)] + ps) =~= properties_view(done.push(p)) + ps);
        },
        Err(_) => {},
    }
}

/// Reading stops at the first property that cannot be read.
proof fn lemma_properties_fail(s: Seq<u8>, k: nat)
    requires
        k > 0,
        property_parse(s) is Err,
    ensures
        properties_parse(s, k) == Err::<(Seq<PropertyView>, nat), Error>(property_parse(s)->Err_0),
{
    reveal(properties_parse);
}

proof fn lemma_properties_none(s: Seq<u8>)
    ensures
        properties_parse(s, 0) == Ok::<(Seq<PropertyView>, nat), Error>((Seq::empty(), 0)),
{
    reveal(properties_parse);
}

impl Property {
    /// Reads a property at `pos`.
    pub fn read_from(buf: &[u8], pos: usize) -> (r: Result<(Property, usize), Error>)
        requires
            pos <= buf@.len(),
        ensures
            match (r, property_parse(buf@.skip(pos as int))) {
                (Ok((p, end)), Ok((view, n))) => property_view(p) == view && end == pos + n,
                (Err(e), Err(expected)) => e == expected,
                _ => false,
            },
            r matches Ok((_, end)) ==> pos <= end <= buf@.len(),
    {
        let ghost s = buf@.skip(pos as int);
        proof {
            reveal(property_parse);
        }
        let (name, a) = match read_string_limit(buf, pos, MAX_PROPERTY_LEN) {
            Ok(v) => v,
            Err(e) => return Err(e),
        };
        assert(s.skip(a - pos) =~= buf@.skip(a as int));
        let (value, b) = match read_string_limit(buf, a, MAX_PROPERTY_LEN) {
            Ok(v) => v,
            Err(e) => return Err(e),
        };
        assert(s.skip(b - pos) =~= buf@.skip(b as int));
        let (signed, c) = match read_bool(buf, b) {
            Ok(v) => v,
            Err(e) => return Err(e),
        };
        if !signed {
            return Ok((Property { name, value, signature: None }, c));
        }
        assert(s.skip(b - pos).skip(c - b) =~= buf@.skip(c as int));
        let (sig, d) = match read_string_limit(buf, c, MAX_PROPERTY_LEN) {
            Ok(v) => v,
            Err(e) => return Err(e),
        };
        Ok((Property { name, value, signature: Some(sig) }, d))
    }

    /// Appends the name, the value and the optional signature.
    pub fn write_to(&self, out: &mut Vec<u8>)
        requires
            property_fits(*self),
        ensures
            final(out)@ == old(out)@ + property_bytes(*self),
    {
        write_string(self.name.as_str(), out);
        write_string(self.value.as_str(), out);
        match &self.signature {
            Some(sig) => {
                out.push(1u8);
                write_string(sig.as_str(), out);
            },
            None => out.push(0u8),
        }
        assert(out@ =~= old(out)@ + property_bytes(*self));
    }
}

/// The server's answer to a successful login: the identity it settled on,
/// and the profile's properties.
#[derive(Debug)]
pub struct LoginSuccess {
    pub uuid: Uuid,
    pub username: String,
    pub properties: Vec<Property>,
}

pub open spec fn login_success_bytes(uuid: Seq<u8>, username: Seq<char>, properties: Seq<Property>) -> Seq<u8> {
    uuid + string_bytes(username) + varint_bytes(properties.len() as int) + properties_bytes(properties)
}

/// UUID bytes, username and properties of a login success payload, or the
/// error that reading it reports.
pub open spec fn login_success_parse(s: Seq<u8>) -> Result<(Seq<u8>, Seq<char>, Seq<PropertyView>), Error> {
    if s.len() < 16 {
        Err(Error::UnexpectedEof)
    } else {
        let t = s.skip(16);
        match string_parse(t, MAX_USERNAME_LEN) {
            Err(e) => Err(e),
            Ok((username, a)) => {
                let u = t.skip(a as int);
                match varint_parse(u) {
                    None => Err(varint_error(u)),
                    Some((count, b)) => if count < 0 {
                        Err(Error::InvalidData)
                    } else {
                        match properties_parse(u.skip(b as int), count as nat) {
                            Err(e) => Err(e),
                            Ok((ps, _)) => Ok((s.take(16), username, ps)),
                        }
                    },
                }
            },
        }
    }
}

impl LoginSuccess {
    /// Decodes a login success payload, after checking the envelope's id
    /// and phase.
    pub fn read_with_context(payload: &[u8], context: &PacketContext) -> (r: Result<LoginSuccess, Error>)
        ensures
            match context_error(*context, LOGIN_SUCCESS_ID, State::Login) {
                Some(e) => r matches Err(f) && f == e,
                None => match (r, login_success_parse(payload@)) {
                    (Ok(p), Ok((uuid, username, properties))) => p.uuid.bytes@ == uuid && p.username@
                        == username && properties_view(p.properties@) == properties,
                    (Err(e), Err(expected)) => e == expected,
                    _ => false,
                },
            },
    {
        match check_context(context, LOGIN_SUCCESS_ID, State::Login) {
            Ok(()) => {},
            Err(e) => return Err(e),
        }
        let ghost s = payload@;
        assert(s.skip(0) =~= s);
        let (uuid, a) = match read_uuid(payload, 0) {
            Ok(v) => v,
            Err(e) => return Err(e),
        };
        let (username, b) = match read_string_limit(payload, a, MAX_USERNAME_LEN) {
            Ok(v) => v,
            Err(e) => return Err(e),
        };
        assert(s.skip(16).skip(b - 16) =~= payload@.skip(b as int));
        let (count, c) = match VarInt::read_from(payload, b) {
            Ok(v) => v,
            Err(e) => return Err(e),
        };
        if count.0 < 0 {
            return Err(Error::InvalidData);
        }
        let ghost start = c;
        let ghost total = count.0 as nat;
        assert(payload@.skip(b as int).skip(c - b) =~= payload@.skip(c as int));
        assert(uuid.bytes@ =~= payload@.take(16));
        assert(login_success_parse(payload@) == match properties_parse(payload@.skip(start as int), total) {
            Err(e) => Err(e),
            Ok((ps, _)) => Ok((uuid.bytes@, username@, ps)),
        });
        let mut properties: Vec<Property> = Vec::new();
        let mut at: usize = c;
        let mut i: i32 = 0;
        while i < count.0
            invariant
                0 <= i <= count.0,
                total == count.0,
                start <= at <= payload@.len(),
                context_error(*context, LOGIN_SUCCESS_ID, State::Login) is None,
                login_success_parse(payload@) == match properties_parse(payload@.skip(start as int), total) {
                    Err(e) => Err(e),
                    Ok((ps, _)) => Ok((uuid.bytes@, username@, ps)),
                },
                properties_parse(payload@.skip(start as int), total) == chain_parsed(
                    properties_view(properties@),
                    (at - start) as nat,
                    properties_parse(payload@.skip(at as int), (total - i) as nat),
                ),
            decreases count.0 - i,
        {
            let ghost before = properties@;
            let (p, next) = match Property::read_from(payload, at) {
                Ok(v) => v,
                Err(e) => {
                    proof {
                        lemma_properties_fail(payload@.skip(at as int), (total - i) as nat);
                    }
                    return Err(e);
                },
            };
            proof {
                let rest = payload@.skip(at as int);
                assert(rest.skip(next - at) =~= payload@.skip(next as int));
                lemma_properties_step(rest, (total - i) as nat, before, (at - start) as nat, p, (next - at) as nat);
            }
            properties.push(p);
            at = next;
            i += 1;
        }
        proof {
            lemma_properties_none(payload@.skip(at as int));
            assert(properties_view(properties@) + Seq::empty() =~= properties_view(properties@));
        }
        Ok(LoginSuccess { uuid, username, properties })
    }

    pub fn id() -> (r: VarInt)
        ensures
            r.0 == LOGIN_SUCCESS_ID,
    {
        VarInt(LOGIN_SUCCESS_ID)
    }

    pub fn state() -> (r: State)
        ensures
            r == State::Login,
    {
        State::Login
    }

    /// Appends the payload: the UUID, the username, the number of
    /// properties and each of them.
    pub fn write_to(&self, out: &mut Vec<u8>)
        requires
            encode_utf8(self.username@).len() <= i32::MAX,
            self.properties@.len() <= i32::MAX,
            forall|i: int| 0 <= i < self.properties@.len() ==> property_fits(#[trigger] self.properties@[i]),
        ensures
            final(out)@ == old(out)@ + login_success_bytes(self.uuid.bytes@, self.username@, self.properties@),
    {
        write_uuid(&self.uuid, out);
        write_string(self.username.as_str(), out);
        VarInt::usize(self.properties.len()).write_to(out);
        let ghost start = out@;
        let mut i: usize = 0;
        while i < self.properties.len()
            invariant
                i <= self.properties@.len(),
                forall|j: int| 0 <= j < self.properties@.len() ==> property_fits(#[trigger] self.properties@[j]),
                out@ == start + properties_bytes(self.properties@.take(i as int)),
            decreases self.properties@.len() - i,
        {
            self.properties[i].write_to(out);
            proof {
                let taken = self.properties@.take(i + 1);
                assert(taken.drop_last() =~= self.properties@.take(i as int));
            }
            i += 1;
        }
        assert(self.properties@.take(i as int) =~= self.properties@);
        assert(out@ =~= old(out)@ + login_success_bytes(self.uuid.bytes@, self.username@, self.properties@));
    }
}

/// Game mode of a player.
#[derive(Clone, Copy, PartialEq, Eq, PartialOrd, Ord, Debug)]
pub enum Gamemode {
    Survival,
    Creative,
    Adventure,
    Spectator,
}

/// First packet of the play phase.
#[derive(Debug)]
pub struct LoginPlay {
    pub entity_id: i32,
    pub is_hardcore: bool,
    pub game_mode: Gamemode,
}

} // verus!
