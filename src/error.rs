use vstd::prelude::*;

use crate::packets::State;
use crate::varint::VarInt;

verus! {

/// An enumerated field of the wire format.
#[derive(Clone, Copy, PartialEq, Eq, Debug, Structural)]
pub enum WireEnum {
    /// A boolean byte.
    Bool,
    /// The phase a handshake asks for.
    NextState,
}

pub open spec fn accepted_values_of(field: WireEnum) -> Seq<i32> {
    match field {
        WireEnum::Bool => seq![0i32, 1],
        WireEnum::NextState => seq![1i32, 2],
    }
}

impl WireEnum {
    /// The values the field accepts on the wire.
    pub fn accepted_values(&self) -> (r: Vec<i32>)
        ensures
            r@ == accepted_values_of(*self),
    {
        match self {
            WireEnum::Bool => vec![0i32, 1],
            WireEnum::NextState => vec![1i32, 2],
        }
    }
}

/// Every way in which decoding, encoding or a phase transition can fail.
#[derive(Clone, Copy, PartialEq, Eq, Debug, Structural)]
pub enum Error {
    /// The input ended before the value was complete.
    UnexpectedEof,
    /// A complete envelope whose content ends before the packet does.
    TruncatedPacket,
    /// Bytes that are not UTF-8, a negative length, or a decompressed body of
    /// another size than announced.
    InvalidData,
    /// A deflated body that is not a zlib stream.
    Compression,
    /// A deflated packet too long for its length prefix.
    PacketTooLarge { length: usize },
    /// A variable-length integer with too many groups or out of range.
    MalformedVarInt,
    /// The envelope's id or phase is not the one the packet type declares.
    InvalidIdState { id: VarInt, state: State, expected_id: VarInt, expected_state: State },
    /// A string whose declared byte length exceeds the caller's limit.
    StringTooLarge { length: usize, limit: usize },
    /// An enumerated wire value outside the ones `field` accepts.
    BadEnumValue { field: WireEnum, got: i32 },
    /// A handshake can ask only for `Status` or `Play`.
    UnencodableState(State),
    /// The client speaks another protocol version.
    InvalidProtocolVersion(VarInt),
}

/// The error reported for a failure inside a complete envelope: running out
/// of bytes there is no reason to wait for more.
pub open spec fn envelope_error(e: Error) -> Error {
    if e is UnexpectedEof {
        Error::TruncatedPacket
    } else {
        e
    }
}

impl Error {
    /// This error, met inside a complete envelope.
    pub fn in_envelope(self) -> (r: Error)
        ensures
            r == envelope_error(self),
    {
        match self {
            Error::UnexpectedEof => Error::TruncatedPacket,
            other => other,
        }
    }
}

} // verus!
