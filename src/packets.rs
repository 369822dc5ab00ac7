use vstd::prelude::*;

use crate::codec::{append_bytes, copy_range};
use crate::compression::{zlib_compress, zlib_compressed, zlib_decompress, zlib_inflated, Zlib};
use crate::error::{envelope_error, Error};
use crate::varint::{
    lemma_varint_codec_round_trip, varint_bytes, varint_parse, varint_truncated, VarInt,
};

verus! {

/// Connection phase; every packet type is legal in exactly one of them.
#[derive(Clone, Copy, PartialEq, Eq, Debug, Structural)]
pub enum State {
    Handshaking,
    Status,
    Login,
    Play,
}

/// Identity of an incoming packet, taken from its envelope before its type is
/// known: the id it carries and the phase the connection is in.
#[derive(Clone, Copy, PartialEq, Eq, Debug, Structural)]
pub struct PacketContext {
    pub id: VarInt,
    pub state: State,
}

/// A packet id with the raw bytes of its payload.
#[derive(Debug)]
pub struct PacketData {
    pub packet_id: VarInt,
    pub data: Vec<u8>,
}

/// What goes on the wire for one packet.
pub enum SerializedPacket {
    Uncompressed(PacketData),
    Compressed(Zlib<PacketData>),
}

/// The id as a variable-length integer, then the payload.
pub open spec fn id_payload_bytes(id: int, data: Seq<u8>) -> Seq<u8> {
    varint_bytes(id) + data
}

/// Envelope of a connection without compression.
pub open spec fn plain_frame(id: int, data: Seq<u8>) -> Seq<u8> {
    let body = id_payload_bytes(id, data);
    varint_bytes(body.len() as int) + body
}

/// Envelope of a compressing connection for a packet sent as it is: the
/// data length is the zero sentinel.
pub open spec fn sentinel_frame(id: int, data: Seq<u8>) -> Seq<u8> {
    let body = id_payload_bytes(id, data);
    varint_bytes(body.len() + 1int) + varint_bytes(0) + body
}

/// Envelope of a compressing connection for a packet sent deflated.
pub open spec fn compressed_frame(id: int, data: Seq<u8>) -> Seq<u8> {
    let body = id_payload_bytes(id, data);
    let z = zlib_compressed(body);
    let data_length = varint_bytes(body.len() as int);
    varint_bytes((data_length.len() + z.len()) as int) + data_length + z
}

/// The error reported for bytes that hold no well-formed integer.
pub open spec fn varint_error(s: Seq<u8>) -> Error {
    if varint_truncated(s) {
        Error::UnexpectedEof
    } else {
        Error::MalformedVarInt
    }
}

/// Id and payload of a packet body that holds exactly those.
pub open spec fn id_payload_parse(body: Seq<u8>) -> Result<(int, Seq<u8>), Error> {
    match varint_parse(body) {
        None => Err(varint_error(body)),
        Some((id, l)) => Ok((id, body.skip(l as int))),
    }
}

/// Id and payload held by the content of an envelope, after its outer length.
pub open spec fn content_parse(c: Seq<u8>, compressing: bool) -> Result<(int, Seq<u8>), Error> {
    if !compressing {
        id_payload_parse(c)
    } else {
        match varint_parse(c) {
            None => Err(varint_error(c)),
            Some((data_length, l)) => if data_length == 0 {
                id_payload_parse(c.skip(l as int))
            } else {
                match zlib_inflated(c.skip(l as int)) {
                    None => Err(Error::Compression),
                    Some(body) => if body.len() != data_length {
                        Err(Error::InvalidData)
                    } else {
                        id_payload_parse(body)
                    },
                }
            },
        }
    }
}

/// Id, payload and byte count of the envelope at the front of `s`, or the
/// error that reading it reports.
pub open spec fn frame_parse(s: Seq<u8>, compressing: bool) -> Result<(int, Seq<u8>, nat), Error> {
    match varint_parse(s) {
        None => Err(varint_error(s)),
        Some((len, l)) => if len < 0 {
            Err(Error::InvalidData)
        } else if l + len > s.len() {
            Err(Error::UnexpectedEof)
        } else {
            match content_parse(s.subrange(l as int, l + len), compressing) {
                Ok((id, data)) => Ok((id, data, (l + len) as nat)),
                Err(e) => Err(envelope_error(e)),
            }
        },
    }
}

/// Whether the content of an envelope holds a deflated packet: on a
/// compressing connection, a data length other than the zero sentinel.
pub open spec fn content_deflated(c: Seq<u8>, compressing: bool) -> bool {
    compressing && (varint_parse(c) matches Some((data_length, _)) && data_length != 0)
}

/// Whether the envelope at the front of `s` holds a deflated packet.
pub open spec fn frame_deflated(s: Seq<u8>, compressing: bool) -> bool {
    match varint_parse(s) {
        Some((len, l)) => content_deflated(s.subrange(l as int, l + len), compressing),
        None => false,
    }
}

/// A packet below the threshold goes out behind the zero sentinel.
pub open spec fn sent_plain(id: int, data: Seq<u8>, threshold: Option<usize>) -> bool {
    threshold matches Some(t) && id_payload_bytes(id, data).len() < t
}

/// The deflated envelope's length fits its `i32` prefix.
pub open spec fn deflated_fits(id: int, data: Seq<u8>) -> bool {
    let body = id_payload_bytes(id, data);
    varint_bytes(body.len() as int).len() + zlib_compressed(body).len() <= i32::MAX
}

/// The bytes in which a packet leaves, given the connection's threshold.
pub open spec fn outgoing_frame(id: int, data: Seq<u8>, threshold: Option<usize>) -> Seq<u8> {
    match threshold {
        Some(t) if id_payload_bytes(id, data).len() < t => sentinel_frame(id, data),
        _ => compressed_frame(id, data),
    }
}

proof fn lemma_id_payload_round_trip(id: i32, data: Seq<u8>)
    ensures
        id_payload_parse(id_payload_bytes(id as int, data)) == Ok::<(int, Seq<u8>), Error>((id as int, data)),
{
    lemma_varint_codec_round_trip(id, data);
    assert(id_payload_bytes(id as int, data).skip(varint_bytes(id as int).len() as int) =~= data);
}

/// A packet framed without compression reads back with the same id and
/// payload, and the reader stops at the end of its envelope.
pub proof fn lemma_plain_frame_round_trip(id: i32, data: Seq<u8>, rest: Seq<u8>)
    requires
        id_payload_bytes(id as int, data).len() <= i32::MAX,
    ensures
        frame_parse(plain_frame(id as int, data) + rest, false) == Ok::<(int, Seq<u8>, nat), Error>(
            (id as int, data, plain_frame(id as int, data).len()),
        ),
{
    let body = id_payload_bytes(id as int, data);
    let len = body.len() as i32;
    let s = plain_frame(id as int, data) + rest;
    assert(s =~= varint_bytes(len as int) + (body + rest));
    lemma_varint_codec_round_trip(len, body + rest);
    let l = varint_bytes(len as int).len();
    assert(s.subrange(l as int, l + len) =~= body);
    lemma_id_payload_round_trip(id, data);
}

/// Below the threshold a packet keeps the plain envelope's bytes, with the
/// zero sentinel inserted after a length that counts it, and reads back on a
/// compressing connection with the same id and payload.
pub proof fn lemma_sentinel_frame(id: i32, data: Seq<u8>, rest: Seq<u8>)
    requires
        id_payload_bytes(id as int, data).len() < i32::MAX,
    ensures
        sentinel_frame(id as int, data) == varint_bytes(id_payload_bytes(id as int, data).len() + 1int)
            + seq![0u8] + plain_frame(id as int, data).skip(
            varint_bytes(id_payload_bytes(id as int, data).len() as int).len() as int,
        ),
        frame_parse(sentinel_frame(id as int, data) + rest, true) == Ok::<(int, Seq<u8>, nat), Error>(
            (id as int, data, sentinel_frame(id as int, data).len()),
        ),
{
    let body = id_payload_bytes(id as int, data);
    let len = (body.len() + 1) as i32;
    let s = sentinel_frame(id as int, data) + rest;
    assert(varint_bytes(0) =~= seq![0u8]) by {
        reveal_with_fuel(varint_bytes, 2);
    }
    let l0 = varint_bytes(body.len() as int).len();
    assert(plain_frame(id as int, data).skip(l0 as int) =~= body);
    assert(s =~= varint_bytes(len as int) + (seq![0u8] + body + rest));
    lemma_varint_codec_round_trip(len, seq![0u8] + body + rest);
    let l = varint_bytes(len as int).len();
    let c = s.subrange(l as int, l + len);
    assert(c =~= varint_bytes(0) + body);
    lemma_varint_codec_round_trip(0, body);
    assert(c.skip(1) =~= body);
    lemma_id_payload_round_trip(id, data);
}

/// At or above the threshold the envelope announces the packet's size before
/// compression, and the bytes after that announcement are the zlib stream of
/// the id and payload; where inflating that stream gives the id and payload
/// back, the packet reads back whole.
pub proof fn lemma_compressed_frame(id: i32, data: Seq<u8>, rest: Seq<u8>)
    requires
        id_payload_bytes(id as int, data).len() < i32::MAX,
        varint_bytes(id_payload_bytes(id as int, data).len() as int).len()
            + zlib_compressed(id_payload_bytes(id as int, data)).len() <= i32::MAX,
    ensures
        ({
            let body = id_payload_bytes(id as int, data);
            let s = compressed_frame(id as int, data) + rest;
            let z = zlib_compressed(body);
            let outer = varint_bytes((varint_bytes(body.len() as int).len() + z.len()) as int);
            let l1 = outer.len() as int;
            let l2 = varint_bytes(body.len() as int).len() as int;
            &&& varint_parse(s) == Some((l2 + z.len(), l1 as nat))
            &&& varint_parse(s.skip(l1)) == Some((body.len() as int, l2 as nat))
            &&& s.subrange(l1 + l2, l1 + l2 + z.len()) == z
            &&& zlib_inflated(z) == Some(body) ==> frame_parse(s, true) == Ok::<(int, Seq<u8>, nat), Error>(
                (id as int, data, compressed_frame(id as int, data).len()),
            )
        }),
{
    let body = id_payload_bytes(id as int, data);
    let s = compressed_frame(id as int, data) + rest;
    let z = zlib_compressed(body);
    let dl = varint_bytes(body.len() as int);
    let n = (dl.len() + z.len()) as i32;
    let l1 = varint_bytes(n as int).len() as int;
    assert(s =~= varint_bytes(n as int) + (dl + z + rest));
    lemma_varint_codec_round_trip(n, dl + z + rest);
    assert(s.skip(l1) =~= dl + (z + rest));
    lemma_varint_codec_round_trip(body.len() as i32, z + rest);
    assert(s.subrange(l1 + dl.len(), l1 + dl.len() + z.len()) =~= z);
    let c = s.subrange(l1, l1 + n);
    assert(c =~= dl + z);
    lemma_varint_codec_round_trip(body.len() as i32, z);
    assert(c.skip(dl.len() as int) =~= z);
    lemma_id_payload_round_trip(id, data);
}

impl PacketData {
    pub open spec fn body(&self) -> Seq<u8> {
        id_payload_bytes(self.packet_id.0 as int, self.data@)
    }

    /// Reads a packet id at `pos` and takes every byte after it as the payload.
    pub fn read_with_context(buf: &[u8], pos: usize) -> (r: Result<PacketData, Error>)
        requires
            pos <= buf@.len(),
        ensures
            match (r, id_payload_parse(buf@.skip(pos as int))) {
                (Ok(p), Ok((id, data))) => p.packet_id.0 == id && p.data@ == data,
                (Err(e), Err(expected)) => e == expected,
                _ => false,
            },
    {
        match VarInt::read_from(buf, pos) {
            Ok((packet_id, start)) => {
                let data = copy_range(buf, start, buf.len());
                assert(data@ =~= buf@.skip(pos as int).skip(start - pos));
                Ok(PacketData { packet_id, data })
            },
            Err(e) => Err(e),
        }
    }

    /// Appends the id and the payload, without any envelope.
    pub fn write_body(&self, out: &mut Vec<u8>)
        ensures
            final(out)@ == old(out)@ + self.body(),
    {
        self.packet_id.write_to(out);
        append_bytes(out, self.data.as_slice());
        assert(out@ =~= old(out)@ + self.body());
    }

    /// Appends the envelope of a connection without compression.
    pub fn write_to(&self, out: &mut Vec<u8>)
        requires
            self.body().len() <= i32::MAX,
        ensures
            final(out)@ == old(out)@ + plain_frame(self.packet_id.0 as int, self.data@),
    {
        let len = self.packet_id.length() + self.data.len();
        VarInt::usize(len).write_to(out);
        self.write_body(out);
        assert(out@ =~= old(out)@ + plain_frame(self.packet_id.0 as int, self.data@));
    }
}

impl SerializedPacket {
    pub open spec fn packet(&self) -> &PacketData {
        match self {
            SerializedPacket::Uncompressed(p) => p,
            SerializedPacket::Compressed(z) => &z.0,
        }
    }

    /// Reads the content of an envelope, the bytes after its outer length.
    fn read_content(content: &Vec<u8>, compressing: bool) -> (r: Result<SerializedPacket, Error>)
        ensures
            match (r, content_parse(content@, compressing)) {
                (Ok(p), Ok((id, data))) => p.packet().packet_id.0 == id && p.packet().data@ == data,
                (Err(e), Err(expected)) => e == expected,
                _ => false,
            },
            r matches Ok(p) ==> (p is Compressed <==> content_deflated(content@, compressing)),
    {
        assert(content@.skip(0) =~= content@);
        if !compressing {
            return match PacketData::read_with_context(content.as_slice(), 0) {
                Ok(p) => Ok(SerializedPacket::Uncompressed(p)),
                Err(e) => Err(e),
            };
        }
        let (data_length, start) = match VarInt::read_from(content.as_slice(), 0) {
            Ok(v) => v,
            Err(e) => return Err(e),
        };
        if data_length.0 == 0 {
            match PacketData::read_with_context(content.as_slice(), start) {
                Ok(p) => Ok(SerializedPacket::Uncompressed(p)),
                Err(e) => Err(e),
            }
        } else {
            let deflated = copy_range(content.as_slice(), start, content.len());
            assert(deflated@ =~= content@.skip(start as int));
            let body = match zlib_decompress(deflated.as_slice()) {
                Some(b) => b,
                None => return Err(Error::Compression),
            };
            if data_length.0 < 0 || body.len() != data_length.0 as usize {
                return Err(Error::InvalidData);
            }
            assert(body@.skip(0) =~= body@);
            match PacketData::read_with_context(body.as_slice(), 0) {
                Ok(p) => Ok(SerializedPacket::Compressed(Zlib(p))),
                Err(e) => Err(e),
            }
        }
    }

    /// Reads the envelope at `pos`; on a compressing connection a packet
    /// behind the zero sentinel comes back uncompressed, any other deflated.
    pub fn read_from(buf: &[u8], pos: usize, compressing: bool) -> (r: Result<(SerializedPacket, usize), Error>)
        requires
            pos <= buf@.len(),
        ensures
            match (r, frame_parse(buf@.skip(pos as int), compressing)) {
                (Ok((p, end)), Ok((id, data, n))) => p.packet().packet_id.0 == id && p.packet().data@ == data
                    && end == pos + n,
                (Err(e), Err(expected)) => e == expected,
                _ => false,
            },
            r matches Ok((p, _)) ==> (p is Compressed <==> frame_deflated(buf@.skip(pos as int), compressing)),
    {
        let (length, start) = match VarInt::read_from(buf, pos) {
            Ok(v) => v,
            Err(e) => return Err(e),
        };
        if length.0 < 0 {
            return Err(Error::InvalidData);
        }
        let n = length.to_usize();
        if n > buf.len() - start {
            return Err(Error::UnexpectedEof);
        }
        let content = copy_range(buf, start, start + n);
        assert(content@ =~= buf@.skip(pos as int).subrange(start - pos, start - pos + n));
        match Self::read_content(&content, compressing) {
            Ok(p) => Ok((p, start + n)),
            Err(e) => Err(e.in_envelope()),
        }
    }

    /// Reads the envelope at `pos` and pairs its id with the connection's
    /// phase, for the decoder of the expected packet type.
    pub fn read_packet(buf: &[u8], pos: usize, compressing: bool, state: State) -> (r: Result<(PacketContext, Vec<u8>, usize), Error>)
        requires
            pos <= buf@.len(),
        ensures
            match (r, frame_parse(buf@.skip(pos as int), compressing)) {
                (Ok((cx, payload, end)), Ok((id, data, n))) => cx.id.0 == id && cx.state == state
                    && payload@ == data && end == pos + n,
                (Err(e), Err(expected)) => e == expected,
                _ => false,
            },
    {
        match Self::read_from(buf, pos, compressing) {
            Ok((SerializedPacket::Uncompressed(p), end)) => Ok((PacketContext { id: p.packet_id, state }, p.data, end)),
            Ok((SerializedPacket::Compressed(Zlib(p)), end)) => Ok((PacketContext { id: p.packet_id, state }, p.data, end)),
            Err(e) => Err(e),
        }
    }

    /// Appends the envelope. An uncompressed packet gets the plain envelope.
    /// A compressed one is sent as it is, behind the zero sentinel, when it
    /// is smaller than the threshold, and deflated otherwise; that fails only
    /// when the deflated envelope is too long to announce.
    pub fn write_to(&self, out: &mut Vec<u8>, compression_threshold: Option<usize>) -> (r: Result<(), Error>)
        requires
            self.packet().body().len() < i32::MAX,
        ensures
            match self {
                SerializedPacket::Uncompressed(p) => r is Ok && final(out)@ == old(out)@ + plain_frame(
                    p.packet_id.0 as int,
                    p.data@,
                ),
                SerializedPacket::Compressed(z) => match r {
                    Ok(()) => final(out)@ == old(out)@ + outgoing_frame(
                        z.0.packet_id.0 as int,
                        z.0.data@,
                        compression_threshold,
                    ),
                    Err(e) => final(out)@ == old(out)@ && e is PacketTooLarge,
                },
            },
            self is Compressed ==> (r is Ok <==> (sent_plain(
                self.packet().packet_id.0 as int,
                self.packet().data@,
                compression_threshold,
            ) || deflated_fits(self.packet().packet_id.0 as int, self.packet().data@))),
            (compression_threshold matches Some(t) && self.packet().body().len() < t) ==> r is Ok,
    {
        match self {
            SerializedPacket::Uncompressed(p) => {
                p.write_to(out);
                Ok(())
            },
            SerializedPacket::Compressed(z) => {
                let p = &z.0;
                let data_len = p.packet_id.length() + p.data.len();
                let data_length = VarInt::usize(data_len);
                if let Some(threshold) = compression_threshold {
                    if data_len < threshold {
                        VarInt::usize(data_len + 1).write_to(out);
                        VarInt(0).write_to(out);
                        p.write_body(out);
                        proof {
                            assert(varint_bytes(0) =~= seq![0u8]) by {
                                reveal_with_fuel(varint_bytes, 2);
                            }
                        }
                        assert(out@ =~= old(out)@ + sentinel_frame(p.packet_id.0 as int, p.data@));
                        return Ok(());
                    }
                }
                let mut body: Vec<u8> = Vec::new();
                p.write_body(&mut body);
                assert(body@ =~= p.body());
                let compressed = match zlib_compress(body.as_slice()) {
                    Some(c) => c,
                    None => return Err(Error::Compression),
                };
                let prefix = data_length.length();
                if compressed.len() > i32::MAX as usize - prefix {
                    return Err(Error::PacketTooLarge { length: compressed.len() });
                }
                VarInt::usize(prefix + compressed.len()).write_to(out);
                data_length.write_to(out);
                append_bytes(out, compressed.as_slice());
                assert(out@ =~= old(out)@ + compressed_frame(p.packet_id.0 as int, p.data@));
                Ok(())
            },
        }
    }
}

} // verus!
