use vstd::prelude::*;
use vstd::utf8::{decode_utf8, encode_utf8, valid_utf8};

use crate::error::{Error, WireEnum};
use crate::varint::{
    lemma_varint_codec_round_trip, varint_bytes, varint_parse, varint_truncated, VarInt,
};

verus! {

/// A 128-bit identifier, carried as its sixteen raw bytes.
#[derive(Clone, Copy, PartialEq, Eq, Debug)]
pub struct Uuid {
    pub bytes: [u8; 16],
}

pub open spec fn u16_bytes(v: u16) -> Seq<u8> {
    seq![(v / 256) as u8, (v % 256) as u8]
}

pub open spec fn bool_bytes(b: bool) -> Seq<u8> {
    seq![if b { 1u8 } else { 0u8 }]
}

/// Wire form of a string: its UTF-8 byte length, then those bytes.
pub open spec fn string_bytes(s: Seq<char>) -> Seq<u8> {
    varint_bytes(encode_utf8(s).len() as int) + encode_utf8(s)
}

pub open spec fn option_uuid_bytes(u: Option<Uuid>) -> Seq<u8> {
    match u {
        Some(id) => bool_bytes(true) + id.bytes@,
        None => bool_bytes(false),
    }
}

pub open spec fn u16_parse(s: Seq<u8>) -> Result<(u16, nat), Error> {
    if s.len() < 2 {
        Err(Error::UnexpectedEof)
    } else {
        Ok(((s[0] * 256 + s[1]) as u16, 2))
    }
}

pub open spec fn bool_parse(s: Seq<u8>) -> Result<(bool, nat), Error> {
    if s.len() == 0 {
        Err(Error::UnexpectedEof)
    } else if s[0] == 0 {
        Ok((false, 1))
    } else if s[0] == 1 {
        Ok((true, 1))
    } else {
        Err(Error::BadEnumValue { field: WireEnum::Bool, got: s[0] as i32 })
    }
}

/// An optional UUID read from the front of `s`, as the UUID's bytes.
pub open spec fn option_uuid_parse(s: Seq<u8>) -> Result<(Option<Seq<u8>>, nat), Error> {
    match bool_parse(s) {
        Err(e) => Err(e),
        Ok((false, n)) => Ok((None, n)),
        Ok((true, n)) => if s.len() < 17 {
            Err(Error::UnexpectedEof)
        } else {
            Ok((Some(s.subrange(1, 17)), 17))
        },
    }
}

/// Outcome of reading a string limited to `limit` bytes from the front of `s`:
/// the characters and the bytes consumed, or the error that is reported.
pub open spec fn string_parse(s: Seq<u8>, limit: usize) -> Result<(Seq<char>, nat), Error> {
    match varint_parse(s) {
        None => if varint_truncated(s) {
            Err(Error::UnexpectedEof)
        } else {
            Err(Error::MalformedVarInt)
        },
        Some((n, l)) => if n < 0 {
            Err(Error::InvalidData)
        } else if n > limit {
            Err(Error::StringTooLarge { length: n as usize, limit })
        } else if l + n > s.len() {
            Err(Error::UnexpectedEof)
        } else if !valid_utf8(s.subrange(l as int, l + n)) {
            Err(Error::InvalidData)
        } else {
            Ok((decode_utf8(s.subrange(l as int, l + n)), (l + n) as nat))
        },
    }
}

/// A declared length above the limit is refused with both numbers, whatever
/// follows the length: none of the announced bytes needs to be there.
pub proof fn lemma_string_over_limit(length: i32, limit: usize, rest: Seq<u8>)
    requires
        length > limit,
    ensures
        string_parse(varint_bytes(length as int) + rest, limit) == Err::<(Seq<char>, nat), Error>(
            Error::StringTooLarge { length: length as usize, limit },
        ),
{
    lemma_varint_codec_round_trip(length, rest);
}

/// Relies on `String::from_utf8`: it accepts exactly the valid UTF-8
/// sequences and keeps the characters they encode.
#[verifier::external_body]
fn string_from_utf8(bytes: Vec<u8>) -> (r: Option<String>)
    ensures
        r is Some <==> valid_utf8(bytes@),
        r matches Some(s) ==> s@ == decode_utf8(bytes@),
{
    String::from_utf8(bytes).ok()
}

/// Appends `bytes` to `out`.
pub fn append_bytes(out: &mut Vec<u8>, bytes: &[u8])
    ensures
        final(out)@ == old(out)@ + bytes@,
{
    let mut i: usize = 0;
    while i < bytes.len()
        invariant
            i <= bytes@.len(),
            out@ == old(out)@ + bytes@.take(i as int),
        decreases bytes@.len() - i,
    {
        out.push(bytes[i]);
        i += 1;
        assert(out@ =~= old(out)@ + bytes@.take(i as int));
    }
    assert(bytes@.take(i as int) =~= bytes@);
}

/// Copies `buf[from..to]` into a vector of its own.
pub fn copy_range(buf: &[u8], from: usize, to: usize) -> (r: Vec<u8>)
    requires
        from <= to <= buf@.len(),
    ensures
        r@ == buf@.subrange(from as int, to as int),
{
    let mut r: Vec<u8> = Vec::new();
    let mut i: usize = from;
    while i < to
        invariant
            from <= i <= to <= buf@.len(),
            r@ == buf@.subrange(from as int, i as int),
        decreases to - i,
    {
        r.push(buf[i]);
        i += 1;
        assert(r@ =~= buf@.subrange(from as int, i as int));
    }
    r
}

/// Appends a big-endian `u16`.
pub fn write_u16(v: u16, out: &mut Vec<u8>)
    ensures
        final(out)@ == old(out)@ + u16_bytes(v),
{
    out.push((v / 256) as u8);
    out.push((v % 256) as u8);
    assert(out@ =~= old(out)@ + u16_bytes(v));
}

/// Reads a big-endian `u16` at `pos`.
pub fn read_u16(buf: &[u8], pos: usize) -> (r: Result<(u16, usize), Error>)
    requires
        pos <= buf@.len(),
    ensures
        match (r, u16_parse(buf@.skip(pos as int))) {
            (Ok((v, end)), Ok((w, n))) => v == w && end == pos + n,
            (Err(e), Err(expected)) => e == expected,
            _ => false,
        },
        r matches Ok((v, end)) ==> u16_bytes(v) == buf@.subrange(pos as int, end as int),
{
    if buf.len() - pos < 2 {
        return Err(Error::UnexpectedEof);
    }
    let v: u16 = buf[pos] as u16 * 256 + buf[pos + 1] as u16;
    assert(u16_bytes(v) =~= buf@.subrange(pos as int, pos + 2)) by {
        let hi = buf@[pos as int] as int;
        let lo = buf@[pos + 1] as int;
        assert((hi * 256 + lo) / 256 == hi && (hi * 256 + lo) % 256 == lo) by (nonlinear_arith)
            requires
                0 <= hi < 256,
                0 <= lo < 256,
        ;
    }
    Ok((v, pos + 2))
}

/// Appends a boolean as one byte, `0x00` or `0x01`.
pub fn write_bool(b: bool, out: &mut Vec<u8>)
    ensures
        final(out)@ == old(out)@ + bool_bytes(b),
{
    out.push(if b { 1u8 } else { 0u8 });
    assert(out@ =~= old(out)@ + bool_bytes(b));
}

/// Reads a boolean at `pos`; any byte but `0x00` and `0x01` is refused,
/// naming the accepted values.
pub fn read_bool(buf: &[u8], pos: usize) -> (r: Result<(bool, usize), Error>)
    requires
        pos <= buf@.len(),
    ensures
        match (r, bool_parse(buf@.skip(pos as int))) {
            (Ok((b, end)), Ok((c, n))) => b == c && end == pos + n,
            (Err(e), Err(expected)) => e == expected,
            _ => false,
        },
        r matches Ok((_, end)) ==> end == pos + 1 <= buf@.len(),
{
    if pos == buf.len() {
        return Err(Error::UnexpectedEof);
    }
    let byte = buf[pos];
    if byte == 0 {
        Ok((false, pos + 1))
    } else if byte == 1 {
        Ok((true, pos + 1))
    } else {
        Err(Error::BadEnumValue { field: WireEnum::Bool, got: byte as i32 })
    }
}

/// Appends a string: its UTF-8 byte length as a variable-length integer, then
/// the bytes.
pub fn write_string(s: &str, out: &mut Vec<u8>)
    requires
        encode_utf8(s@).len() <= i32::MAX,
    ensures
        final(out)@ == old(out)@ + string_bytes(s@),
{
    let bytes = s.as_bytes();
    VarInt::usize(bytes.len()).write_to(out);
    append_bytes(out, bytes);
    assert(out@ =~= old(out)@ + string_bytes(s@));
}

/// Reads a string of at most `limit` bytes at `pos`. A longer declared
/// length is refused before any of its bytes is read.
pub fn read_string_limit(buf: &[u8], pos: usize, limit: usize) -> (r: Result<(String, usize), Error>)
    requires
        pos <= buf@.len(),
    ensures
        match (r, string_parse(buf@.skip(pos as int), limit)) {
            (Ok((s, end)), Ok((chars, n))) => s@ == chars && end == pos + n,
            (Err(e), Err(expected)) => e == expected,
            _ => false,
        },
        r matches Ok((_, end)) ==> pos < end <= buf@.len(),
{
    let (length, start) = match VarInt::read_from(buf, pos) {
        Ok(v) => v,
        Err(e) => return Err(e),
    };
    let ghost s = buf@.skip(pos as int);
    if length.0 < 0 {
        return Err(Error::InvalidData);
    }
    let n = length.to_usize();
    if n > limit {
        return Err(Error::StringTooLarge { length: n, limit });
    }
    if n > buf.len() - start {
        return Err(Error::UnexpectedEof);
    }
    let bytes = copy_range(buf, start, start + n);
    assert(bytes@ =~= s.subrange((start - pos) as int, (start - pos) + n));
    match string_from_utf8(bytes) {
        Some(text) => Ok((text, start + n)),
        None => Err(Error::InvalidData),
    }
}

/// Reads a string at `pos` with no limit beyond what a length prefix can
/// announce.
pub fn read_string(buf: &[u8], pos: usize) -> (r: Result<(String, usize), Error>)
    requires
        pos <= buf@.len(),
    ensures
        match (r, string_parse(buf@.skip(pos as int), i32::MAX as usize)) {
            (Ok((s, end)), Ok((chars, n))) => s@ == chars && end == pos + n,
            (Err(e), Err(expected)) => e == expected,
            _ => false,
        },
{
    read_string_limit(buf, pos, i32::MAX as usize)
}

/// Appends a UUID as its sixteen raw bytes.
pub fn write_uuid(id: &Uuid, out: &mut Vec<u8>)
    ensures
        final(out)@ == old(out)@ + id.bytes@,
{
    append_bytes(out, id.bytes.as_slice());
}

/// Reads sixteen raw bytes at `pos` as a UUID.
pub fn read_uuid(buf: &[u8], pos: usize) -> (r: Result<(Uuid, usize), Error>)
    requires
        pos <= buf@.len(),
    ensures
        buf@.len() - pos < 16 ==> r is Err && r->Err_0 is UnexpectedEof,
        buf@.len() - pos >= 16 ==> (r matches Ok((id, end)) && end == pos + 16 && id.bytes@
            == buf@.subrange(pos as int, pos + 16)),
{
    if buf.len() - pos < 16 {
        return Err(Error::UnexpectedEof);
    }
    let mut bytes = [0u8; 16];
    let mut i: usize = 0;
    while i < 16
        invariant
            i <= 16,
            pos + 16 <= buf@.len() <= usize::MAX,
            forall|j: int| 0 <= j < i ==> bytes@[j] == buf@[pos + j],
        decreases 16 - i,
    {
        bytes[i] = buf[pos + i];
        i += 1;
    }
    assert(bytes@ =~= buf@.subrange(pos as int, pos + 16));
    Ok((Uuid { bytes }, pos + 16))
}

/// Appends an optional UUID: a presence flag, then the UUID if there is one.
pub fn write_option_uuid(id: &Option<Uuid>, out: &mut Vec<u8>)
    ensures
        final(out)@ == old(out)@ + option_uuid_bytes(*id),
{
    match id {
        Some(u) => {
            write_bool(true, out);
            write_uuid(u, out);
            assert(out@ =~= old(out)@ + option_uuid_bytes(*id));
        },
        None => write_bool(false, out),
    }
}

/// Reads an optional UUID at `pos`: a presence flag, then the UUID if it is set.
pub fn read_option_uuid(buf: &[u8], pos: usize) -> (r: Result<(Option<Uuid>, usize), Error>)
    requires
        pos <= buf@.len(),
    ensures
        match (r, option_uuid_parse(buf@.skip(pos as int))) {
            (Ok((None, end)), Ok((None, n))) => end == pos + n,
            (Ok((Some(id), end)), Ok((Some(b), n))) => id.bytes@ == b && end == pos + n,
            (Err(e), Err(expected)) => e == expected,
            _ => false,
        },
{
    let (present, next) = match read_bool(buf, pos) {
        Ok(v) => v,
        Err(e) => return Err(e),
    };
    if present {
        match read_uuid(buf, next) {
            Ok((id, end)) => {
                assert(buf@.skip(pos as int).subrange(1, 17) =~= buf@.subrange(pos + 1, pos + 17));
                Ok((Some(id), end))
            },
            Err(e) => Err(e),
        }
    } else {
        Ok((None, next))
    }
}

} // verus!
