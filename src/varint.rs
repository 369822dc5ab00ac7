use vstd::arithmetic::div_mod::lemma_fundamental_div_mod_converse;
use vstd::arithmetic::power2::{lemma2_to64, lemma2_to64_rest, lemma_pow2_adds, lemma_pow2_pos, pow2};
use vstd::bits::{lemma_u64_pow2_no_overflow, lemma_u64_shl_is_mul};
use vstd::prelude::*;

use crate::error::Error;

verus! {

/// A signed 32-bit integer carried in the variable-length wire form.
#[derive(Clone, Copy, PartialEq, Eq, PartialOrd, Ord, Debug, Structural)]
pub struct VarInt(pub i32);

pub open spec fn abs(v: int) -> nat {
    if v >= 0 {
        v as nat
    } else {
        (-v) as nat
    }
}

/// A group `low` taken from a value that leaves `rest` after the shift is the
/// last one when sign extension of its bit 6 reproduces `rest`.
pub open spec fn is_last_group(low: int, rest: int) -> bool {
    (rest == 0 && low < 64) || (rest == -1 && low >= 64)
}

/// Canonical encoding of `v`: seven-bit groups, lowest first, with the high
/// bit of every byte but the last set.
pub open spec fn varint_bytes(v: int) -> Seq<u8>
    decreases abs(v),
    via varint_bytes_decreases
{
    let low = v % 128;
    let rest = v / 128;
    if is_last_group(low, rest) {
        seq![low as u8]
    } else {
        seq![(low + 128) as u8] + varint_bytes(rest)
    }
}

#[via_fn]
proof fn varint_bytes_decreases(v: int) {
    lemma_group_shrinks(v);
}

/// Taking a group that is not the last leaves a value of smaller magnitude.
proof fn lemma_group_shrinks(v: int)
    ensures
        v == (v / 128) * 128 + v % 128,
        0 <= v % 128 < 128,
        !is_last_group(v % 128, v / 128) ==> abs(v / 128) < abs(v),
{
    vstd::arithmetic::div_mod::lemma_fundamental_div_mod(v, 128);
}

/// Index of the first byte of `s` without the continuation flag.
pub open spec fn terminal_index(s: Seq<u8>) -> Option<nat>
    decreases s.len(),
{
    if s.len() == 0 {
        None
    } else if s[0] < 128 {
        Some(0)
    } else {
        match terminal_index(s.drop_first()) {
            Some(k) => Some(k + 1),
            None => None,
        }
    }
}

/// Sum of the seven-bit groups of the first `n` bytes, lowest group first.
pub open spec fn group_sum(s: Seq<u8>, n: nat) -> int
    decreases n,
{
    if n == 0 || s.len() == 0 {
        0
    } else {
        (s[0] % 128) as int + 128 * group_sum(s.drop_first(), (n - 1) as nat)
    }
}

/// Value of the integer whose last group is `s[k]`: the group sum,
/// sign-extended from bit 6 of that last group.
pub open spec fn group_value(s: Seq<u8>, k: nat) -> int {
    group_sum(s, k + 1) - if s[k as int] % 128 >= 64 {
        pow2(7 * (k + 1)) as int
    } else {
        0int
    }
}

pub open spec fn in_i32(v: int) -> bool {
    i32::MIN <= v <= i32::MAX
}

/// Value and byte count of the well-formed integer at the front of `s`:
/// at most five groups, value in range.
pub open spec fn varint_parse(s: Seq<u8>) -> Option<(int, nat)> {
    match terminal_index(s) {
        Some(k) => if k < 5 && in_i32(group_value(s, k)) {
            Some((group_value(s, k), k + 1))
        } else {
            None
        },
        None => None,
    }
}

pub open spec fn in_i64(v: int) -> bool {
    i64::MIN <= v <= i64::MAX
}

/// Value and byte count of the well-formed 64-bit integer at the front of
/// `s`: at most ten groups, value in range.
pub open spec fn varlong_parse(s: Seq<u8>) -> Option<(int, nat)> {
    match terminal_index(s) {
        Some(k) => if k < 10 && in_i64(group_value(s, k)) {
            Some((group_value(s, k), k + 1))
        } else {
            None
        },
        None => None,
    }
}

/// `s` ends before a terminating group, with fewer than ten groups read.
pub open spec fn varlong_truncated(s: Seq<u8>) -> bool {
    terminal_index(s) is None && s.len() < 10
}

/// `s` ends before a terminating group, with fewer than five groups read.
pub open spec fn varint_truncated(s: Seq<u8>) -> bool {
    terminal_index(s) is None && s.len() < 5
}

proof fn lemma_group_split(v: i32)
    ensures
        (v & 0x7f) as int == v as int % 128,
        (v >> 7) as int == v as int / 128,
{
    assert(0 <= (v & 0x7f) < 128) by (bit_vector);
    assert(-0x100_0000 <= (v >> 7) < 0x100_0000) by (bit_vector);
    assert(((v >> 7) * 128 + (v & 0x7f)) == v) by (bit_vector);
    lemma_fundamental_div_mod_converse(v as int, 128, (v >> 7) as int, (v & 0x7f) as int);
}

proof fn lemma_group_split_64(v: i64)
    ensures
        (v & 0x7f) as int == v as int % 128,
        (v >> 7) as int == v as int / 128,
{
    assert(0 <= (v & 0x7f) < 128) by (bit_vector);
    assert(-0x100_0000_0000_0000 <= (v >> 7) < 0x100_0000_0000_0000) by (bit_vector);
    assert(((v >> 7) * 128 + (v & 0x7f)) == v) by (bit_vector);
    lemma_fundamental_div_mod_converse(v as int, 128, (v >> 7) as int, (v & 0x7f) as int);
}

proof fn lemma_byte_bits(b: u8)
    ensures
        (b & 0x7f) == b % 128,
        (b & 0x80 == 0) <==> b < 128,
        b < 128 ==> ((b & 0x40 == 0) <==> b < 64),
        b < 128 ==> (b | 0x80) == b + 128,
        (b & 0x40 != 0) <==> b % 128 >= 64,
{
    assert((b & 0x7f) == b % 128) by (bit_vector);
    assert((b & 0x80 == 0) <==> b < 128) by (bit_vector);
    assert(b < 128 ==> ((b & 0x40 == 0) <==> b < 64)) by (bit_vector);
    assert(b < 128 ==> (b | 0x80) == b + 128) by (bit_vector);
    assert((b & 0x40 != 0) <==> b % 128 >= 64) by (bit_vector);
}

/// Every value of magnitude below 2^(6 + 7m) takes at most m + 1 bytes.
proof fn lemma_varint_len_bound(v: int, m: nat)
    requires
        -(pow2(6 + 7 * m) as int) <= v < pow2(6 + 7 * m),
    ensures
        1 <= varint_bytes(v).len() <= m + 1,
    decreases m,
{
    let low = v % 128;
    let rest = v / 128;
    vstd::arithmetic::div_mod::lemma_fundamental_div_mod(v, 128);
    if !is_last_group(low, rest) {
        if m == 0 {
            lemma2_to64();
        } else {
            let m1 = (m - 1) as nat;
            lemma_pow2_adds(7, 6 + 7 * m1);
            lemma2_to64();
            assert(6 + 7 * m == 7 + (6 + 7 * m1));
            lemma_varint_len_bound(rest, m1);
        }
    }
}

pub proof fn lemma_varint_i32_len(v: i32)
    ensures
        1 <= varint_bytes(v as int).len() <= 5,
{
    lemma2_to64_rest();
    assert(6 + 7 * 4nat == 34);
    lemma_varint_len_bound(v as int, 4);
}


pub proof fn lemma_varint_i64_len(v: i64)
    ensures
        1 <= varint_bytes(v as int).len() <= 10,
{
    lemma2_to64_rest();
    vstd::arithmetic::power2::lemma_pow2_strictly_increases(63, 69);
    assert(6 + 7 * 9nat == 69);
    lemma_varint_len_bound(v as int, 9);
}

/// Every `i64` decodes back from its encoding, whatever follows it.
pub proof fn lemma_varlong_codec_round_trip(v: i64, t: Seq<u8>)
    ensures
        varlong_parse(varint_bytes(v as int) + t) == Some((v as int, varint_bytes(v as int).len())),
        1 <= varint_bytes(v as int).len() <= 10,
{
    lemma_varint_i64_len(v);
    lemma_varint_round_trip(v as int, t);
}

/// Decoding the canonical encoding of `v`, followed by anything, gives back
/// `v` and the encoding's length.
pub proof fn lemma_varint_round_trip(v: int, t: Seq<u8>)
    ensures
        terminal_index(varint_bytes(v) + t) == Some((varint_bytes(v).len() - 1) as nat),
        group_value(varint_bytes(v) + t, (varint_bytes(v).len() - 1) as nat) == v,
    decreases abs(v),
{
    let low = v % 128;
    let rest = v / 128;
    let s = varint_bytes(v) + t;
    vstd::arithmetic::div_mod::lemma_fundamental_div_mod(v, 128);
    if is_last_group(low, rest) {
        assert(s[0] == low as u8);
        assert(s.drop_first().len() >= 0);
        assert(group_sum(s.drop_first(), 0) == 0);
        lemma2_to64();
    } else {
        lemma_group_shrinks(v);
        let s1 = varint_bytes(rest) + t;
        assert(s.drop_first() =~= s1);
        lemma_varint_round_trip(rest, t);
        let k1 = (varint_bytes(rest).len() - 1) as nat;
        let k = k1 + 1;
        assert(s[k as int] == s1[k1 as int]);
        assert(group_sum(s, k + 1) == low + 128 * group_sum(s1, k1 + 1));
        lemma_pow2_adds(7, 7 * (k1 + 1));
        lemma2_to64();
        assert(7 * (k + 1) == 7 + 7 * (k1 + 1));
    }
}

/// Adding the next group to a partial sum.
proof fn lemma_group_sum_step(s: Seq<u8>, i: nat)
    requires
        i < s.len(),
    ensures
        group_sum(s, i + 1) == group_sum(s, i) + (s[i as int] % 128) * pow2(7 * i),
        0 <= group_sum(s, i) < pow2(7 * i),
    decreases i,
{
    lemma2_to64();
    if i == 0 {
        assert(group_sum(s.drop_first(), 0) == 0);
    } else {
        let s1 = s.drop_first();
        assert(s[i as int] == s1[(i - 1) as int]);
        let i1 = (i - 1) as nat;
        lemma_group_sum_step(s1, i1);
        lemma_pow2_adds(7, 7 * i1);
        assert(7 * i == 7 + 7 * i1);
        let g = (s1[i1 as int] % 128) as int;
        let p = pow2(7 * i1) as int;
        assert(128 * (group_sum(s1, i1) + g * p) == 128 * group_sum(s1, i1) + g * (128 * p))
            by (nonlinear_arith);
        assert(128 * group_sum(s1, i1) < 128 * p) by (nonlinear_arith)
            requires group_sum(s1, i1) < p;
    }
}

/// The terminating group is the first byte without the continuation flag.
proof fn lemma_terminal_after(s: Seq<u8>, i: nat)
    requires
        i <= s.len(),
        forall|j: int| 0 <= j < i ==> s[j] >= 128,
    ensures
        i < s.len() && s[i as int] < 128 ==> terminal_index(s) == Some(i),
        i == s.len() ==> terminal_index(s) is None,
        terminal_index(s) matches Some(k) ==> k >= i,
    decreases i,
{
    if i > 0 {
        let s1 = s.drop_first();
        assert forall|j: int| 0 <= j < i - 1 implies s1[j] >= 128 by {
            assert(s1[j] == s[j + 1]);
        }
        lemma_terminal_after(s1, (i - 1) as nat);
        if i < s.len() {
            assert(s1[i - 1] == s[i as int]);
        }
    }
}

proof fn lemma_or_disjoint(raw: u64, g: u64, sh: u64)
    requires
        sh <= 28,
        g < 128,
        raw < (1u64 << sh),
    ensures
        raw | (g << sh) == raw + (g << sh),
{
    assert(raw | (g << sh) == raw + (g << sh)) by (bit_vector)
        requires
            sh <= 28,
            g < 128,
            raw < (1u64 << sh),
    ;
}

/// Every `i32` decodes back from its encoding, whatever follows it, and the
/// encoding is as long as `length` reports.
pub proof fn lemma_varint_codec_round_trip(v: i32, t: Seq<u8>)
    ensures
        varint_parse(varint_bytes(v as int) + t) == Some((v as int, varint_bytes(v as int).len())),
        1 <= varint_bytes(v as int).len() <= 5,
{
    lemma_varint_i32_len(v);
    lemma_varint_round_trip(v as int, t);
}

impl VarInt {
    /// Wraps a length or count; it must fit in an `i32`.
    pub fn usize(u: usize) -> (r: VarInt)
        requires
            u <= i32::MAX,
        ensures
            r.0 == u,
    {
        VarInt(u as i32)
    }

    /// The value as a length or count; it must not be negative.
    pub fn to_usize(&self) -> (r: usize)
        requires
            self.0 >= 0,
        ensures
            r == self.0,
    {
        self.0 as usize
    }

    /// Number of bytes of the encoding, computed without writing them.
    pub fn length(&self) -> (r: usize)
        ensures
            r == varint_bytes(self.0 as int).len(),
            1 <= r <= 5,
    {
        let mut value: i32 = self.0;
        let mut len: usize = 0;
        proof {
            lemma_varint_i32_len(self.0);
        }
        loop
            invariant
                len + varint_bytes(value as int).len() == varint_bytes(self.0 as int).len(),
                varint_bytes(self.0 as int).len() <= 5,
            decreases abs(value as int),
        {
            proof {
                lemma_group_split(value);
                lemma_group_shrinks(value as int);
            }
            let old_value = value;
            let byte: u8 = (value & 0x7f) as u8;
            value >>= 7;
            proof {
                lemma_byte_bits(byte);
            }
            let more = !((value == 0 && (byte & 0x40) == 0) || (value == -1 && (byte & 0x40) != 0));
            len += 1;
            if !more {
                return len;
            }
        }
    }

    /// Reads the integer that starts at `pos`, returning it and the position
    /// after its last byte.
    pub fn read_from(buf: &[u8], pos: usize) -> (r: Result<(VarInt, usize), Error>)
        requires
            pos <= buf@.len(),
        ensures
            r is Ok <==> varint_parse(buf@.skip(pos as int)) is Some,
            r matches Ok((v, end)) ==> pos < end <= buf@.len(),
            r matches Ok((v, end)) ==> varint_parse(buf@.skip(pos as int)) == Some(
                (v.0 as int, (end - pos) as nat),
            ),
            r matches Err(e) ==> if varint_truncated(buf@.skip(pos as int)) {
                e is UnexpectedEof
            } else {
                e is MalformedVarInt
            },
    {
        let ghost s = buf@.skip(pos as int);
        let mut raw: u64 = 0;
        let mut shift: u64 = 0;
        let mut i: usize = 0;
        let mut byte: u8;
        let n = buf.len();
        proof {
            lemma2_to64();
            lemma2_to64_rest();
        }
        loop
            invariant_except_break
                i < 5,
                shift == 7 * i,
                raw as int == group_sum(s, i as nat),
                forall|j: int| 0 <= j < i ==> s[j] >= 128,
            invariant
                pos + i <= buf@.len(),
                n == buf@.len(),
                s == buf@.skip(pos as int),
                pow2(28) == 0x1000_0000,
                pow2(35) == 0x8_0000_0000,
            ensures
                1 <= i <= 5,
                shift == 7 * i,
                pos + i <= buf@.len(),
                s == buf@.skip(pos as int),
                raw as int == group_sum(s, (i - 1) as nat) + (s[i - 1] % 128) * pow2(7 * (i - 1) as nat),
                group_sum(s, (i - 1) as nat) < pow2(7 * (i - 1) as nat),
                pow2(shift as nat) == 128 * pow2(7 * (i - 1) as nat),
                s[i - 1] == byte,
                byte < 128,
                forall|j: int| 0 <= j < i - 1 ==> s[j] >= 128,
                pow2(35) == 0x8_0000_0000,
            decreases 5 - i,
        {
            if i >= n - pos {
                proof {
                    lemma_terminal_after(s, i as nat);
                }
                return Err(Error::UnexpectedEof);
            }
            byte = buf[pos + i];
            proof {
                assert(s[i as int] == byte);
                lemma2_to64();
                lemma_byte_bits(byte);
                lemma_group_sum_step(s, i as nat);
                lemma_pow2_adds(7 * i as nat, 7);
                lemma_u64_pow2_no_overflow(shift as nat);
                if shift < 28 {
                    vstd::arithmetic::power2::lemma_pow2_strictly_increases(shift as nat, 28);
                }
                lemma_u64_shl_is_mul(1, shift);
                assert((byte & 0x7f) as u64 * pow2(shift as nat) < 0x8_0000_0000) by (nonlinear_arith)
                    requires
                        (byte & 0x7f) < 128,
                        pow2(shift as nat) <= 0x1000_0000,
                ;
                lemma_u64_shl_is_mul((byte & 0x7f) as u64, shift);
                lemma_or_disjoint(raw, (byte & 0x7f) as u64, shift);
            }
            raw = raw | (((byte & 0x7f) as u64) << shift);
            shift += 7;
            i += 1;
            if (byte & 0x80) == 0 {
                break;
            }
            assert(s[i - 1] >= 128);
            if i == 5 {
                proof {
                    lemma_terminal_after(s, i as nat);
                }
                return Err(Error::MalformedVarInt);
            }
        }
        let ghost k = (i - 1) as nat;
        proof {
            lemma_terminal_after(s, k);
            lemma_group_sum_step(s, k);
            lemma_byte_bits(byte);
            assert(7 * (k + 1) == shift);
            lemma_u64_pow2_no_overflow(shift as nat);
            lemma_u64_shl_is_mul(1, shift);
            lemma_pow2_pos(shift as nat);
            assert(raw < pow2(shift as nat)) by (nonlinear_arith)
                requires
                    raw as int == group_sum(s, k) + (s[k as int] % 128) * pow2(7 * k),
                    group_sum(s, k) < pow2(7 * k),
                    s[k as int] % 128 < 128,
                    pow2(shift as nat) == 128 * pow2(7 * k),
            {
            }
        }
        let value: i64 = if (byte & 0x40) != 0 {
            raw as i64 - (1u64 << shift) as i64
        } else {
            raw as i64
        };
        assert(value == group_value(s, k));
        if value < i32::MIN as i64 || value > i32::MAX as i64 {
            return Err(Error::MalformedVarInt);
        }
        Ok((VarInt(value as i32), pos + i))
    }

    /// Appends the canonical encoding.
    pub fn write_to(&self, out: &mut Vec<u8>)
        ensures
            final(out)@ == old(out)@ + varint_bytes(self.0 as int),
    {
        let mut value: i32 = self.0;
        loop
            invariant
                out@ + varint_bytes(value as int) == old(out)@ + varint_bytes(self.0 as int),
            decreases abs(value as int),
        {
            proof {
                lemma_group_split(value);
                lemma_group_shrinks(value as int);
            }
            let ghost before = out@;
            let ghost v = value as int;
            let byte: u8 = (value & 0x7f) as u8;
            value >>= 7;
            proof {
                lemma_byte_bits(byte);
            }
            let more = !((value == 0 && (byte & 0x40) == 0) || (value == -1 && (byte & 0x40) != 0));
            if more {
                out.push(byte | 0x80);
                assert(out@ + varint_bytes(value as int) =~= before + varint_bytes(v));
            } else {
                out.push(byte);
                assert(out@ =~= before + varint_bytes(v));
                return;
            }
        }
    }
}

/// A signed 64-bit integer carried in the variable-length wire form.
#[derive(Clone, Copy, PartialEq, Eq, PartialOrd, Ord, Debug, Structural)]
pub struct VarLong(pub i64);

impl VarLong {
    /// Number of bytes of the encoding, computed without writing them.
    pub fn length(&self) -> (r: usize)
        ensures
            r == varint_bytes(self.0 as int).len(),
            1 <= r <= 10,
    {
        let mut value: i64 = self.0;
        let mut len: usize = 0;
        proof {
            lemma_varint_i64_len(self.0);
        }
        loop
            invariant
                len + varint_bytes(value as int).len() == varint_bytes(self.0 as int).len(),
                varint_bytes(self.0 as int).len() <= 10,
            decreases abs(value as int),
        {
            proof {
                lemma_group_split_64(value);
                lemma_group_shrinks(value as int);
            }
            let byte: u8 = (value & 0x7f) as u8;
            value >>= 7;
            proof {
                lemma_byte_bits(byte);
            }
            let more = !((value == 0 && (byte & 0x40) == 0) || (value == -1 && (byte & 0x40) != 0));
            len += 1;
            if !more {
                return len;
            }
        }
    }

    /// Appends the canonical encoding.
    pub fn write_to(&self, out: &mut Vec<u8>)
        ensures
            final(out)@ == old(out)@ + varint_bytes(self.0 as int),
    {
        let mut value: i64 = self.0;
        loop
            invariant
                out@ + varint_bytes(value as int) == old(out)@ + varint_bytes(self.0 as int),
            decreases abs(value as int),
        {
            proof {
                lemma_group_split_64(value);
                lemma_group_shrinks(value as int);
            }
            let ghost before = out@;
            let ghost v = value as int;
            let byte: u8 = (value & 0x7f) as u8;
            value >>= 7;
            proof {
                lemma_byte_bits(byte);
            }
            let more = !((value == 0 && (byte & 0x40) == 0) || (value == -1 && (byte & 0x40) != 0));
            if more {
                out.push(byte | 0x80);
                assert(out@ + varint_bytes(value as int) =~= before + varint_bytes(v));
            } else {
                out.push(byte);
                assert(out@ =~= before + varint_bytes(v));
                return;
            }
        }
    }

    /// Reads the integer that starts at `pos`, returning it and the position
    /// after its last byte.
    pub fn read_from(buf: &[u8], pos: usize) -> (r: Result<(VarLong, usize), Error>)
        requires
            pos <= buf@.len(),
        ensures
            r is Ok <==> varlong_parse(buf@.skip(pos as int)) is Some,
            r matches Ok((v, end)) ==> pos < end <= buf@.len(),
            r matches Ok((v, end)) ==> varlong_parse(buf@.skip(pos as int)) == Some(
                (v.0 as int, (end - pos) as nat),
            ),
            r matches Err(e) ==> if varlong_truncated(buf@.skip(pos as int)) {
                e is UnexpectedEof
            } else {
                e is MalformedVarInt
            },
    {
        let ghost s = buf@.skip(pos as int);
        let mut raw: u128 = 0;
        let mut scale: u128 = 1;
        let mut i: usize = 0;
        let mut byte: u8;
        let n = buf.len();
        proof {
            lemma2_to64();
            lemma2_to64_rest();
        }
        loop
            invariant_except_break
                i < 10,
                raw as int == group_sum(s, i as nat),
                scale as int == pow2(7 * i as nat),
                forall|j: int| 0 <= j < i ==> s[j] >= 128,
            invariant
                pos + i <= buf@.len(),
                n == buf@.len(),
                s == buf@.skip(pos as int),
                pow2(63) == 0x8000_0000_0000_0000,
            ensures
                1 <= i <= 10,
                pos + i <= buf@.len(),
                s == buf@.skip(pos as int),
                raw as int == group_sum(s, i as nat),
                raw < scale,
                scale <= 0x8000_0000_0000_0000 * 128,
                scale as int == pow2(7 * i as nat),
                s[i - 1] == byte,
                byte < 128,
                forall|j: int| 0 <= j < i - 1 ==> s[j] >= 128,
            decreases 10 - i,
        {
            if i >= n - pos {
                proof {
                    lemma_terminal_after(s, i as nat);
                }
                return Err(Error::UnexpectedEof);
            }
            byte = buf[pos + i];
            proof {
                assert(s[i as int] == byte);
                lemma2_to64();
                lemma_byte_bits(byte);
                lemma_group_sum_step(s, i as nat);
                lemma_pow2_adds(7 * i as nat, 7);
                if i < 9 {
                    vstd::arithmetic::power2::lemma_pow2_strictly_increases(7 * i as nat, 63);
                }
                assert(scale <= 0x8000_0000_0000_0000);
                assert(raw + (byte & 0x7f) as int * scale < scale * 128) by (nonlinear_arith)
                    requires
                        raw < scale,
                        (byte & 0x7f) < 128,
                ;
            }
            raw = raw + ((byte & 0x7f) as u128) * scale;
            scale = scale * 128;
            i += 1;
            if (byte & 0x80) == 0 {
                break;
            }
            assert(s[i - 1] >= 128);
            if i == 10 {
                proof {
                    lemma_terminal_after(s, i as nat);
                }
                return Err(Error::MalformedVarInt);
            }
        }
        let ghost k = (i - 1) as nat;
        proof {
            lemma_terminal_after(s, k);
            lemma_byte_bits(byte);
            assert(7 * (k + 1) == 7 * i);
        }
        let value: i128 = if (byte & 0x40) != 0 {
            raw as i128 - scale as i128
        } else {
            raw as i128
        };
        assert(value == group_value(s, k));
        if value < i64::MIN as i128 || value > i64::MAX as i128 {
            return Err(Error::MalformedVarInt);
        }
        Ok((VarLong(value as i64), pos + i))
    }
}

} // verus!
