//! Variable-length integer and zigzag codec used by the Compact encoding.
//!
//! A varint stores an unsigned 64-bit integer in little-endian groups of
//! seven bits, each carried in one byte whose high bit says whether another
//! byte follows; at most ten bytes are consumed. Zigzag maps signed integers
//! onto unsigned ones so that values of small magnitude stay short under
//! varint encoding.

use vstd::prelude::*;

use crate::cursor::ByteCursor;
use crate::errors::DecodeError;

verus! {

/// Decoding state after some continuation bytes have been folded into `acc`
/// with the bits of the next byte due at position `shift`. Fails with
/// `Truncated` when the buffer ends before a terminating byte and with
/// `Overflow` when a terminating byte would be the eleventh.
pub open spec fn spec_decode_varint_from(s: Seq<u8>, pos: int, acc: u64, shift: u64) -> Result<
    (u64, int),
    DecodeError,
>
    decreases 70 - shift,
{
    if shift > 63 {
        Err(DecodeError::Overflow)
    } else if pos < 0 || pos >= s.len() {
        Err(DecodeError::Truncated)
    } else {
        let b = s[pos];
        let v = acc | (((b & 0x7f) as u64) << shift);
        if b & 0x80 == 0 {
            Ok((v, pos + 1))
        } else {
            spec_decode_varint_from(s, pos + 1, v, (shift + 7) as u64)
        }
    }
}

/// What decoding a varint at position `pos` of `s` yields: the value and the
/// position just past its last byte, or the error that stops it.
pub open spec fn spec_decode_varint(s: Seq<u8>, pos: int) -> Result<(u64, int), DecodeError> {
    spec_decode_varint_from(s, pos, 0, 0)
}

/// The bytes that encode `u` as a varint: seven bits at a time, least
/// significant group first, the high bit marking continuation.
pub open spec fn spec_encode_varint(u: u64) -> Seq<u8>
    decreases u,
        via spec_encode_varint_decreases
{
    if u < 0x80 {
        seq![u as u8]
    } else {
        seq![(((u & 0x7f) | 0x80) as u8)] + spec_encode_varint(u >> 7)
    }
}

#[via_fn]
proof fn spec_encode_varint_decreases(u: u64) {
    assert(u >= 0x80 ==> (u >> 7) < u) by (bit_vector);
}

/// The signed value that the zigzag mapping assigns to `u`: even values come
/// from non-negative integers, odd values from negative ones.
pub open spec fn spec_zigzag_decode64(u: u64) -> i64 {
    if u % 2 == 0 {
        ((u as int) / 2) as i64
    } else {
        (-((u as int) / 2) - 1) as i64
    }
}

/// The unsigned value that the zigzag mapping assigns to `n`.
pub open spec fn spec_zigzag_encode64(n: i64) -> u64 {
    if n >= 0 {
        (2 * (n as int)) as u64
    } else {
        (-2 * (n as int) - 1) as u64
    }
}

/// The 32-bit zigzag mapping, unsigned to signed.
pub open spec fn spec_zigzag_decode32(u: u32) -> i32 {
    if u % 2 == 0 {
        ((u as int) / 2) as i32
    } else {
        (-((u as int) / 2) - 1) as i32
    }
}

/// The 32-bit zigzag mapping, signed to unsigned.
pub open spec fn spec_zigzag_encode32(n: i32) -> u32 {
    if n >= 0 {
        (2 * (n as int)) as u32
    } else {
        (-2 * (n as int) - 1) as u32
    }
}

/// Decodes one varint at the cursor.
pub fn decode_varint(cur: &mut ByteCursor) -> (r: Result<u64, DecodeError>)
    requires
        old(cur).wf(),
    ensures
        final(cur).wf(),
        final(cur).data@ == old(cur).data@,
        final(cur).pos >= old(cur).pos,
        match spec_decode_varint(old(cur).data@, old(cur).pos as int) {
            Ok(pair) => r == Ok::<u64, DecodeError>(pair.0) && final(cur).pos == pair.1 && pair.1
                > old(cur).pos,
            Err(e) => r == Err::<u64, DecodeError>(e),
        },
{
    let mut acc: u64 = 0;
    let mut shift: u64 = 0;
    loop
        invariant
            cur.wf(),
            cur.data@ == old(cur).data@,
            cur.pos >= old(cur).pos,
            shift <= 70,
            shift % 7 == 0,
            shift > 0 ==> cur.pos > old(cur).pos,
            spec_decode_varint(old(cur).data@, old(cur).pos as int) == spec_decode_varint_from(
                old(cur).data@,
                cur.pos as int,
                acc,
                shift,
            ),
        decreases 70 - shift,
    {
        if shift > 63 {
            return Err(DecodeError::Overflow);
        }
        match cur.read_u8() {
            Err(e) => {
                return Err(e);
            },
            Ok(b) => {
                let low: u64 = (b & 0x7f) as u64;
                acc = acc | (low << shift);
                if b & 0x80 == 0 {
                    return Ok(acc);
                }
                shift = shift + 7;
            },
        }
    }
}

/// Appends the varint encoding of `u` to `out`.
fn push_varint(u: u64, out: &mut Vec<u8>)
    ensures
        final(out)@ == old(out)@ + spec_encode_varint(u),
    decreases u,
{
    if u < 0x80 {
        out.push(u as u8);
        proof {
            assert(out@ =~= old(out)@ + spec_encode_varint(u));
        }
    } else {
        proof {
            assert((u & 0x7f) < 0x80 && (u >> 7) < u) by (bit_vector)
                requires
                    u >= 0x80,
            ;
        }
        let b: u8 = ((u & 0x7f) as u8) | 0x80;
        proof {
            assert((((u & 0x7f) as u8) | 0x80) == (((u & 0x7f) | 0x80) as u8)) by (bit_vector);
        }
        out.push(b);
        push_varint(u >> 7, out);
        proof {
            assert(out@ =~= old(out)@ + spec_encode_varint(u));
        }
    }
}

/// Encodes `u` as a varint.
pub fn encode_varint(u: u64) -> (r: Vec<u8>)
    ensures
        r@ == spec_encode_varint(u),
{
    let mut out: Vec<u8> = Vec::new();
    push_varint(u, &mut out);
    proof {
        assert(out@ =~= spec_encode_varint(u));
    }
    out
}

/// Recovers the signed value from a zigzag-mapped unsigned one.
pub fn zigzag_decode64(u: u64) -> (r: i64)
    ensures
        r == spec_zigzag_decode64(u),
{
    proof {
        assert(u % 2 == (u & 1) && u / 2 == (u >> 1) && (u >> 1) < 0x8000_0000_0000_0000)
            by (bit_vector);
    }
    if u & 1 == 0 {
        (u >> 1) as i64
    } else {
        -((u >> 1) as i64) - 1
    }
}

/// Maps a signed value onto its zigzag unsigned form.
pub fn zigzag_encode64(n: i64) -> (r: u64)
    ensures
        r == spec_zigzag_encode64(n),
{
    if n >= 0 {
        (n as u64) * 2
    } else {
        let m: u64 = (-(n + 1)) as u64;
        m * 2 + 1
    }
}

/// Recovers the signed value from a 32-bit zigzag-mapped unsigned one.
pub fn zigzag_decode32(u: u32) -> (r: i32)
    ensures
        r == spec_zigzag_decode32(u),
{
    proof {
        assert(u % 2 == (u & 1) && u / 2 == (u >> 1) && (u >> 1) < 0x8000_0000) by (bit_vector);
    }
    if u & 1 == 0 {
        (u >> 1) as i32
    } else {
        -((u >> 1) as i32) - 1
    }
}

/// Maps a signed 32-bit value onto its zigzag unsigned form.
pub fn zigzag_encode32(n: i32) -> (r: u32)
    ensures
        r == spec_zigzag_encode32(n),
{
    if n >= 0 {
        (n as u32) * 2
    } else {
        let m: u32 = (-(n + 1)) as u32;
        m * 2 + 1
    }
}

/// A varint that decodes consumes at least one byte and stays in the buffer.
pub proof fn lemma_varint_bounds(s: Seq<u8>, pos: int)
    ensures
        match spec_decode_varint(s, pos) {
            Ok(pair) => pos < pair.1 <= s.len(),
            Err(_) => true,
        },
{
    lemma_varint_from_bounds(s, pos, 0, 0);
}

proof fn lemma_varint_from_bounds(s: Seq<u8>, pos: int, acc: u64, shift: u64)
    ensures
        match spec_decode_varint_from(s, pos, acc, shift) {
            Ok(pair) => pos < pair.1 <= s.len(),
            Err(_) => true,
        },
    decreases 70 - shift,
{
    if shift <= 63 && 0 <= pos < s.len() {
        let b = s[pos];
        if b & 0x80 != 0 {
            let v = acc | (((b & 0x7f) as u64) << shift);
            lemma_varint_from_bounds(s, pos + 1, v, (shift + 7) as u64);
        }
    }
}

/// Truncating the buffer behind a decoded varint leaves it unchanged;
/// truncating inside it turns the decode into `Truncated`.
pub proof fn lemma_varint_prefix(s: Seq<u8>, t: int, pos: int)
    requires
        0 <= pos <= t <= s.len(),
    ensures
        match spec_decode_varint(s, pos) {
            Ok(pair) => if pair.1 <= t {
                spec_decode_varint(s.take(t), pos) == spec_decode_varint(s, pos)
            } else {
                spec_decode_varint(s.take(t), pos) == Err::<(u64, int), DecodeError>(
                    DecodeError::Truncated,
                )
            },
            Err(_) => true,
        },
{
    lemma_varint_from_prefix(s, t, pos, 0, 0);
}

proof fn lemma_varint_from_prefix(s: Seq<u8>, t: int, pos: int, acc: u64, shift: u64)
    requires
        0 <= pos <= t <= s.len(),
    ensures
        match spec_decode_varint_from(s, pos, acc, shift) {
            Ok(pair) => if pair.1 <= t {
                spec_decode_varint_from(s.take(t), pos, acc, shift) == spec_decode_varint_from(
                    s,
                    pos,
                    acc,
                    shift,
                )
            } else {
                spec_decode_varint_from(s.take(t), pos, acc, shift) == Err::<(u64, int),
                    DecodeError,
                >(DecodeError::Truncated)
            },
            Err(_) => true,
        },
    decreases 70 - shift,
{
    let u = s.take(t);
    assert(u.len() == t);
    if shift <= 63 && 0 <= pos < s.len() {
        let b = s[pos];
        if pos < t {
            assert(u[pos] == b);
        }
        if b & 0x80 != 0 {
            let v = acc | (((b & 0x7f) as u64) << shift);
            lemma_varint_from_bounds(s, pos + 1, v, (shift + 7) as u64);
            if pos + 1 <= t {
                lemma_varint_from_prefix(s, t, pos + 1, v, (shift + 7) as u64);
            }
        }
    }
}

/// Decoding the encoding of `u2` placed at the tail of `s` resumes cleanly
/// from any intermediate decoder state that still has room for its bits.
proof fn lemma_decode_encode_from(s: Seq<u8>, pos: int, u2: u64, acc: u64, shift: u64)
    requires
        0 <= pos,
        s.len() == pos + spec_encode_varint(u2).len(),
        s.subrange(pos, s.len() as int) == spec_encode_varint(u2),
        shift % 7 == 0,
        shift <= 63,
        u2 <= u64::MAX >> shift,
    ensures
        spec_decode_varint_from(s, pos, acc, shift) == Ok::<(u64, int), DecodeError>(
            (acc | (u2 << shift), s.len() as int),
        ),
    decreases u2,
{
    let enc = spec_encode_varint(u2);
    assert(s.subrange(pos, s.len() as int)[0] == s[pos]);
    if u2 < 0x80 {
        assert(s[pos] == (u2 as u8));
        assert((u2 as u8) & 0x80 == 0 && (((u2 as u8) & 0x7f) as u64) == u2) by (bit_vector)
            requires
                u2 < 0x80,
        ;
    } else {
        let b0: u8 = ((u2 & 0x7f) | 0x80) as u8;
        assert(s[pos] == b0);
        assert(b0 & 0x80 != 0) by (bit_vector)
            requires
                b0 == ((u2 & 0x7f) | 0x80) as u8,
        ;
        assert(shift <= 56) by (bit_vector)
            requires
                shift % 7 == 0,
                shift <= 63,
                u2 >= 0x80,
                u2 <= u64::MAX >> shift,
        ;
        let v = acc | (((b0 & 0x7f) as u64) << shift);
        let u3 = u2 >> 7;
        let enc3 = spec_encode_varint(u3);
        assert(enc == seq![b0] + enc3);
        assert(s.subrange(pos + 1, s.len() as int) =~= enc3) by {
            assert forall|i: int| 0 <= i < enc3.len() implies s.subrange(
                pos + 1,
                s.len() as int,
            )[i] == enc3[i] by {
                assert(s.subrange(pos, s.len() as int)[i + 1] == s[pos + 1 + i]);
                assert((seq![b0] + enc3)[i + 1] == enc3[i]);
            }
        }
        assert(u3 <= u64::MAX >> ((shift + 7) as u64) && u3 < u2) by (bit_vector)
            requires
                u3 == u2 >> 7,
                shift <= 56,
                u2 >= 0x80,
                u2 <= u64::MAX >> shift,
        ;
        lemma_decode_encode_from(s, pos + 1, u3, v, (shift + 7) as u64);
        assert((v | (u3 << ((shift + 7) as u64))) == (acc | (u2 << shift))) by (bit_vector)
            requires
                v == acc | ((((((u2 & 0x7f) | 0x80) as u8) & 0x7f) as u64) << shift),
                u3 == u2 >> 7,
                shift <= 56,
                u2 <= u64::MAX >> shift,
        ;
    }
}

/// Law: a varint encoding always decodes back to the value it encodes,
/// consuming exactly its own bytes.
pub proof fn lemma_varint_round_trip(u: u64)
    ensures
        spec_decode_varint(spec_encode_varint(u), 0) == Ok::<(u64, int), DecodeError>(
            (u, spec_encode_varint(u).len() as int),
        ),
{
    let enc = spec_encode_varint(u);
    assert(enc.subrange(0, enc.len() as int) =~= enc);
    assert(u <= u64::MAX >> 0u64) by (bit_vector);
    lemma_decode_encode_from(enc, 0, u, 0, 0);
    assert((0u64 | (u << 0u64)) == u) by (bit_vector);
}

/// Law: the zigzag mappings are mutually inverse on 64-bit values.
pub proof fn lemma_zigzag_round_trip64(n: i64)
    ensures
        spec_zigzag_decode64(spec_zigzag_encode64(n)) == n,
{
}

/// Law: the zigzag mappings are mutually inverse on 32-bit values.
pub proof fn lemma_zigzag_round_trip32(n: i32)
    ensures
        spec_zigzag_decode32(spec_zigzag_encode32(n)) == n,
{
}

/// Law: zigzag-encoding a signed 64-bit value, writing it as a varint,
/// decoding that varint and zigzag-decoding the result give the value back.
pub proof fn lemma_varint_zigzag_round_trip64(n: i64)
    ensures
        spec_decode_varint(spec_encode_varint(spec_zigzag_encode64(n)), 0)
            matches Ok(pair) && spec_zigzag_decode64(pair.0) == n && pair.1 == spec_encode_varint(
            spec_zigzag_encode64(n),
        ).len(),
{
    lemma_varint_round_trip(spec_zigzag_encode64(n));
    lemma_zigzag_round_trip64(n);
}

/// Law: the same round trip holds for signed 32-bit values carried through
/// the 32-bit zigzag mapping.
pub proof fn lemma_varint_zigzag_round_trip32(n: i32)
    ensures
        spec_decode_varint(spec_encode_varint(spec_zigzag_encode32(n) as u64), 0)
            matches Ok(pair) && spec_zigzag_decode32(pair.0 as u32) == n && pair.1
            == spec_encode_varint(spec_zigzag_encode32(n) as u64).len(),
{
    lemma_varint_round_trip(spec_zigzag_encode32(n) as u64);
    lemma_zigzag_round_trip32(n);
}

} // verus!
