//! Recursive decoding of a field list into typed values.
//!
//! A field list is a run of fields ended by a STOP tag; buffer exhaustion
//! without a STOP is tolerated as end of message. Each field carries a type
//! tag, a field id and a value; struct, list, set and map values nest, with
//! the nesting depth bounded so adversarial input cannot exhaust the stack.
//! The spec functions here define the decoding exactly; the executable
//! decoder is proved to return precisely what they describe.

use vstd::prelude::*;

use crate::cursor::ByteCursor;
use crate::cursor::spec_be16;
use crate::cursor::spec_be32;
use crate::cursor::spec_be64;
use crate::cursor::spec_i16_of_u16;
use crate::cursor::spec_i32_of_u32;
use crate::cursor::spec_i64_of_u64;
use crate::detect::ProtocolVariant;
use crate::errors::DecodeError;
use crate::varint::decode_varint;
use crate::varint::spec_decode_varint;
use crate::varint::spec_zigzag_decode64;
use crate::varint::zigzag_decode64;

verus! {

broadcast use vstd::std_specs::vec::group_vec_axioms;

/// Tag ending a field list.
pub const TAG_STOP: u8 = 0x00;

/// Tag of a boolean field.
pub const TAG_BOOL: u8 = 0x02;

/// Tag of a single-byte field.
pub const TAG_BYTE: u8 = 0x03;

/// Tag of a double-precision field, carried as its raw bit pattern.
pub const TAG_DOUBLE: u8 = 0x04;

/// Tag of a 16-bit signed integer field.
pub const TAG_I16: u8 = 0x06;

/// Tag of a 32-bit signed integer field.
pub const TAG_I32: u8 = 0x08;

/// Tag of a 64-bit signed integer field.
pub const TAG_I64: u8 = 0x0a;

/// Tag of a length-prefixed string field.
pub const TAG_STRING: u8 = 0x0b;

/// Tag of a nested struct field.
pub const TAG_STRUCT: u8 = 0x0c;

/// Tag of a map field.
pub const TAG_MAP: u8 = 0x0d;

/// Tag of a set field.
pub const TAG_SET: u8 = 0x0e;

/// Tag of a list field.
pub const TAG_LIST: u8 = 0x0f;

/// How deeply structs, lists, sets and maps may nest.
pub const MAX_NESTING_DEPTH: usize = 64;

/// A decoded value of one field or container element.
///
/// A double is kept as the raw bits of its eight big-endian bytes, and a
/// string as its raw bytes; interpreting either is left to the caller.
#[derive(Debug, PartialEq)]
pub enum Value {
    Bool(bool),
    Byte(u8),
    I16(i16),
    I32(i32),
    I64(i64),
    DoubleBits(u64),
    Text(Vec<u8>),
    Struct(Vec<Field>),
    ListOf(u8, Vec<Value>),
    SetOf(u8, Vec<Value>),
    MapOf(u8, u8, Vec<(Value, Value)>),
}

/// One decoded field: its id and its value.
#[derive(Debug, PartialEq)]
pub struct Field {
    pub id: u16,
    pub value: Value,
}

/// The mathematical shape of a decoded value.
pub enum SpecValue {
    Bool(bool),
    Byte(u8),
    I16(i16),
    I32(i32),
    I64(i64),
    DoubleBits(u64),
    Text(Seq<u8>),
    Struct(Seq<SpecField>),
    ListOf(u8, Seq<SpecValue>),
    SetOf(u8, Seq<SpecValue>),
    MapOf(u8, u8, Seq<(SpecValue, SpecValue)>),
}

/// The mathematical shape of a decoded field.
pub struct SpecField {
    pub id: u16,
    pub value: SpecValue,
}

/// The abstraction of a `Value`, element by element.
pub open spec fn spec_value_view(v: Value) -> SpecValue
    decreases v,
{
    match v {
        Value::Bool(b) => SpecValue::Bool(b),
        Value::Byte(b) => SpecValue::Byte(b),
        Value::I16(n) => SpecValue::I16(n),
        Value::I32(n) => SpecValue::I32(n),
        Value::I64(n) => SpecValue::I64(n),
        Value::DoubleBits(n) => SpecValue::DoubleBits(n),
        Value::Text(bytes) => SpecValue::Text(bytes@),
        Value::Struct(fs) => SpecValue::Struct(
            Seq::new(
                fs@.len(),
                |i: int|
                    if 0 <= i < fs@.len() {
                        SpecField { id: fs@[i].id, value: spec_value_view(fs@[i].value) }
                    } else {
                        SpecField { id: 0, value: SpecValue::Bool(false) }
                    },
            ),
        ),
        Value::ListOf(etag, vs) => SpecValue::ListOf(
            etag,
            Seq::new(
                vs@.len(),
                |i: int|
                    if 0 <= i < vs@.len() {
                        spec_value_view(vs@[i])
                    } else {
                        SpecValue::Bool(false)
                    },
            ),
        ),
        Value::SetOf(etag, vs) => SpecValue::SetOf(
            etag,
            Seq::new(
                vs@.len(),
                |i: int|
                    if 0 <= i < vs@.len() {
                        spec_value_view(vs@[i])
                    } else {
                        SpecValue::Bool(false)
                    },
            ),
        ),
        Value::MapOf(ktag, vtag, ps) => SpecValue::MapOf(
            ktag,
            vtag,
            Seq::new(
                ps@.len(),
                |i: int|
                    if 0 <= i < ps@.len() {
                        (spec_value_view(ps@[i].0), spec_value_view(ps@[i].1))
                    } else {
                        (SpecValue::Bool(false), SpecValue::Bool(false))
                    },
            ),
        ),
    }
}

impl View for Value {
    type V = SpecValue;

    open spec fn view(&self) -> SpecValue {
        spec_value_view(*self)
    }
}

impl View for Field {
    type V = SpecField;

    open spec fn view(&self) -> SpecField {
        SpecField { id: self.id, value: spec_value_view(self.value) }
    }
}

/// The abstraction of a sequence of decoded fields.
pub open spec fn fields_view(s: Seq<Field>) -> Seq<SpecField> {
    s.map_values(|f: Field| f@)
}

/// The abstraction of a sequence of decoded values.
pub open spec fn values_view(s: Seq<Value>) -> Seq<SpecValue> {
    s.map_values(|x: Value| x@)
}

/// The abstraction of a sequence of decoded key/value pairs.
pub open spec fn pairs_view(s: Seq<(Value, Value)>) -> Seq<(SpecValue, SpecValue)> {
    s.map_values(|p: (Value, Value)| (p.0@, p.1@))
}

/// The low sixteen bits of a signed value, as an unsigned field id.
pub open spec fn spec_u16_of_i64(n: i64) -> u16 {
    (((n as int) % 0x1_0000) + if (n as int) % 0x1_0000 < 0 {
        0x1_0000int
    } else {
        0int
    }) as u16
}

/// A position forced into the range `lo..=hi`. Reachable decoding states
/// never leave the range, so the clamp only keeps the recursion measure of
/// the spec decoders well founded on unreachable arguments.
pub open spec fn clamp_pos(p: int, lo: int, hi: int) -> int {
    if p < lo {
        lo
    } else if p > hi {
        hi
    } else {
        p
    }
}

/// What reading a length or element count at `pos` yields: a fixed four-byte
/// big-endian word for Binary, a varint for Compact.
pub open spec fn spec_read_count(s: Seq<u8>, pos: int, v: ProtocolVariant) -> Result<
    (u64, int),
    DecodeError,
> {
    match v {
        ProtocolVariant::Binary => if pos + 4 > s.len() {
            Err(DecodeError::Truncated)
        } else {
            Ok((spec_be32(s, pos) as u64, pos + 4))
        },
        ProtocolVariant::Compact => spec_decode_varint(s, pos),
    }
}

/// What reading a field id at `pos` yields: a two-byte big-endian word for
/// Binary, a zigzag varint reduced to sixteen bits for Compact.
pub open spec fn spec_read_field_id(s: Seq<u8>, pos: int, v: ProtocolVariant) -> Result<
    (u16, int),
    DecodeError,
> {
    match v {
        ProtocolVariant::Binary => if pos + 2 > s.len() {
            Err(DecodeError::Truncated)
        } else {
            Ok((spec_be16(s, pos), pos + 2))
        },
        ProtocolVariant::Compact => match spec_decode_varint(s, pos) {
            Err(e) => Err(e),
            Ok((u, p)) => Ok((spec_u16_of_i64(spec_zigzag_decode64(u)), p)),
        },
    }
}

/// The fewest bytes a value of the given tag can occupy, used to validate a
/// container's declared element count against the remaining buffer.
pub open spec fn spec_min_value_size(v: ProtocolVariant, tag: u8) -> int {
    if tag == TAG_BOOL || tag == TAG_BYTE {
        1
    } else if tag == TAG_I16 {
        2
    } else if tag == TAG_I32 {
        4
    } else if tag == TAG_I64 || tag == TAG_DOUBLE {
        8
    } else if tag == TAG_STRING {
        match v {
            ProtocolVariant::Binary => 4,
            ProtocolVariant::Compact => 1,
        }
    } else if tag == TAG_LIST || tag == TAG_SET {
        match v {
            ProtocolVariant::Binary => 5,
            ProtocolVariant::Compact => 2,
        }
    } else if tag == TAG_MAP {
        match v {
            ProtocolVariant::Binary => 6,
            ProtocolVariant::Compact => 3,
        }
    } else {
        1
    }
}

/// What decoding a field list at `pos` yields: the fields decoded before a
/// STOP tag, buffer exhaustion, or an error; the position after the list; and
/// the error that stopped it, if any. Fields already decoded are kept even
/// when a later field fails.
pub open spec fn spec_decode_fields(s: Seq<u8>, pos: int, v: ProtocolVariant, depth: int) -> (
    Seq<SpecField>,
    int,
    Option<DecodeError>,
)
    decreases s.len() - pos, MAX_NESTING_DEPTH - depth, 2int, 0int,
{
    if pos < 0 || pos >= s.len() {
        (Seq::empty(), pos, None)
    } else {
        let tag = s[pos];
        if tag == TAG_STOP {
            (Seq::empty(), pos + 1, None)
        } else {
            match spec_read_field_id(s, pos + 1, v) {
                Err(e) => (Seq::empty(), pos + 1, Some(e)),
                Ok((id, vpos0)) => {
                    let vpos = clamp_pos(vpos0, pos + 1, s.len() as int);
                    match spec_decode_value(s, vpos, v, tag, depth) {
                        Err(e) => (Seq::empty(), vpos, Some(e)),
                        Ok((val, p0)) => {
                            let p = clamp_pos(p0, vpos, s.len() as int);
                            let (rest, p2, err) = spec_decode_fields(s, p, v, depth);
                            (seq![SpecField { id, value: val }] + rest, p2, err)
                        },
                    }
                },
            }
        }
    }
}

/// What decoding one value of type `tag` at `pos` yields: the value and the
/// position after it, or the error that stops decoding.
pub open spec fn spec_decode_value(s: Seq<u8>, pos: int, v: ProtocolVariant, tag: u8, depth: int)
    -> Result<(SpecValue, int), DecodeError>
    decreases s.len() - pos, MAX_NESTING_DEPTH - depth, 1int, 0int,
{
    if tag == TAG_BOOL {
        if pos + 1 > s.len() {
            Err(DecodeError::Truncated)
        } else {
            Ok((SpecValue::Bool(s[pos] != 0), pos + 1))
        }
    } else if tag == TAG_BYTE {
        if pos + 1 > s.len() {
            Err(DecodeError::Truncated)
        } else {
            Ok((SpecValue::Byte(s[pos]), pos + 1))
        }
    } else if tag == TAG_I16 {
        if pos + 2 > s.len() {
            Err(DecodeError::Truncated)
        } else {
            Ok((SpecValue::I16(spec_i16_of_u16(spec_be16(s, pos))), pos + 2))
        }
    } else if tag == TAG_I32 {
        if pos + 4 > s.len() {
            Err(DecodeError::Truncated)
        } else {
            Ok((SpecValue::I32(spec_i32_of_u32(spec_be32(s, pos))), pos + 4))
        }
    } else if tag == TAG_I64 {
        if pos + 8 > s.len() {
            Err(DecodeError::Truncated)
        } else {
            Ok((SpecValue::I64(spec_i64_of_u64(spec_be64(s, pos))), pos + 8))
        }
    } else if tag == TAG_DOUBLE {
        if pos + 8 > s.len() {
            Err(DecodeError::Truncated)
        } else {
            Ok((SpecValue::DoubleBits(spec_be64(s, pos)), pos + 8))
        }
    } else if tag == TAG_STRING {
        match spec_read_count(s, pos, v) {
            Err(e) => Err(e),
            Ok((n, p0)) => {
                let p = clamp_pos(p0, pos, s.len() as int);
                if p + n > s.len() {
                    Err(DecodeError::Truncated)
                } else {
                    Ok((SpecValue::Text(s.subrange(p, p + n)), p + n))
                }
            },
        }
    } else if tag == TAG_STRUCT {
        if depth >= MAX_NESTING_DEPTH {
            Err(DecodeError::RecursionLimitExceeded)
        } else {
            let (flds, p2, err) = spec_decode_fields(s, pos, v, depth + 1);
            match err {
                Some(e) => Err(e),
                None => Ok((SpecValue::Struct(flds), p2)),
            }
        }
    } else if tag == TAG_LIST || tag == TAG_SET {
        if depth >= MAX_NESTING_DEPTH {
            Err(DecodeError::RecursionLimitExceeded)
        } else if pos < 0 || pos >= s.len() {
            Err(DecodeError::Truncated)
        } else {
            let etag = s[pos];
            match spec_read_count(s, pos + 1, v) {
                Err(e) => Err(e),
                Ok((n, p0)) => {
                    let p = clamp_pos(p0, pos + 1, s.len() as int);
                    if n * spec_min_value_size(v, etag) > s.len() - p {
                        Err(DecodeError::CountOverflow)
                    } else {
                        match spec_decode_elems(s, p, v, etag, n as int, depth + 1) {
                            Err(e) => Err(e),
                            Ok((vals, p2)) => Ok(
                                (
                                    if tag == TAG_LIST {
                                        SpecValue::ListOf(etag, vals)
                                    } else {
                                        SpecValue::SetOf(etag, vals)
                                    },
                                    p2,
                                ),
                            ),
                        }
                    }
                },
            }
        }
    } else if tag == TAG_MAP {
        if depth >= MAX_NESTING_DEPTH {
            Err(DecodeError::RecursionLimitExceeded)
        } else if pos < 0 || pos + 2 > s.len() {
            Err(DecodeError::Truncated)
        } else {
            let ktag = s[pos];
            let vtag = s[pos + 1];
            match spec_read_count(s, pos + 2, v) {
                Err(e) => Err(e),
                Ok((n, p0)) => {
                    let p = clamp_pos(p0, pos + 1, s.len() as int);
                    if n * (spec_min_value_size(v, ktag) + spec_min_value_size(v, vtag)) > s.len()
                        - p {
                        Err(DecodeError::CountOverflow)
                    } else {
                        match spec_decode_pairs(s, p, v, ktag, vtag, n as int, depth + 1) {
                            Err(e) => Err(e),
                            Ok((prs, p2)) => Ok((SpecValue::MapOf(ktag, vtag, prs), p2)),
                        }
                    }
                },
            }
        }
    } else {
        Err(DecodeError::UnsupportedFieldType)
    }
}

/// What decoding `n` consecutive values of type `etag` yields.
pub open spec fn spec_decode_elems(
    s: Seq<u8>,
    pos: int,
    v: ProtocolVariant,
    etag: u8,
    n: int,
    depth: int,
) -> Result<(Seq<SpecValue>, int), DecodeError>
    decreases s.len() - pos, MAX_NESTING_DEPTH - depth, 1int, n,
{
    if n <= 0 {
        Ok((Seq::empty(), pos))
    } else if pos < 0 || pos > s.len() {
        Err(DecodeError::Truncated)
    } else {
        match spec_decode_value(s, pos, v, etag, depth) {
            Err(e) => Err(e),
            Ok((val, p0)) => {
                let p = clamp_pos(p0, pos, s.len() as int);
                match spec_decode_elems(s, p, v, etag, n - 1, depth) {
                    Err(e) => Err(e),
                    Ok((rest, p2)) => Ok((seq![val] + rest, p2)),
                }
            },
        }
    }
}

/// Sequence views distribute over appending one element.
proof fn lemma_values_view_push(s: Seq<Value>, v: Value)
    ensures
        values_view(s.push(v)) == values_view(s) + seq![v@],
{
    assert(values_view(s.push(v)) =~= values_view(s) + seq![v@]);
}

/// Sequence views distribute over appending one field.
proof fn lemma_fields_view_push(s: Seq<Field>, f: Field)
    ensures
        fields_view(s.push(f)) == fields_view(s) + seq![f@],
{
    assert(fields_view(s.push(f)) =~= fields_view(s) + seq![f@]);
}

/// Sequence views distribute over appending one pair.
proof fn lemma_pairs_view_push(s: Seq<(Value, Value)>, k: Value, v: Value)
    ensures
        pairs_view(s.push((k, v))) == pairs_view(s) + seq![(k@, v@)],
{
    assert(pairs_view(s.push((k, v))) =~= pairs_view(s) + seq![(k@, v@)]);
}

/// The view of a struct value is the view of its fields.
proof fn lemma_view_of_struct(fs: Vec<Field>)
    ensures
        spec_value_view(Value::Struct(fs)) == SpecValue::Struct(fields_view(fs@)),
{
    match spec_value_view(Value::Struct(fs)) {
        SpecValue::Struct(sf) => {
            assert(sf =~= fields_view(fs@));
        },
        _ => {
            assert(false);
        },
    }
}

/// The view of a list value is the view of its elements.
proof fn lemma_view_of_list(etag: u8, vs: Vec<Value>)
    ensures
        spec_value_view(Value::ListOf(etag, vs)) == SpecValue::ListOf(etag, values_view(vs@)),
{
    match spec_value_view(Value::ListOf(etag, vs)) {
        SpecValue::ListOf(_, sv) => {
            assert(sv =~= values_view(vs@));
        },
        _ => {
            assert(false);
        },
    }
}

/// The view of a set value is the view of its elements.
proof fn lemma_view_of_set(etag: u8, vs: Vec<Value>)
    ensures
        spec_value_view(Value::SetOf(etag, vs)) == SpecValue::SetOf(etag, values_view(vs@)),
{
    match spec_value_view(Value::SetOf(etag, vs)) {
        SpecValue::SetOf(_, sv) => {
            assert(sv =~= values_view(vs@));
        },
        _ => {
            assert(false);
        },
    }
}

/// The view of a map value is the view of its pairs.
proof fn lemma_view_of_map(ktag: u8, vtag: u8, ps: Vec<(Value, Value)>)
    ensures
        spec_value_view(Value::MapOf(ktag, vtag, ps)) == SpecValue::MapOf(
            ktag,
            vtag,
            pairs_view(ps@),
        ),
{
    match spec_value_view(Value::MapOf(ktag, vtag, ps)) {
        SpecValue::MapOf(_, _, sp) => {
            assert(sp =~= pairs_view(ps@));
        },
        _ => {
            assert(false);
        },
    }
}

/// A count exceeds what the remaining bytes can hold exactly when it exceeds
/// the quotient of the remaining bytes by the least element size.
proof fn lemma_count_check(n: int, min: int, rem: int)
    requires
        min >= 1,
        rem >= 0,
        n >= 0,
    ensures
        (n > rem / min) <==> (n * min > rem),
{
    vstd::arithmetic::div_mod::lemma_fundamental_div_mod(rem, min);
    let q = rem / min;
    let r = rem % min;
    assert(0 <= r < min);
    assert(min * q + r == rem);
    if n > q {
        assert(n * min >= (q + 1) * min) by (nonlinear_arith)
            requires
                n >= q + 1,
                min >= 1,
        ;
        assert((q + 1) * min == q * min + min) by (nonlinear_arith);
        assert(q * min == min * q) by (nonlinear_arith);
        assert(n * min > rem);
    } else {
        assert(n * min <= q * min) by (nonlinear_arith)
            requires
                n <= q,
                n >= 0,
                min >= 1,
                q >= 0,
        ;
        assert(q * min == min * q) by (nonlinear_arith);
        assert(n * min <= rem);
    }
}

/// What decoding `n` consecutive key/value pairs yields.
pub open spec fn spec_decode_pairs(
    s: Seq<u8>,
    pos: int,
    v: ProtocolVariant,
    ktag: u8,
    vtag: u8,
    n: int,
    depth: int,
) -> Result<(Seq<(SpecValue, SpecValue)>, int), DecodeError>
    decreases s.len() - pos, MAX_NESTING_DEPTH - depth, 1int, n,
{
    if n <= 0 {
        Ok((Seq::empty(), pos))
    } else if pos < 0 || pos > s.len() {
        Err(DecodeError::Truncated)
    } else {
        match spec_decode_value(s, pos, v, ktag, depth) {
            Err(e) => Err(e),
            Ok((key, pk0)) => {
                let pk = clamp_pos(pk0, pos, s.len() as int);
                match spec_decode_value(s, pk, v, vtag, depth) {
                    Err(e) => Err(e),
                    Ok((val, pv0)) => {
                        let pv = clamp_pos(pv0, pk, s.len() as int);
                        match spec_decode_pairs(s, pv, v, ktag, vtag, n - 1, depth) {
                            Err(e) => Err(e),
                            Ok((rest, p2)) => Ok((seq![(key, val)] + rest, p2)),
                        }
                    },
                }
            },
        }
    }
}

/// Reads a length or element count at the cursor, in the variant's encoding.
fn read_count(cur: &mut ByteCursor, variant: ProtocolVariant) -> (r: Result<u64, DecodeError>)
    requires
        old(cur).wf(),
    ensures
        final(cur).wf(),
        final(cur).data@ == old(cur).data@,
        final(cur).pos >= old(cur).pos,
        match spec_read_count(old(cur).data@, old(cur).pos as int, variant) {
            Ok(pair) => r == Ok::<u64, DecodeError>(pair.0) && final(cur).pos == pair.1 && pair.1
                > old(cur).pos,
            Err(e) => r == Err::<u64, DecodeError>(e),
        },
{
    match variant {
        ProtocolVariant::Binary => match cur.read_u32_be() {
            Ok(x) => Ok(x as u64),
            Err(e) => Err(e),
        },
        ProtocolVariant::Compact => decode_varint(cur),
    }
}

/// Reads a field id at the cursor, in the variant's encoding.
fn read_field_id(cur: &mut ByteCursor, variant: ProtocolVariant) -> (r: Result<u16, DecodeError>)
    requires
        old(cur).wf(),
    ensures
        final(cur).wf(),
        final(cur).data@ == old(cur).data@,
        final(cur).pos >= old(cur).pos,
        match spec_read_field_id(old(cur).data@, old(cur).pos as int, variant) {
            Ok(pair) => r == Ok::<u16, DecodeError>(pair.0) && final(cur).pos == pair.1 && pair.1
                > old(cur).pos,
            Err(e) => r == Err::<u16, DecodeError>(e),
        },
{
    match variant {
        ProtocolVariant::Binary => match cur.read_u16_be() {
            Ok(x) => Ok(x),
            Err(e) => Err(e),
        },
        ProtocolVariant::Compact => match decode_varint(cur) {
            Ok(u) => Ok(compact_field_id(u)),
            Err(e) => Err(e),
        },
    }
}

/// Reduces a zigzag varint to the sixteen bits of a field id.
fn compact_field_id(u: u64) -> (r: u16)
    ensures
        r == spec_u16_of_i64(spec_zigzag_decode64(u)),
{
    let n = zigzag_decode64(u);
    if n >= 0 {
        (n % 0x1_0000) as u16
    } else {
        0xffffu16 - (((-(n + 1)) % 0x1_0000) as u16)
    }
}

/// The least number of bytes a value of the given tag can occupy.
fn min_value_size(variant: ProtocolVariant, tag: u8) -> (r: usize)
    ensures
        r as int == spec_min_value_size(variant, tag),
        1 <= r <= 8,
{
    if tag == TAG_BOOL || tag == TAG_BYTE {
        1
    } else if tag == TAG_I16 {
        2
    } else if tag == TAG_I32 {
        4
    } else if tag == TAG_I64 || tag == TAG_DOUBLE {
        8
    } else if tag == TAG_STRING {
        match variant {
            ProtocolVariant::Binary => 4,
            ProtocolVariant::Compact => 1,
        }
    } else if tag == TAG_LIST || tag == TAG_SET {
        match variant {
            ProtocolVariant::Binary => 5,
            ProtocolVariant::Compact => 2,
        }
    } else if tag == TAG_MAP {
        match variant {
            ProtocolVariant::Binary => 6,
            ProtocolVariant::Compact => 3,
        }
    } else {
        1
    }
}

/// Decodes a field list at the cursor until a STOP tag, buffer exhaustion or
/// an error. Returns the fields decoded so far and the error that stopped
/// decoding, if any; the fields already decoded are kept either way.
pub fn decode_field_list(cur: &mut ByteCursor, variant: ProtocolVariant, depth: usize) -> (r: (
    Vec<Field>,
    Option<DecodeError>,
))
    requires
        old(cur).wf(),
        depth <= MAX_NESTING_DEPTH,
    ensures
        final(cur).wf(),
        final(cur).data@ == old(cur).data@,
        final(cur).pos >= old(cur).pos,
        ({
            let (flds, p, err) = spec_decode_fields(
                old(cur).data@,
                old(cur).pos as int,
                variant,
                depth as int,
            );
            fields_view(r.0@) == flds && r.1 == err && (err is None ==> final(cur).pos == p)
        }),
    decreases old(cur).data@.len() - old(cur).pos, MAX_NESTING_DEPTH - depth, 2int, 0int,
{
    let ghost s = old(cur).data@;
    let ghost pos0 = old(cur).pos as int;
    let mut fields: Vec<Field> = Vec::new();
    proof {
        assert(fields_view(fields@) =~= Seq::<SpecField>::empty());
        let (flds, p, err) = spec_decode_fields(s, pos0, variant, depth as int);
        assert(fields_view(fields@) + flds =~= flds);
    }
    loop
        invariant
            cur.wf(),
            cur.data@ == old(cur).data@,
            cur.pos >= old(cur).pos,
            depth <= MAX_NESTING_DEPTH,
            ({
                let (flds, p, err) = spec_decode_fields(
                    old(cur).data@,
                    old(cur).pos as int,
                    variant,
                    depth as int,
                );
                let (rest, p2, err2) = spec_decode_fields(
                    cur.data@,
                    cur.pos as int,
                    variant,
                    depth as int,
                );
                flds == fields_view(fields@) + rest && p == p2 && err == err2
            }),
        decreases cur.data@.len() - cur.pos,
    {
        let ghost hp = cur.pos as int;
        if cur.remaining() == 0 {
            proof {
                assert(fields_view(fields@) + Seq::<SpecField>::empty() =~= fields_view(fields@));
            }
            return (fields, None);
        }
        let tag = match cur.read_u8() {
            Ok(b) => b,
            Err(_) => {
                proof {
                    assert(false);
                }
                return (fields, None);
            },
        };
        if tag == TAG_STOP {
            proof {
                assert(fields_view(fields@) + Seq::<SpecField>::empty() =~= fields_view(fields@));
            }
            return (fields, None);
        }
        let id = match read_field_id(cur, variant) {
            Ok(x) => x,
            Err(e) => {
                return (fields, Some(e));
            },
        };
        proof {
            assert(clamp_pos(cur.pos as int, hp + 1, cur.data@.len() as int) == cur.pos as int);
        }
        let val = match decode_value(cur, variant, tag, depth) {
            Ok(v) => v,
            Err(e) => {
                return (fields, Some(e));
            },
        };
        let ghost before = fields@;
        let ghost sval = val@;
        fields.push(Field { id, value: val });
        proof {
            lemma_fields_view_push(before, Field { id, value: val });
            let (rest2, q2, e2) = spec_decode_fields(
                cur.data@,
                cur.pos as int,
                variant,
                depth as int,
            );
            assert((fields_view(before) + (seq![SpecField { id, value: sval }] + rest2)) =~= (
            fields_view(before) + seq![SpecField { id, value: sval }]) + rest2);
        }
    }
}

/// Decodes one value of type `tag` at the cursor.
#[verifier::rlimit(100)]
pub fn decode_value(cur: &mut ByteCursor, variant: ProtocolVariant, tag: u8, depth: usize) -> (r:
    Result<Value, DecodeError>)
    requires
        old(cur).wf(),
        depth <= MAX_NESTING_DEPTH,
    ensures
        final(cur).wf(),
        final(cur).data@ == old(cur).data@,
        final(cur).pos >= old(cur).pos,
        match spec_decode_value(
            old(cur).data@,
            old(cur).pos as int,
            variant,
            tag,
            depth as int,
        ) {
            Ok(pair) => (r matches Ok(val) && val@ == pair.0 && final(cur).pos == pair.1),
            Err(e) => r == Err::<Value, DecodeError>(e),
        },
    decreases old(cur).data@.len() - old(cur).pos, MAX_NESTING_DEPTH - depth, 1int, 0int,
{
    if tag == TAG_BOOL {
        match cur.read_u8() {
            Ok(b) => Ok(Value::Bool(b != 0)),
            Err(e) => Err(e),
        }
    } else if tag == TAG_BYTE {
        match cur.read_u8() {
            Ok(b) => Ok(Value::Byte(b)),
            Err(e) => Err(e),
        }
    } else if tag == TAG_I16 {
        match cur.read_u16_be() {
            Ok(u) => Ok(Value::I16(crate::cursor::i16_of_u16(u))),
            Err(e) => Err(e),
        }
    } else if tag == TAG_I32 {
        match cur.read_u32_be() {
            Ok(u) => Ok(Value::I32(crate::cursor::i32_of_u32(u))),
            Err(e) => Err(e),
        }
    } else if tag == TAG_I64 {
        match cur.read_u64_be() {
            Ok(u) => Ok(Value::I64(crate::cursor::i64_of_u64(u))),
            Err(e) => Err(e),
        }
    } else if tag == TAG_DOUBLE {
        match cur.read_u64_be() {
            Ok(u) => Ok(Value::DoubleBits(u)),
            Err(e) => Err(e),
        }
    } else if tag == TAG_STRING {
        let n = match read_count(cur, variant) {
            Ok(n) => n,
            Err(e) => {
                return Err(e);
            },
        };
        let rem = cur.remaining();
        if n > rem as u64 {
            return Err(DecodeError::Truncated);
        }
        let bytes = match cur.read_bytes(n as usize) {
            Ok(b) => b,
            Err(_) => {
                proof {
                    assert(false);
                }
                return Err(DecodeError::Truncated);
            },
        };
        Ok(Value::Text(bytes))
    } else if tag == TAG_STRUCT {
        if depth >= MAX_NESTING_DEPTH {
            return Err(DecodeError::RecursionLimitExceeded);
        }
        let (flds, err) = decode_field_list(cur, variant, depth + 1);
        proof {
            lemma_view_of_struct(flds);
        }
        match err {
            Some(e) => Err(e),
            None => Ok(Value::Struct(flds)),
        }
    } else if tag == TAG_LIST || tag == TAG_SET {
        if depth >= MAX_NESTING_DEPTH {
            return Err(DecodeError::RecursionLimitExceeded);
        }
        decode_sequence_value(cur, variant, tag, depth)
    } else if tag == TAG_MAP {
        if depth >= MAX_NESTING_DEPTH {
            return Err(DecodeError::RecursionLimitExceeded);
        }
        decode_map_value(cur, variant, depth)
    } else {
        Err(DecodeError::UnsupportedFieldType)
    }
}

/// Decodes a list or set value, past the depth check.
fn decode_sequence_value(cur: &mut ByteCursor, variant: ProtocolVariant, tag: u8, depth: usize)
    -> (r: Result<Value, DecodeError>)
    requires
        old(cur).wf(),
        depth < MAX_NESTING_DEPTH,
        tag == TAG_LIST || tag == TAG_SET,
    ensures
        final(cur).wf(),
        final(cur).data@ == old(cur).data@,
        final(cur).pos >= old(cur).pos,
        match spec_decode_value(
            old(cur).data@,
            old(cur).pos as int,
            variant,
            tag,
            depth as int,
        ) {
            Ok(pair) => (r matches Ok(val) && val@ == pair.0 && final(cur).pos == pair.1),
            Err(e) => r == Err::<Value, DecodeError>(e),
        },
    decreases old(cur).data@.len() - old(cur).pos, MAX_NESTING_DEPTH - depth, 0int, 0int,
{
    let etag = match cur.read_u8() {
        Ok(b) => b,
        Err(e) => {
            return Err(e);
        },
    };
    let n = match read_count(cur, variant) {
        Ok(n) => n,
        Err(e) => {
            return Err(e);
        },
    };
    proof {
        assert(clamp_pos(cur.pos as int, old(cur).pos + 1, cur.data@.len() as int)
            == cur.pos as int);
    }
    let min = min_value_size(variant, etag);
    let rem = cur.remaining();
    let cap = rem / min;
    proof {
        lemma_count_check(n as int, min as int, rem as int);
    }
    if n > cap as u64 {
        return Err(DecodeError::CountOverflow);
    }
    let vals = match decode_elems(cur, variant, etag, n, depth + 1) {
        Ok(v) => v,
        Err(e) => {
            return Err(e);
        },
    };
    proof {
        lemma_view_of_list(etag, vals);
        lemma_view_of_set(etag, vals);
    }
    if tag == TAG_LIST {
        Ok(Value::ListOf(etag, vals))
    } else {
        Ok(Value::SetOf(etag, vals))
    }
}

/// Decodes a map value, past the depth check.
fn decode_map_value(cur: &mut ByteCursor, variant: ProtocolVariant, depth: usize) -> (r: Result<
    Value,
    DecodeError,
>)
    requires
        old(cur).wf(),
        depth < MAX_NESTING_DEPTH,
    ensures
        final(cur).wf(),
        final(cur).data@ == old(cur).data@,
        final(cur).pos >= old(cur).pos,
        match spec_decode_value(
            old(cur).data@,
            old(cur).pos as int,
            variant,
            TAG_MAP,
            depth as int,
        ) {
            Ok(pair) => (r matches Ok(val) && val@ == pair.0 && final(cur).pos == pair.1),
            Err(e) => r == Err::<Value, DecodeError>(e),
        },
    decreases old(cur).data@.len() - old(cur).pos, MAX_NESTING_DEPTH - depth, 0int, 0int,
{
    let ktag = match cur.read_u8() {
        Ok(b) => b,
        Err(e) => {
            return Err(e);
        },
    };
    let vtag = match cur.read_u8() {
        Ok(b) => b,
        Err(e) => {
            return Err(e);
        },
    };
    let n = match read_count(cur, variant) {
        Ok(n) => n,
        Err(e) => {
            return Err(e);
        },
    };
    proof {
        assert(clamp_pos(cur.pos as int, old(cur).pos + 1, cur.data@.len() as int)
            == cur.pos as int);
    }
    let kmin = min_value_size(variant, ktag);
    let vmin = min_value_size(variant, vtag);
    let rem = cur.remaining();
    let cap = rem / (kmin + vmin);
    proof {
        lemma_count_check(n as int, kmin + vmin, rem as int);
    }
    if n > cap as u64 {
        return Err(DecodeError::CountOverflow);
    }
    let prs = match decode_pairs(cur, variant, ktag, vtag, n, depth + 1) {
        Ok(p) => p,
        Err(e) => {
            return Err(e);
        },
    };
    proof {
        lemma_view_of_map(ktag, vtag, prs);
    }
    Ok(Value::MapOf(ktag, vtag, prs))
}

/// Decodes `n` consecutive values of type `etag` at the cursor.
fn decode_elems(cur: &mut ByteCursor, variant: ProtocolVariant, etag: u8, n: u64, depth: usize)
    -> (r: Result<Vec<Value>, DecodeError>)
    requires
        old(cur).wf(),
        depth <= MAX_NESTING_DEPTH,
    ensures
        final(cur).wf(),
        final(cur).data@ == old(cur).data@,
        final(cur).pos >= old(cur).pos,
        match spec_decode_elems(
            old(cur).data@,
            old(cur).pos as int,
            variant,
            etag,
            n as int,
            depth as int,
        ) {
            Ok(pair) => (r matches Ok(vals) && values_view(vals@) == pair.0 && final(cur).pos
                == pair.1),
            Err(e) => r == Err::<Vec<Value>, DecodeError>(e),
        },
    decreases old(cur).data@.len() - old(cur).pos, MAX_NESTING_DEPTH - depth, 1int, n,
{
    let mut vals: Vec<Value> = Vec::new();
    let mut i: u64 = 0;
    proof {
        assert(values_view(vals@) =~= Seq::<SpecValue>::empty());
        if spec_decode_elems(old(cur).data@, old(cur).pos as int, variant, etag, n as int,
            depth as int,) is Ok {
            let pair = spec_decode_elems(
                old(cur).data@,
                old(cur).pos as int,
                variant,
                etag,
                n as int,
                depth as int,
            )->Ok_0;
            assert(values_view(vals@) + pair.0 =~= pair.0);
        }
    }
    while i < n
        invariant
            cur.wf(),
            cur.data@ == old(cur).data@,
            cur.pos >= old(cur).pos,
            depth <= MAX_NESTING_DEPTH,
            i <= n,
            ({
                let whole = spec_decode_elems(
                    old(cur).data@,
                    old(cur).pos as int,
                    variant,
                    etag,
                    n as int,
                    depth as int,
                );
                let rest = spec_decode_elems(
                    cur.data@,
                    cur.pos as int,
                    variant,
                    etag,
                    (n - i) as int,
                    depth as int,
                );
                match rest {
                    Ok(pair) => whole matches Ok(wp) && wp.0 == values_view(vals@) + pair.0 && wp.1
                        == pair.1,
                    Err(e) => whole == Err::<(Seq<SpecValue>, int), DecodeError>(e),
                }
            }),
        decreases n - i,
    {
        let ghost hp = cur.pos as int;
        let v = match decode_value(cur, variant, etag, depth) {
            Ok(v) => v,
            Err(e) => {
                return Err(e);
            },
        };
        proof {
            assert(clamp_pos(cur.pos as int, hp, cur.data@.len() as int) == cur.pos as int);
        }
        let ghost before = vals@;
        let ghost sv = v@;
        vals.push(v);
        i = i + 1;
        proof {
            lemma_values_view_push(before, vals@[before.len() as int]);
            let rest2 = spec_decode_elems(
                cur.data@,
                cur.pos as int,
                variant,
                etag,
                (n - i) as int,
                depth as int,
            );
            if rest2 is Ok {
                assert((values_view(before) + (seq![sv] + rest2->Ok_0.0)) =~= (values_view(before)
                    + seq![sv]) + rest2->Ok_0.0);
            }
        }
    }
    proof {
        assert(values_view(vals@) + Seq::<SpecValue>::empty() =~= values_view(vals@));
    }
    Ok(vals)
}

/// Decodes `n` consecutive key/value pairs at the cursor.
fn decode_pairs(
    cur: &mut ByteCursor,
    variant: ProtocolVariant,
    ktag: u8,
    vtag: u8,
    n: u64,
    depth: usize,
) -> (r: Result<Vec<(Value, Value)>, DecodeError>)
    requires
        old(cur).wf(),
        depth <= MAX_NESTING_DEPTH,
    ensures
        final(cur).wf(),
        final(cur).data@ == old(cur).data@,
        final(cur).pos >= old(cur).pos,
        match spec_decode_pairs(
            old(cur).data@,
            old(cur).pos as int,
            variant,
            ktag,
            vtag,
            n as int,
            depth as int,
        ) {
            Ok(pair) => (r matches Ok(prs) && pairs_view(prs@) == pair.0 && final(cur).pos
                == pair.1),
            Err(e) => r == Err::<Vec<(Value, Value)>, DecodeError>(e),
        },
    decreases old(cur).data@.len() - old(cur).pos, MAX_NESTING_DEPTH - depth, 1int, n,
{
    let mut prs: Vec<(Value, Value)> = Vec::new();
    let mut i: u64 = 0;
    proof {
        assert(pairs_view(prs@) =~= Seq::<(SpecValue, SpecValue)>::empty());
        if spec_decode_pairs(old(cur).data@, old(cur).pos as int, variant, ktag, vtag, n as int,
            depth as int,) is Ok {
            let pair = spec_decode_pairs(
                old(cur).data@,
                old(cur).pos as int,
                variant,
                ktag,
                vtag,
                n as int,
                depth as int,
            )->Ok_0;
            assert(pairs_view(prs@) + pair.0 =~= pair.0);
        }
    }
    while i < n
        invariant
            cur.wf(),
            cur.data@ == old(cur).data@,
            cur.pos >= old(cur).pos,
            depth <= MAX_NESTING_DEPTH,
            i <= n,
            ({
                let whole = spec_decode_pairs(
                    old(cur).data@,
                    old(cur).pos as int,
                    variant,
                    ktag,
                    vtag,
                    n as int,
                    depth as int,
                );
                let rest = spec_decode_pairs(
                    cur.data@,
                    cur.pos as int,
                    variant,
                    ktag,
                    vtag,
                    (n - i) as int,
                    depth as int,
                );
                match rest {
                    Ok(pair) => whole matches Ok(wp) && wp.0 == pairs_view(prs@) + pair.0 && wp.1
                        == pair.1,
                    Err(e) => whole == Err::<(Seq<(SpecValue, SpecValue)>, int), DecodeError>(e),
                }
            }),
        decreases n - i,
    {
        let ghost hp = cur.pos as int;
        let key = match decode_value(cur, variant, ktag, depth) {
            Ok(k) => k,
            Err(e) => {
                return Err(e);
            },
        };
        proof {
            assert(clamp_pos(cur.pos as int, hp, cur.data@.len() as int) == cur.pos as int);
        }
        let ghost pk = cur.pos as int;
        let val = match decode_value(cur, variant, vtag, depth) {
            Ok(v) => v,
            Err(e) => {
                return Err(e);
            },
        };
        proof {
            assert(clamp_pos(cur.pos as int, pk, cur.data@.len() as int) == cur.pos as int);
        }
        let ghost before = prs@;
        let ghost sk = key@;
        let ghost sv = val@;
        prs.push((key, val));
        i = i + 1;
        proof {
            lemma_pairs_view_push(before, prs@[before.len() as int].0, prs@[before.len() as int].1);
            let rest2 = spec_decode_pairs(
                cur.data@,
                cur.pos as int,
                variant,
                ktag,
                vtag,
                (n - i) as int,
                depth as int,
            );
            if rest2 is Ok {
                assert((pairs_view(before) + (seq![(sk, sv)] + rest2->Ok_0.0)) =~= (pairs_view(
                    before,
                ) + seq![(sk, sv)]) + rest2->Ok_0.0);
            }
        }
    }
    proof {
        assert(pairs_view(prs@) + Seq::<(SpecValue, SpecValue)>::empty() =~= pairs_view(prs@));
    }
    Ok(prs)
}

} // verus!
