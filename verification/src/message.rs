//! Decoding of the message envelope and the whole payload.
//!
//! The envelope carries the message kind, the method name and the sequence
//! id, laid out differently by the Binary and Compact encodings. The whole
//! payload is decoded by stripping any THeader envelope, detecting the
//! protocol, decoding the envelope and then the field list; a field-list
//! failure still returns the envelope and the fields decoded so far.

use vstd::prelude::*;

use crate::cursor::ByteCursor;
use crate::cursor::i32_of_u32;
use crate::cursor::spec_be32;
use crate::cursor::spec_i32_of_u32;
use crate::detect::ProtocolVariant;
use crate::detect::detect_protocol;
use crate::detect::spec_detect_protocol;
use crate::errors::DecodeError;
use crate::theader::spec_strip_theader;
use crate::theader::strip_theader;
use crate::value::Field;
use crate::value::SpecField;
use crate::value::decode_field_list;
use crate::value::fields_view;
use crate::value::spec_decode_fields;
use crate::varint::decode_varint;
use crate::varint::spec_decode_varint;
use crate::varint::spec_zigzag_decode64;
use crate::varint::zigzag_decode64;

verus! {

/// The kind of message an envelope announces.
#[derive(Clone, Copy, Debug, PartialEq, Eq, Structural)]
pub enum MessageKind {
    Call,
    Reply,
    Exception,
    Oneway,
    Unknown,
}

/// The kind encoded by a message-type byte.
pub open spec fn spec_message_kind(b: u8) -> MessageKind {
    if b == 1 {
        MessageKind::Call
    } else if b == 2 {
        MessageKind::Reply
    } else if b == 3 {
        MessageKind::Exception
    } else if b == 4 {
        MessageKind::Oneway
    } else {
        MessageKind::Unknown
    }
}

/// Maps a message-type byte to its kind.
pub fn message_kind_of(b: u8) -> (r: MessageKind)
    ensures
        r == spec_message_kind(b),
{
    if b == 1 {
        MessageKind::Call
    } else if b == 2 {
        MessageKind::Reply
    } else if b == 3 {
        MessageKind::Exception
    } else if b == 4 {
        MessageKind::Oneway
    } else {
        MessageKind::Unknown
    }
}

/// The low 32 bits of a signed 64-bit value, read as a signed 32-bit one.
pub open spec fn spec_i32_truncate(n: i64) -> i32 {
    spec_i32_of_u32((((n as int) % 0x1_0000_0000) + if (n as int) % 0x1_0000_0000 < 0 {
        0x1_0000_0000int
    } else {
        0int
    }) as u32)
}

/// Reduces a signed 64-bit value to its low 32 bits.
pub fn i32_truncate(n: i64) -> (r: i32)
    ensures
        r == spec_i32_truncate(n),
{
    if n >= 0 {
        i32_of_u32((n % 0x1_0000_0000) as u32)
    } else {
        i32_of_u32(0xffff_ffffu32 - (((-(n + 1)) % 0x1_0000_0000) as u32))
    }
}

/// What decoding a Binary message envelope at `pos` yields: the message kind
/// from the low byte of the version word, the method name bytes after their
/// four-byte big-endian length, the big-endian sequence id, and the position
/// where the field list starts.
pub open spec fn spec_decode_binary_envelope(s: Seq<u8>, pos: int) -> Result<
    (MessageKind, Seq<u8>, i32, int),
    DecodeError,
> {
    if pos + 8 > s.len() {
        Err(DecodeError::Truncated)
    } else {
        let kind = spec_message_kind(s[pos + 3]);
        let n = spec_be32(s, pos + 4) as int;
        if pos + 8 + n > s.len() {
            Err(DecodeError::Truncated)
        } else {
            let name = s.subrange(pos + 8, pos + 8 + n);
            if pos + 12 + n > s.len() {
                Err(DecodeError::Truncated)
            } else {
                Ok((kind, name, spec_i32_of_u32(spec_be32(s, pos + 8 + n)), pos + 12 + n))
            }
        }
    }
}

/// What decoding a Compact message envelope at `pos` yields: the message kind
/// from the low three bits of the third header byte, the method name bytes
/// after their varint length, and the zigzag varint sequence id reduced to 32
/// bits.
pub open spec fn spec_decode_compact_envelope(s: Seq<u8>, pos: int) -> Result<
    (MessageKind, Seq<u8>, i32, int),
    DecodeError,
> {
    if pos + 3 > s.len() {
        Err(DecodeError::Truncated)
    } else {
        let kind = spec_message_kind(s[pos + 2] & 0x07);
        match spec_decode_varint(s, pos + 3) {
            Err(e) => Err(e),
            Ok((n, p1)) => {
                if p1 + n > s.len() {
                    Err(DecodeError::Truncated)
                } else {
                    let name = s.subrange(p1, p1 + n as int);
                    match spec_decode_varint(s, p1 + n as int) {
                        Err(e) => Err(e),
                        Ok((u, p2)) => Ok(
                            (kind, name, spec_i32_truncate(spec_zigzag_decode64(u)), p2),
                        ),
                    }
                }
            },
        }
    }
}

/// What decoding a message envelope at `pos` yields, for either encoding.
pub open spec fn spec_decode_envelope(s: Seq<u8>, pos: int, v: ProtocolVariant) -> Result<
    (MessageKind, Seq<u8>, i32, int),
    DecodeError,
> {
    match v {
        ProtocolVariant::Binary => spec_decode_binary_envelope(s, pos),
        ProtocolVariant::Compact => spec_decode_compact_envelope(s, pos),
    }
}

/// Decodes the message envelope at the cursor, in the variant's encoding.
pub fn decode_envelope(cur: &mut ByteCursor, variant: ProtocolVariant) -> (r: Result<
    (MessageKind, Vec<u8>, i32),
    DecodeError,
>)
    requires
        old(cur).wf(),
    ensures
        final(cur).wf(),
        final(cur).data@ == old(cur).data@,
        final(cur).pos >= old(cur).pos,
        match spec_decode_envelope(old(cur).data@, old(cur).pos as int, variant) {
            Ok(q) => (r matches Ok(t) && t.0 == q.0 && t.1@ == q.1 && t.2 == q.2)
                && final(cur).pos == q.3,
            Err(e) => r == Err::<(MessageKind, Vec<u8>, i32), DecodeError>(e),
        },
{
    match variant {
        ProtocolVariant::Binary => {
            let w = match cur.read_u32_be() {
                Ok(w) => w,
                Err(e) => {
                    return Err(e);
                },
            };
            let kind = message_kind_of((w % 0x100) as u8);
            proof {
                let s = old(cur).data@;
                let p = old(cur).pos as int;
                assert(spec_be32(s, p) % 0x100 == s[p + 3] as u32);
            }
            let n = match cur.read_u32_be() {
                Ok(n) => n,
                Err(e) => {
                    return Err(e);
                },
            };
            if n as u64 > cur.remaining() as u64 {
                return Err(DecodeError::Truncated);
            }
            let name = match cur.read_bytes(n as usize) {
                Ok(b) => b,
                Err(_) => {
                    proof {
                        assert(false);
                    }
                    return Err(DecodeError::Truncated);
                },
            };
            let seq = match cur.read_u32_be() {
                Ok(u) => i32_of_u32(u),
                Err(e) => {
                    return Err(e);
                },
            };
            Ok((kind, name, seq))
        },
        ProtocolVariant::Compact => {
            let b0 = match cur.read_u8() {
                Ok(b) => b,
                Err(e) => {
                    return Err(e);
                },
            };
            let b1 = match cur.read_u8() {
                Ok(b) => b,
                Err(e) => {
                    return Err(e);
                },
            };
            let b2 = match cur.read_u8() {
                Ok(b) => b,
                Err(e) => {
                    return Err(e);
                },
            };
            let kind = message_kind_of(b2 & 0x07);
            let n = match decode_varint(cur) {
                Ok(n) => n,
                Err(e) => {
                    return Err(e);
                },
            };
            if n > cur.remaining() as u64 {
                return Err(DecodeError::Truncated);
            }
            let name = match cur.read_bytes(n as usize) {
                Ok(b) => b,
                Err(_) => {
                    proof {
                        assert(false);
                    }
                    return Err(DecodeError::Truncated);
                },
            };
            let seq = match decode_varint(cur) {
                Ok(u) => i32_truncate(zigzag_decode64(u)),
                Err(e) => {
                    return Err(e);
                },
            };
            Ok((kind, name, seq))
        },
    }
}

/// One decoded message: which encoding carried it, its envelope, its fields,
/// and the error that stopped field decoding, if one did.
#[derive(Debug, PartialEq)]
pub struct DecodedMessage {
    pub variant: ProtocolVariant,
    pub kind: MessageKind,
    pub method_name: Vec<u8>,
    pub sequence_id: i32,
    pub fields: Vec<Field>,
    pub field_error: Option<DecodeError>,
}

/// The mathematical shape of a decoded message.
pub struct SpecMessage {
    pub variant: ProtocolVariant,
    pub kind: MessageKind,
    pub method_name: Seq<u8>,
    pub sequence_id: i32,
    pub fields: Seq<SpecField>,
    pub field_error: Option<DecodeError>,
}

impl View for DecodedMessage {
    type V = SpecMessage;

    open spec fn view(&self) -> SpecMessage {
        SpecMessage {
            variant: self.variant,
            kind: self.kind,
            method_name: self.method_name@,
            sequence_id: self.sequence_id,
            fields: fields_view(self.fields@),
            field_error: self.field_error,
        }
    }
}

/// What decoding a whole payload yields: the envelope stripped, the protocol
/// detected, the envelope decoded, and the field list decoded until its end
/// or its first error.
pub open spec fn spec_decode_payload(s: Seq<u8>) -> Result<SpecMessage, DecodeError> {
    match spec_strip_theader(s) {
        Err(e) => Err(e),
        Ok(off) => match spec_detect_protocol(s, off) {
            Err(e) => Err(e),
            Ok(v) => match spec_decode_envelope(s, off, v) {
                Err(e) => Err(e),
                Ok((kind, name, seq, p)) => {
                    let (flds, p2, err) = spec_decode_fields(s, p, v, 0);
                    Ok(
                        SpecMessage {
                            variant: v,
                            kind: kind,
                            method_name: name,
                            sequence_id: seq,
                            fields: flds,
                            field_error: err,
                        },
                    )
                },
            },
        },
    }
}

/// Decodes one captured payload into a message, or the error of the stage
/// that failed. An error while decoding the field list is reported inside the
/// message, beside the fields decoded before it.
pub fn decode_payload(data: &[u8]) -> (r: Result<DecodedMessage, DecodeError>)
    ensures
        match spec_decode_payload(data@) {
            Ok(m) => r matches Ok(msg) && msg@ == m,
            Err(e) => r == Err::<DecodedMessage, DecodeError>(e),
        },
{
    let off = match strip_theader(data) {
        Ok(o) => o,
        Err(e) => {
            return Err(e);
        },
    };
    let variant = match detect_protocol(data, off) {
        Ok(v) => v,
        Err(e) => {
            return Err(e);
        },
    };
    let mut cur = ByteCursor::new(data, off);
    let (kind, name, seq) = match decode_envelope(&mut cur, variant) {
        Ok(t) => t,
        Err(e) => {
            return Err(e);
        },
    };
    let (fields, field_error) = decode_field_list(&mut cur, variant, 0);
    Ok(
        DecodedMessage {
            variant,
            kind,
            method_name: name,
            sequence_id: seq,
            fields,
            field_error,
        },
    )
}

/// Decoding a Binary envelope reads only bytes at and after its start, so
/// decoding at an offset agrees with decoding the suffix from zero.
pub proof fn lemma_binary_envelope_shift(s: Seq<u8>, off: int)
    requires
        0 <= off <= s.len(),
    ensures
        match (spec_decode_binary_envelope(s, off), spec_decode_binary_envelope(
            s.skip(off),
            0,
        )) {
            (Ok(a), Ok(b)) => a.0 == b.0 && a.1 == b.1 && a.2 == b.2 && a.3 == b.3 + off,
            (Err(e1), Err(e2)) => e1 == e2,
            _ => false,
        },
{
    let t = s.skip(off);
    assert(t.len() == s.len() - off);
    assert forall|i: int| 0 <= i < t.len() implies t[i] == s[off + i] by {}
    if off + 8 <= s.len() {
        assert(spec_be32(t, 4) == spec_be32(s, off + 4));
        let n = spec_be32(s, off + 4) as int;
        if off + 8 + n <= s.len() {
            assert(t.subrange(8, 8 + n) =~= s.subrange(off + 8, off + 8 + n));
            if off + 12 + n <= s.len() {
                assert(spec_be32(t, 8 + n) == spec_be32(s, off + 8 + n));
            }
        }
    }
}

/// Law: a THeader envelope is transparent. Decoding the envelope of a
/// THeader-wrapped Binary message gives the same kind, method name and
/// sequence id as decoding the wrapped message directly.
pub proof fn lemma_theader_transparency(s: Seq<u8>)
    ensures
        match spec_strip_theader(s) {
            Ok(off) => match (spec_decode_binary_envelope(s, off), spec_decode_binary_envelope(
                s.skip(off),
                0,
            )) {
                (Ok(a), Ok(b)) => a.0 == b.0 && a.1 == b.1 && a.2 == b.2,
                (Err(e1), Err(e2)) => e1 == e2,
                _ => false,
            },
            Err(_) => true,
        },
{
    match spec_strip_theader(s) {
        Ok(off) => {
            lemma_strip_offset_in_range(s);
            lemma_binary_envelope_shift(s, off);
        },
        Err(_) => {},
    }
}

/// Law: removing trailing bytes from a Binary message never makes its
/// envelope decode to something else: a cut that lands inside the envelope is
/// reported as `Truncated`. A cut inside the field list is not covered here:
/// by design, exhaustion at a field boundary ends the list quietly.
pub proof fn lemma_envelope_truncation_detected(s: Seq<u8>, t: int)
    requires
        0 <= t < s.len(),
        spec_decode_binary_envelope(s, 0) is Ok,
        t < spec_decode_binary_envelope(s, 0)->Ok_0.3,
    ensures
        spec_decode_binary_envelope(s.take(t), 0) == Err::<(MessageKind, Seq<u8>, i32, int),
            DecodeError,
        >(DecodeError::Truncated),
{
    let u = s.take(t);
    assert(u.len() == t);
    assert forall|i: int| 0 <= i < t implies u[i] == s[i] by {}
    if t >= 8 {
        assert(spec_be32(u, 4) == spec_be32(s, 4));
    }
}

/// A successful strip returns an offset inside the buffer.
proof fn lemma_strip_offset_in_range(s: Seq<u8>)
    ensures
        match spec_strip_theader(s) {
            Ok(off) => 0 <= off <= s.len(),
            Err(_) => true,
        },
{
    if s.len() < 5 || s[4] != crate::theader::THEADER_PROTOCOL_ID {
    } else if s.len() <= 12 {
    } else {
        let total = 12 + (s[12int] as int) * 4;
        if total < s.len() {
            lemma_find_marker_in_range(s, total);
        }
    }
}

/// A found marker position lies inside the buffer.
proof fn lemma_find_marker_in_range(s: Seq<u8>, i: int)
    ensures
        match crate::theader::spec_find_marker(s, i) {
            Some(j) => 0 <= j < s.len(),
            None => true,
        },
    decreases s.len() - i,
{
    if i < 0 || i >= s.len() {
    } else if s[i] == crate::detect::BINARY_MARKER_BYTE {
    } else {
        lemma_find_marker_in_range(s, i + 1);
    }
}

} // verus!
