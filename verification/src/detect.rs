//! Classification of a buffer as Binary or Compact protocol.

use vstd::prelude::*;

use crate::errors::DecodeError;

verus! {

/// Which wire encoding a message uses. The variant decides how lengths,
/// counts and field ids are encoded.
#[derive(Clone, Copy, Debug, PartialEq, Eq, Structural)]
pub enum ProtocolVariant {
    /// Fixed-width big-endian lengths and a 16-bit version marker.
    Binary,
    /// Varint lengths and counts, zigzag-encoded signed values.
    Compact,
}

/// First byte of the Binary protocol's version marker.
pub const BINARY_MARKER_BYTE: u8 = 0x80;

/// Second byte of the Binary protocol's version marker.
pub const BINARY_VERSION_BYTE: u8 = 0x01;

/// First byte of a Compact protocol message.
pub const COMPACT_PROTOCOL_ID: u8 = 0x82;

/// The Compact protocol version carried in the low five bits of the second byte.
pub const COMPACT_VERSION: u8 = 0x01;

/// Mask selecting the version bits of the second Compact header byte.
pub const COMPACT_VERSION_MASK: u8 = 0x1f;

/// What classifying the bytes of `s` from `pos` yields: the detected variant,
/// `Truncated` when fewer than four bytes remain, and
/// `UnsupportedProtocolVersion` when the leading bytes match neither encoding.
pub open spec fn spec_detect_protocol(s: Seq<u8>, pos: int) -> Result<
    ProtocolVariant,
    DecodeError,
> {
    if pos + 4 > s.len() {
        Err(DecodeError::Truncated)
    } else if s[pos] == COMPACT_PROTOCOL_ID && s[pos + 1] & COMPACT_VERSION_MASK
        == COMPACT_VERSION {
        Ok(ProtocolVariant::Compact)
    } else if s[pos] == BINARY_MARKER_BYTE && s[pos + 1] == BINARY_VERSION_BYTE {
        Ok(ProtocolVariant::Binary)
    } else {
        Err(DecodeError::UnsupportedProtocolVersion)
    }
}

/// Inspects the leading bytes at `pos` and classifies the message encoding.
pub fn detect_protocol(data: &[u8], pos: usize) -> (r: Result<ProtocolVariant, DecodeError>)
    requires
        pos <= data@.len(),
    ensures
        r == spec_detect_protocol(data@, pos as int),
{
    if data.len() - pos < 4 {
        return Err(DecodeError::Truncated);
    }
    let b0 = data[pos];
    let b1 = data[pos + 1];
    if b0 == COMPACT_PROTOCOL_ID && (b1 & COMPACT_VERSION_MASK) == COMPACT_VERSION {
        Ok(ProtocolVariant::Compact)
    } else if b0 == BINARY_MARKER_BYTE && b1 == BINARY_VERSION_BYTE {
        Ok(ProtocolVariant::Binary)
    } else {
        Err(DecodeError::UnsupportedProtocolVersion)
    }
}

} // verus!
