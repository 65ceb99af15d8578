//! Detection and removal of an optional THeader transport envelope.
//!
//! A THeader frame is recognised by its protocol id byte at a fixed offset.
//! The header's declared length is validated against the buffer, and the
//! start of the wrapped Binary-protocol message is then located by scanning
//! for the Binary version marker, since the header's info block may contain
//! variable-length fields the decoder has no need to interpret. A buffer
//! without the marker byte is passed through unchanged.

use vstd::prelude::*;

use crate::detect::BINARY_MARKER_BYTE;
use crate::errors::DecodeError;

verus! {

/// The THeader protocol id, expected at offset four of a framed buffer.
pub const THEADER_PROTOCOL_ID: u8 = 0x10;

/// Offset of the byte holding the header length in four-byte words.
pub const THEADER_LEN_OFFSET: usize = 12;

/// Bytes of THeader framing before the variable-length header part.
pub const THEADER_BASE_LEN: usize = 12;

/// The first position at or after `i` holding the Binary version marker.
pub open spec fn spec_find_marker(s: Seq<u8>, i: int) -> Option<int>
    decreases s.len() - i,
{
    if i < 0 || i >= s.len() {
        None
    } else if s[i] == BINARY_MARKER_BYTE {
        Some(i)
    } else {
        spec_find_marker(s, i + 1)
    }
}

/// What stripping the THeader envelope from `s` yields: the offset at which
/// the message to decode starts. A buffer without the THeader protocol id is
/// passed through at offset zero; one whose declared header length leaves no
/// message bytes fails with `Truncated`; one with no Binary version marker
/// after the header fails with `UnrecognizedEnvelope`.
pub open spec fn spec_strip_theader(s: Seq<u8>) -> Result<int, DecodeError> {
    if s.len() < 5 || s[4] != THEADER_PROTOCOL_ID {
        Ok(0)
    } else if s.len() <= THEADER_LEN_OFFSET {
        Err(DecodeError::Truncated)
    } else {
        let total = THEADER_BASE_LEN + (s[THEADER_LEN_OFFSET as int] as int) * 4;
        if total >= s.len() {
            Err(DecodeError::Truncated)
        } else {
            match spec_find_marker(s, total) {
                Some(j) => Ok(j),
                None => Err(DecodeError::UnrecognizedEnvelope),
            }
        }
    }
}

/// Detects a THeader envelope and returns the offset of the wrapped message,
/// or zero when no envelope is present.
pub fn strip_theader(data: &[u8]) -> (r: Result<usize, DecodeError>)
    ensures
        match spec_strip_theader(data@) {
            Ok(off) => r matches Ok(o) && o == off && 0 <= off <= data@.len(),
            Err(e) => r == Err::<usize, DecodeError>(e),
        },
{
    if data.len() < 5 {
        return Ok(0);
    }
    if data[4] != THEADER_PROTOCOL_ID {
        return Ok(0);
    }
    if data.len() <= THEADER_LEN_OFFSET {
        return Err(DecodeError::Truncated);
    }
    let words = data[THEADER_LEN_OFFSET] as usize;
    let total = THEADER_BASE_LEN + words * 4;
    if total >= data.len() {
        return Err(DecodeError::Truncated);
    }
    let mut j: usize = total;
    while j < data.len()
        invariant
            total <= j <= data@.len(),
            data@.len() > THEADER_LEN_OFFSET,
            data@[4] == THEADER_PROTOCOL_ID,
            total as int == THEADER_BASE_LEN + (data@[THEADER_LEN_OFFSET as int] as int) * 4,
            total < data@.len(),
            spec_find_marker(data@, total as int) == spec_find_marker(data@, j as int),
        decreases data@.len() - j,
    {
        if data[j] == BINARY_MARKER_BYTE {
            return Ok(j);
        }
        j = j + 1;
    }
    Err(DecodeError::UnrecognizedEnvelope)
}

} // verus!
