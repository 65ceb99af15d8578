//! The decode error taxonomy.

use vstd::prelude::*;

verus! {

/// Why a decode step failed. Every stage of decoding returns one of these
/// instead of panicking on malformed input.
#[derive(Clone, Copy, Debug, PartialEq, Eq, Structural)]
pub enum DecodeError {
    /// A declared or fixed length exceeds the bytes remaining in the buffer.
    Truncated,
    /// The leading bytes match neither the Binary nor the Compact protocol.
    UnsupportedProtocolVersion,
    /// A THeader envelope was detected but no Binary message follows it.
    UnrecognizedEnvelope,
    /// A field or element type tag that the decoder does not know.
    UnsupportedFieldType,
    /// A container declares more elements than the remaining bytes could hold.
    CountOverflow,
    /// Nesting of structs, lists, sets and maps beyond the fixed depth bound.
    RecursionLimitExceeded,
    /// A variable-length integer runs over its maximum of ten bytes.
    Overflow,
}

impl DecodeError {
    /// What `name` returns for each variant.
    pub open spec fn spec_name(self) -> Seq<char> {
        match self {
            DecodeError::Truncated => "truncated"@,
            DecodeError::UnsupportedProtocolVersion => "unsupported protocol version"@,
            DecodeError::UnrecognizedEnvelope => "unrecognized envelope"@,
            DecodeError::UnsupportedFieldType => "unsupported field type"@,
            DecodeError::CountOverflow => "count overflow"@,
            DecodeError::RecursionLimitExceeded => "recursion limit exceeded"@,
            DecodeError::Overflow => "varint overflow"@,
        }
    }

    /// A short stable name for the error, for use by reporting layers.
    pub fn name(&self) -> (r: &'static str)
        ensures
            r@ == self.spec_name(),
    {
        match self {
            DecodeError::Truncated => "truncated",
            DecodeError::UnsupportedProtocolVersion => "unsupported protocol version",
            DecodeError::UnrecognizedEnvelope => "unrecognized envelope",
            DecodeError::UnsupportedFieldType => "unsupported field type",
            DecodeError::CountOverflow => "count overflow",
            DecodeError::RecursionLimitExceeded => "recursion limit exceeded",
            DecodeError::Overflow => "varint overflow",
        }
    }
}

} // verus!
