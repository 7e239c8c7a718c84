//! The reasons a decode can fail.
use vstd::prelude::*;

verus! {

/// Why a byte sequence was rejected by a decoder.
///
/// Every failure is final for the parse that reports it: nothing is retried
/// and no value is substituted for the offending bytes.
#[derive(Debug, Clone, Copy, PartialEq, Eq, Structural)]
pub enum DecodeError {
    /// A byte names no variant of the enumeration it was read as, or sets a
    /// flag bit that is not defined.
    UnknownEnumValue,
    /// Fewer bytes remain than a fixed-width field, a string terminator or an
    /// attribute's declared length requires.
    TruncatedInput,
    /// The bytes of a string value are not valid UTF-8.
    InvalidEncoding,
    /// In a response, bytes are left over that do not form a whole attribute.
    TrailingInput,
    /// In a request's identifier list, a byte that matches neither the form
    /// "identifier that may carry a length" nor "identifier that carries none".
    AmbiguousVariadicEntry,
}

} // verus!
