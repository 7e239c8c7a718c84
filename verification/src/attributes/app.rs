//! Identifiers of the attributes of an installed app.
use crate::error::DecodeError;
use crate::wire::le_u8;
use crate::wire::parsed;
use vstd::prelude::*;
use vstd::std_specs::convert::FromSpecImpl;
use vstd::std_specs::convert::TryFromSpecImpl;

verus! {

/// Names one attribute of an installed app. The protocol leaves room for more
/// identifiers; this is the only one defined so far.
#[derive(Debug, PartialEq, Eq, Clone, Copy, Structural)]
pub enum AppAttributeID {
    /// The name under which the app is shown to the user.
    DisplayName,
}

/// A byte that names no attribute identifier.
#[derive(Debug, Clone, Copy, PartialEq, Eq, Structural)]
pub struct AttributeIDError;

impl AppAttributeID {
    /// The byte that stands for this identifier on the wire.
    pub open spec fn byte(self) -> u8 {
        match self {
            AppAttributeID::DisplayName => 0,
        }
    }

    /// The identifier that a byte stands for, if it stands for one.
    pub open spec fn from_byte(b: u8) -> Option<AppAttributeID> {
        if b == 0 {
            Some(AppAttributeID::DisplayName)
        } else {
            None
        }
    }

    /// What reading one identifier off the front of `bytes` gives: the bytes
    /// that follow and the identifier, or the reason there is none.
    pub open spec fn parse_spec(bytes: Seq<u8>) -> Result<(Seq<u8>, AppAttributeID), DecodeError> {
        if bytes.len() == 0 {
            Err(DecodeError::TruncatedInput)
        } else {
            match AppAttributeID::from_byte(bytes[0]) {
                Some(v) => Ok((bytes.skip(1), v)),
                None => Err(DecodeError::UnknownEnumValue),
            }
        }
    }

    /// Reads one identifier off the front of `i`.
    ///
    /// Consumes exactly one byte. Fails with `TruncatedInput` on empty input
    /// and with `UnknownEnumValue` on a byte that names no identifier.
    pub fn parse(i: &[u8]) -> (r: Result<(&[u8], AppAttributeID), DecodeError>)
        ensures
            parsed(r) == AppAttributeID::parse_spec(i@),
    {
        match le_u8(i) {
            None => Err(DecodeError::TruncatedInput),
            Some((rest, b)) => match AppAttributeID::try_from(b) {
                Ok(v) => Ok((rest, v)),
                Err(_) => Err(DecodeError::UnknownEnumValue),
            },
        }
    }
}

impl From<AppAttributeID> for u8 {
    /// The byte that stands for `original` on the wire.
    fn from(original: AppAttributeID) -> (byte: u8)
        ensures
            byte == original.byte(),
    {
        match original {
            AppAttributeID::DisplayName => 0,
        }
    }
}

impl FromSpecImpl<AppAttributeID> for u8 {
    open spec fn obeys_from_spec() -> bool {
        true
    }

    open spec fn from_spec(v: AppAttributeID) -> u8 {
        v.byte()
    }
}

impl TryFrom<u8> for AppAttributeID {
    type Error = AttributeIDError;

    /// The identifier that `original` stands for; an error for any other byte.
    fn try_from(original: u8) -> (r: Result<AppAttributeID, AttributeIDError>)
        ensures
            r is Ok <==> AppAttributeID::from_byte(original) is Some,
            r matches Ok(v) ==> AppAttributeID::from_byte(original) == Some(v),
    {
        match original {
            0 => Ok(AppAttributeID::DisplayName),
            _ => Err(AttributeIDError),
        }
    }
}

impl TryFromSpecImpl<u8> for AppAttributeID {
    open spec fn obeys_try_from_spec() -> bool {
        true
    }

    open spec fn try_from_spec(v: u8) -> Result<AppAttributeID, AttributeIDError> {
        match AppAttributeID::from_byte(v) {
            Some(x) => Ok(x),
            None => Err(AttributeIDError),
        }
    }
}

/// The identifier is found again from its byte, and no other byte names
/// an identifier.
pub proof fn lemma_app_attribute_id_bytes(v: AppAttributeID, b: u8)
    ensures
        AppAttributeID::from_byte(v.byte()) == Some(v),
        AppAttributeID::from_byte(b) is Some <==> b < 1,
        AppAttributeID::from_byte(b) matches Some(w) ==> w.byte() == b,
{
}

/// The byte of an identifier, followed by anything, is read as that
/// identifier and leaves what followed.
pub proof fn lemma_app_attribute_id_parse_of(v: AppAttributeID, tail: Seq<u8>)
    ensures
        AppAttributeID::parse_spec(seq![v.byte()] + tail) == Ok::<
            (Seq<u8>, AppAttributeID),
            DecodeError,
        >((tail, v)),
{
    let bytes = seq![v.byte()] + tail;
    assert(bytes[0] == v.byte());
    assert(bytes.skip(1) =~= tail);
}

/// Whatever an identifier was read from is the byte of that identifier
/// followed by what was left.
pub proof fn lemma_app_attribute_id_bytes_of_parse(bytes: Seq<u8>)
    ensures
        AppAttributeID::parse_spec(bytes) matches Ok((rest, v)) ==> bytes == seq![v.byte()] + rest,
{
    if let Ok((rest, v)) = AppAttributeID::parse_spec(bytes) {
        assert(bytes =~= seq![v.byte()] + rest);
    }
}

} // verus!
