//! Action identifiers of the "perform notification action" command.
use crate::error::DecodeError;
use crate::wire::le_u8;
use crate::wire::parsed;
use vstd::prelude::*;
use vstd::std_specs::convert::FromSpecImpl;
use vstd::std_specs::convert::TryFromSpecImpl;

verus! {

/// Which of the two actions of a notification is meant.
#[derive(Debug, PartialEq, Eq, Clone, Copy, Structural)]
pub enum ActionID {
    /// The affirmative action of a notification, such as accepting a call.
    Positive,
    /// The dismissive action of a notification, such as declining a call.
    Negative,
}

/// A byte that names no `ActionID`.
#[derive(Debug, Clone, Copy, PartialEq, Eq, Structural)]
pub struct ActionIDError;

impl ActionID {
    /// The byte that stands for this action on the wire.
    pub open spec fn byte(self) -> u8 {
        match self {
            ActionID::Positive => 0,
            ActionID::Negative => 1,
        }
    }

    /// The action that a byte stands for, if it stands for one.
    pub open spec fn from_byte(b: u8) -> Option<ActionID> {
        if b == 0 {
            Some(ActionID::Positive)
        } else if b == 1 {
            Some(ActionID::Negative)
        } else {
            None
        }
    }

    /// What reading one action off the front of `bytes` gives: the bytes
    /// that follow and the action, or the reason there is none.
    pub open spec fn parse_spec(bytes: Seq<u8>) -> Result<(Seq<u8>, ActionID), DecodeError> {
        if bytes.len() == 0 {
            Err(DecodeError::TruncatedInput)
        } else {
            match ActionID::from_byte(bytes[0]) {
                Some(v) => Ok((bytes.skip(1), v)),
                None => Err(DecodeError::UnknownEnumValue),
            }
        }
    }

    /// Reads one action off the front of `i`.
    ///
    /// Consumes exactly one byte. Fails with `TruncatedInput` on empty input
    /// and with `UnknownEnumValue` on a byte that names no action.
    pub fn parse(i: &[u8]) -> (r: Result<(&[u8], ActionID), DecodeError>)
        ensures
            parsed(r) == ActionID::parse_spec(i@),
    {
        match le_u8(i) {
            None => Err(DecodeError::TruncatedInput),
            Some((rest, b)) => match ActionID::try_from(b) {
                Ok(v) => Ok((rest, v)),
                Err(_) => Err(DecodeError::UnknownEnumValue),
            },
        }
    }
}

impl From<ActionID> for u8 {
    /// The byte that stands for `original` on the wire.
    fn from(original: ActionID) -> (byte: u8)
        ensures
            byte == original.byte(),
    {
        match original {
            ActionID::Positive => 0,
            ActionID::Negative => 1,
        }
    }
}

impl FromSpecImpl<ActionID> for u8 {
    open spec fn obeys_from_spec() -> bool {
        true
    }

    open spec fn from_spec(v: ActionID) -> u8 {
        v.byte()
    }
}

impl TryFrom<u8> for ActionID {
    type Error = ActionIDError;

    /// The action that `original` stands for; an error for any other byte.
    fn try_from(original: u8) -> (r: Result<ActionID, ActionIDError>)
        ensures
            r is Ok <==> ActionID::from_byte(original) is Some,
            r matches Ok(v) ==> ActionID::from_byte(original) == Some(v),
    {
        match original {
            0 => Ok(ActionID::Positive),
            1 => Ok(ActionID::Negative),
            _ => Err(ActionIDError),
        }
    }
}

impl TryFromSpecImpl<u8> for ActionID {
    open spec fn obeys_try_from_spec() -> bool {
        true
    }

    open spec fn try_from_spec(v: u8) -> Result<ActionID, ActionIDError> {
        match ActionID::from_byte(v) {
            Some(x) => Ok(x),
            None => Err(ActionIDError),
        }
    }
}

/// Every action is found again from its byte, and the bytes that name
/// an action are exactly those below 2; each of them is the byte of
/// the action it names.
pub proof fn lemma_action_id_bytes(v: ActionID, b: u8)
    ensures
        ActionID::from_byte(v.byte()) == Some(v),
        ActionID::from_byte(b) is Some <==> b < 2,
        ActionID::from_byte(b) matches Some(w) ==> w.byte() == b,
{
}

/// The byte of an action, followed by anything, is read as that
/// action and leaves what followed.
pub proof fn lemma_action_id_parse_of(v: ActionID, tail: Seq<u8>)
    ensures
        ActionID::parse_spec(seq![v.byte()] + tail) == Ok::<(Seq<u8>, ActionID), DecodeError>(
            (tail, v),
        ),
{
    let bytes = seq![v.byte()] + tail;
    assert(bytes[0] == v.byte());
    assert(bytes.skip(1) =~= tail);
}

/// Whatever an action was read from is the byte of that action
/// followed by what was left.
pub proof fn lemma_action_id_bytes_of_parse(bytes: Seq<u8>)
    ensures
        ActionID::parse_spec(bytes) matches Ok((rest, v)) ==> bytes == seq![v.byte()] + rest,
{
    if let Ok((rest, v)) = ActionID::parse_spec(bytes) {
        assert(bytes =~= seq![v.byte()] + rest);
    }
}

} // verus!
