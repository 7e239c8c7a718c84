//! Command identifiers of the Control Point and Data Source characteristics.
use crate::error::DecodeError;
use crate::wire::le_u8;
use crate::wire::parsed;
use vstd::prelude::*;
use vstd::std_specs::convert::FromSpecImpl;
use vstd::std_specs::convert::TryFromSpecImpl;

verus! {

/// What a Control Point message asks for, and what a Data Source message answers.
#[derive(Debug, PartialEq, Eq, Clone, Copy, Structural)]
pub enum CommandID {
    /// Ask for attributes of one notification.
    GetNotificationAttributes,
    /// Ask for attributes of one installed app.
    GetAppAttributes,
    /// Ask the provider to carry out an action on a notification.
    PerformNotificationAction,
}

/// A byte that names no `CommandID`.
#[derive(Debug, Clone, Copy, PartialEq, Eq, Structural)]
pub struct CommandIDError;

impl CommandID {
    /// The byte that stands for this command on the wire.
    pub open spec fn byte(self) -> u8 {
        match self {
            CommandID::GetNotificationAttributes => 0,
            CommandID::GetAppAttributes => 1,
            CommandID::PerformNotificationAction => 2,
        }
    }

    /// The command that a byte stands for, if it stands for one.
    pub open spec fn from_byte(b: u8) -> Option<CommandID> {
        if b == 0 {
            Some(CommandID::GetNotificationAttributes)
        } else if b == 1 {
            Some(CommandID::GetAppAttributes)
        } else if b == 2 {
            Some(CommandID::PerformNotificationAction)
        } else {
            None
        }
    }

    /// What reading one command off the front of `bytes` gives: the bytes
    /// that follow and the command, or the reason there is none.
    pub open spec fn parse_spec(bytes: Seq<u8>) -> Result<(Seq<u8>, CommandID), DecodeError> {
        if bytes.len() == 0 {
            Err(DecodeError::TruncatedInput)
        } else {
            match CommandID::from_byte(bytes[0]) {
                Some(v) => Ok((bytes.skip(1), v)),
                None => Err(DecodeError::UnknownEnumValue),
            }
        }
    }

    /// Reads one command off the front of `i`.
    ///
    /// Consumes exactly one byte. Fails with `TruncatedInput` on empty input
    /// and with `UnknownEnumValue` on a byte that names no command.
    pub fn parse(i: &[u8]) -> (r: Result<(&[u8], CommandID), DecodeError>)
        ensures
            parsed(r) == CommandID::parse_spec(i@),
    {
        match le_u8(i) {
            None => Err(DecodeError::TruncatedInput),
            Some((rest, b)) => match CommandID::try_from(b) {
                Ok(v) => Ok((rest, v)),
                Err(_) => Err(DecodeError::UnknownEnumValue),
            },
        }
    }
}

impl From<CommandID> for u8 {
    /// The byte that stands for `original` on the wire.
    fn from(original: CommandID) -> (byte: u8)
        ensures
            byte == original.byte(),
    {
        match original {
            CommandID::GetNotificationAttributes => 0,
            CommandID::GetAppAttributes => 1,
            CommandID::PerformNotificationAction => 2,
        }
    }
}

impl FromSpecImpl<CommandID> for u8 {
    open spec fn obeys_from_spec() -> bool {
        true
    }

    open spec fn from_spec(v: CommandID) -> u8 {
        v.byte()
    }
}

impl TryFrom<u8> for CommandID {
    type Error = CommandIDError;

    /// The command that `original` stands for; an error for any other byte.
    fn try_from(original: u8) -> (r: Result<CommandID, CommandIDError>)
        ensures
            r is Ok <==> CommandID::from_byte(original) is Some,
            r matches Ok(v) ==> CommandID::from_byte(original) == Some(v),
    {
        match original {
            0 => Ok(CommandID::GetNotificationAttributes),
            1 => Ok(CommandID::GetAppAttributes),
            2 => Ok(CommandID::PerformNotificationAction),
            _ => Err(CommandIDError),
        }
    }
}

impl TryFromSpecImpl<u8> for CommandID {
    open spec fn obeys_try_from_spec() -> bool {
        true
    }

    open spec fn try_from_spec(v: u8) -> Result<CommandID, CommandIDError> {
        match CommandID::from_byte(v) {
            Some(x) => Ok(x),
            None => Err(CommandIDError),
        }
    }
}

/// Every command is found again from its byte, and the bytes that name
/// a command are exactly those below 3; each of them is the byte of
/// the command it names.
pub proof fn lemma_command_id_bytes(v: CommandID, b: u8)
    ensures
        CommandID::from_byte(v.byte()) == Some(v),
        CommandID::from_byte(b) is Some <==> b < 3,
        CommandID::from_byte(b) matches Some(w) ==> w.byte() == b,
{
}

/// The byte of a command, followed by anything, is read as that
/// command and leaves what followed.
pub proof fn lemma_command_id_parse_of(v: CommandID, tail: Seq<u8>)
    ensures
        CommandID::parse_spec(seq![v.byte()] + tail) == Ok::<(Seq<u8>, CommandID), DecodeError>(
            (tail, v),
        ),
{
    let bytes = seq![v.byte()] + tail;
    assert(bytes[0] == v.byte());
    assert(bytes.skip(1) =~= tail);
}

/// Whatever a command was read from is the byte of that command
/// followed by what was left.
pub proof fn lemma_command_id_bytes_of_parse(bytes: Seq<u8>)
    ensures
        CommandID::parse_spec(bytes) matches Ok((rest, v)) ==> bytes == seq![v.byte()] + rest,
{
    if let Ok((rest, v)) = CommandID::parse_spec(bytes) {
        assert(bytes =~= seq![v.byte()] + rest);
    }
}

} // verus!
