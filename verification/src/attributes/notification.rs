//! Identifiers of the attributes of a notification.
use crate::error::DecodeError;
use crate::wire::le_u8;
use crate::wire::parsed;
use vstd::prelude::*;
use vstd::std_specs::convert::FromSpecImpl;
use vstd::std_specs::convert::TryFromSpecImpl;

verus! {

/// Names one attribute of a notification.
#[derive(Debug, PartialEq, Eq, Clone, Copy, Structural)]
pub enum NotificationAttributeID {
    /// The identifier of the app that posted the notification.
    AppIdentifier,
    /// The title of the notification.
    Title,
    /// The subtitle of the notification.
    Subtitle,
    /// The body text of the notification.
    Message,
    /// The length of the body text, as decimal digits.
    MessageSize,
    /// When the notification was posted.
    Date,
    /// The label of the positive action.
    PositiveActionLabel,
    /// The label of the negative action.
    NegativeActionLabel,
}

impl NotificationAttributeID {
    /// The byte that stands for this identifier on the wire.
    pub open spec fn byte(self) -> u8 {
        match self {
            NotificationAttributeID::AppIdentifier => 0,
            NotificationAttributeID::Title => 1,
            NotificationAttributeID::Subtitle => 2,
            NotificationAttributeID::Message => 3,
            NotificationAttributeID::MessageSize => 4,
            NotificationAttributeID::Date => 5,
            NotificationAttributeID::PositiveActionLabel => 6,
            NotificationAttributeID::NegativeActionLabel => 7,
        }
    }

    /// The identifier that a byte stands for, if it stands for one.
    pub open spec fn from_byte(b: u8) -> Option<NotificationAttributeID> {
        if b == 0 {
            Some(NotificationAttributeID::AppIdentifier)
        } else if b == 1 {
            Some(NotificationAttributeID::Title)
        } else if b == 2 {
            Some(NotificationAttributeID::Subtitle)
        } else if b == 3 {
            Some(NotificationAttributeID::Message)
        } else if b == 4 {
            Some(NotificationAttributeID::MessageSize)
        } else if b == 5 {
            Some(NotificationAttributeID::Date)
        } else if b == 6 {
            Some(NotificationAttributeID::PositiveActionLabel)
        } else if b == 7 {
            Some(NotificationAttributeID::NegativeActionLabel)
        } else {
            None
        }
    }

    /// What reading one identifier off the front of `bytes` gives: the bytes
    /// that follow and the identifier, or the reason there is none.
    pub open spec fn parse_spec(bytes: Seq<u8>) -> Result<
        (Seq<u8>, NotificationAttributeID),
        DecodeError,
    > {
        if bytes.len() == 0 {
            Err(DecodeError::TruncatedInput)
        } else {
            match NotificationAttributeID::from_byte(bytes[0]) {
                Some(v) => Ok((bytes.skip(1), v)),
                None => Err(DecodeError::UnknownEnumValue),
            }
        }
    }

    /// Reads one identifier off the front of `i`.
    ///
    /// Consumes exactly one byte. Fails with `TruncatedInput` on empty input
    /// and with `UnknownEnumValue` on a byte that names no identifier.
    pub fn parse(i: &[u8]) -> (r: Result<(&[u8], NotificationAttributeID), DecodeError>)
        ensures
            parsed(r) == NotificationAttributeID::parse_spec(i@),
    {
        match le_u8(i) {
            None => Err(DecodeError::TruncatedInput),
            Some((rest, b)) => match NotificationAttributeID::try_from(b) {
                Ok(v) => Ok((rest, v)),
                Err(_) => Err(DecodeError::UnknownEnumValue),
            },
        }
    }

    /// Whether a request for this attribute may carry a maximum length: true
    /// of `Title`, `Subtitle` and `Message` only.
    pub open spec fn sized(self) -> bool {
        self == NotificationAttributeID::Title || self == NotificationAttributeID::Subtitle
            || self == NotificationAttributeID::Message
    }

    /// Tells whether a request for `id` may carry a maximum length.
    pub fn is_sized(id: NotificationAttributeID) -> (sized: bool)
        ensures
            sized == id.sized(),
    {
        match id {
            NotificationAttributeID::Title => true,
            NotificationAttributeID::Subtitle => true,
            NotificationAttributeID::Message => true,
            _ => false,
        }
    }
}

impl From<NotificationAttributeID> for u8 {
    /// The byte that stands for `original` on the wire.
    fn from(original: NotificationAttributeID) -> (byte: u8)
        ensures
            byte == original.byte(),
    {
        match original {
            NotificationAttributeID::AppIdentifier => 0,
            NotificationAttributeID::Title => 1,
            NotificationAttributeID::Subtitle => 2,
            NotificationAttributeID::Message => 3,
            NotificationAttributeID::MessageSize => 4,
            NotificationAttributeID::Date => 5,
            NotificationAttributeID::PositiveActionLabel => 6,
            NotificationAttributeID::NegativeActionLabel => 7,
        }
    }
}

impl FromSpecImpl<NotificationAttributeID> for u8 {
    open spec fn obeys_from_spec() -> bool {
        true
    }

    open spec fn from_spec(v: NotificationAttributeID) -> u8 {
        v.byte()
    }
}

impl TryFrom<u8> for NotificationAttributeID {
    type Error = ();

    /// The identifier that `original` stands for; an error for any other byte.
    fn try_from(original: u8) -> (r: Result<NotificationAttributeID, ()>)
        ensures
            r is Ok <==> NotificationAttributeID::from_byte(original) is Some,
            r matches Ok(v) ==> NotificationAttributeID::from_byte(original) == Some(v),
    {
        match original {
            0 => Ok(NotificationAttributeID::AppIdentifier),
            1 => Ok(NotificationAttributeID::Title),
            2 => Ok(NotificationAttributeID::Subtitle),
            3 => Ok(NotificationAttributeID::Message),
            4 => Ok(NotificationAttributeID::MessageSize),
            5 => Ok(NotificationAttributeID::Date),
            6 => Ok(NotificationAttributeID::PositiveActionLabel),
            7 => Ok(NotificationAttributeID::NegativeActionLabel),
            _ => Err(()),
        }
    }
}

impl TryFromSpecImpl<u8> for NotificationAttributeID {
    open spec fn obeys_try_from_spec() -> bool {
        true
    }

    open spec fn try_from_spec(v: u8) -> Result<NotificationAttributeID, ()> {
        match NotificationAttributeID::from_byte(v) {
            Some(x) => Ok(x),
            None => Err(()),
        }
    }
}

/// Every identifier is found again from its byte, and the bytes that name
/// an identifier are exactly those below 8; each of them is the byte of
/// the identifier it names.
pub proof fn lemma_notification_attribute_id_bytes(v: NotificationAttributeID, b: u8)
    ensures
        NotificationAttributeID::from_byte(v.byte()) == Some(v),
        NotificationAttributeID::from_byte(b) is Some <==> b < 8,
        NotificationAttributeID::from_byte(b) matches Some(w) ==> w.byte() == b,
{
}

/// The byte of an identifier, followed by anything, is read as that
/// identifier and leaves what followed.
pub proof fn lemma_notification_attribute_id_parse_of(v: NotificationAttributeID, tail: Seq<u8>)
    ensures
        NotificationAttributeID::parse_spec(seq![v.byte()] + tail) == Ok::<
            (Seq<u8>, NotificationAttributeID),
            DecodeError,
        >((tail, v)),
{
    let bytes = seq![v.byte()] + tail;
    assert(bytes[0] == v.byte());
    assert(bytes.skip(1) =~= tail);
}

/// Whatever an identifier was read from is the byte of that identifier
/// followed by what was left.
pub proof fn lemma_notification_attribute_id_bytes_of_parse(bytes: Seq<u8>)
    ensures
        NotificationAttributeID::parse_spec(bytes) matches Ok((rest, v)) ==> bytes == seq![
            v.byte(),
        ] + rest,
{
    if let Ok((rest, v)) = NotificationAttributeID::parse_spec(bytes) {
        assert(bytes =~= seq![v.byte()] + rest);
    }
}

} // verus!
