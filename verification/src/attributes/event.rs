//! Event identifiers and event flags of the Notification Source characteristic.
use crate::error::DecodeError;
use crate::wire::le_u8;
use crate::wire::parsed;
use vstd::prelude::*;
use vstd::std_specs::convert::FromSpecImpl;
use vstd::std_specs::convert::TryFromSpecImpl;

verus! {

/// What happened to a notification.
#[derive(Debug, PartialEq, Eq, Clone, Copy, Structural)]
pub enum EventID {
    /// A notification was posted.
    NotificationAdded,
    /// A notification that was posted before has changed.
    NotificationModified,
    /// A notification was taken down.
    NotificationRemoved,
}

/// A byte that names no `EventID`.
#[derive(Debug, Clone, Copy, PartialEq, Eq, Structural)]
pub struct EventIDError;

impl EventID {
    /// The byte that stands for this event on the wire.
    pub open spec fn byte(self) -> u8 {
        match self {
            EventID::NotificationAdded => 0,
            EventID::NotificationModified => 1,
            EventID::NotificationRemoved => 2,
        }
    }

    /// The event that a byte stands for, if it stands for one.
    pub open spec fn from_byte(b: u8) -> Option<EventID> {
        if b == 0 {
            Some(EventID::NotificationAdded)
        } else if b == 1 {
            Some(EventID::NotificationModified)
        } else if b == 2 {
            Some(EventID::NotificationRemoved)
        } else {
            None
        }
    }

    /// What reading one event off the front of `bytes` gives: the bytes
    /// that follow and the event, or the reason there is none.
    pub open spec fn parse_spec(bytes: Seq<u8>) -> Result<(Seq<u8>, EventID), DecodeError> {
        if bytes.len() == 0 {
            Err(DecodeError::TruncatedInput)
        } else {
            match EventID::from_byte(bytes[0]) {
                Some(v) => Ok((bytes.skip(1), v)),
                None => Err(DecodeError::UnknownEnumValue),
            }
        }
    }

    /// Reads one event off the front of `i`.
    ///
    /// Consumes exactly one byte. Fails with `TruncatedInput` on empty input
    /// and with `UnknownEnumValue` on a byte that names no event.
    pub fn parse(i: &[u8]) -> (r: Result<(&[u8], EventID), DecodeError>)
        ensures
            parsed(r) == EventID::parse_spec(i@),
    {
        match le_u8(i) {
            None => Err(DecodeError::TruncatedInput),
            Some((rest, b)) => match EventID::try_from(b) {
                Ok(v) => Ok((rest, v)),
                Err(_) => Err(DecodeError::UnknownEnumValue),
            },
        }
    }
}

impl From<EventID> for u8 {
    /// The byte that stands for `original` on the wire.
    fn from(original: EventID) -> (byte: u8)
        ensures
            byte == original.byte(),
    {
        match original {
            EventID::NotificationAdded => 0,
            EventID::NotificationModified => 1,
            EventID::NotificationRemoved => 2,
        }
    }
}

impl FromSpecImpl<EventID> for u8 {
    open spec fn obeys_from_spec() -> bool {
        true
    }

    open spec fn from_spec(v: EventID) -> u8 {
        v.byte()
    }
}

impl TryFrom<u8> for EventID {
    type Error = EventIDError;

    /// The event that `original` stands for; an error for any other byte.
    fn try_from(original: u8) -> (r: Result<EventID, EventIDError>)
        ensures
            r is Ok <==> EventID::from_byte(original) is Some,
            r matches Ok(v) ==> EventID::from_byte(original) == Some(v),
    {
        match original {
            0 => Ok(EventID::NotificationAdded),
            1 => Ok(EventID::NotificationModified),
            2 => Ok(EventID::NotificationRemoved),
            _ => Err(EventIDError),
        }
    }
}

impl TryFromSpecImpl<u8> for EventID {
    open spec fn obeys_try_from_spec() -> bool {
        true
    }

    open spec fn try_from_spec(v: u8) -> Result<EventID, EventIDError> {
        match EventID::from_byte(v) {
            Some(x) => Ok(x),
            None => Err(EventIDError),
        }
    }
}

/// Every event is found again from its byte, and the bytes that name
/// an event are exactly those below 3; each of them is the byte of
/// the event it names.
pub proof fn lemma_event_id_bytes(v: EventID, b: u8)
    ensures
        EventID::from_byte(v.byte()) == Some(v),
        EventID::from_byte(b) is Some <==> b < 3,
        EventID::from_byte(b) matches Some(w) ==> w.byte() == b,
{
}

/// The byte of an event, followed by anything, is read as that
/// event and leaves what followed.
pub proof fn lemma_event_id_parse_of(v: EventID, tail: Seq<u8>)
    ensures
        EventID::parse_spec(seq![v.byte()] + tail) == Ok::<(Seq<u8>, EventID), DecodeError>(
            (tail, v),
        ),
{
    let bytes = seq![v.byte()] + tail;
    assert(bytes[0] == v.byte());
    assert(bytes.skip(1) =~= tail);
}

/// Whatever an event was read from is the byte of that event
/// followed by what was left.
pub proof fn lemma_event_id_bytes_of_parse(bytes: Seq<u8>)
    ensures
        EventID::parse_spec(bytes) matches Ok((rest, v)) ==> bytes == seq![v.byte()] + rest,
{
    if let Ok((rest, v)) = EventID::parse_spec(bytes) {
        assert(bytes =~= seq![v.byte()] + rest);
    }
}

/// A set of event flags, held as one byte with one bit per flag.
///
/// Any combination of the five flags is a set, the empty one included. No
/// set holds another bit: the byte is private, and every function that makes
/// a set is proved to keep to the five flags.
#[derive(Debug, PartialEq, Eq, Clone, Copy, Structural)]
pub struct EventFlag {
    bits: u8,
}

/// A byte that sets a bit which is no event flag.
#[derive(Debug, Clone, Copy, PartialEq, Eq, Structural)]
pub struct EventFlagError;

/// The bits of all five event flags together.
pub const EVENT_FLAG_MASK: u8 = 0x1f;

impl View for EventFlag {
    type V = u8;

    /// The byte that holds the set.
    closed spec fn view(&self) -> u8 {
        self.bits
    }
}

impl EventFlag {
    /// Whether only defined flags are set. This holds of every set that a
    /// program can hold.
    #[verifier::type_invariant]
    pub open spec fn valid(self) -> bool {
        self@ <= EVENT_FLAG_MASK
    }

    /// The set that a byte stands for, if all its bits are flags.
    pub closed spec fn from_byte(b: u8) -> Option<EventFlag> {
        if b <= EVENT_FLAG_MASK {
            Some(EventFlag { bits: b })
        } else {
            None
        }
    }

    /// What reading one flag byte off the front of `bytes` gives: the bytes
    /// that follow and the set, or the reason there is none.
    pub open spec fn parse_spec(bytes: Seq<u8>) -> Result<(Seq<u8>, EventFlag), DecodeError> {
        if bytes.len() == 0 {
            Err(DecodeError::TruncatedInput)
        } else {
            match EventFlag::from_byte(bytes[0]) {
                Some(v) => Ok((bytes.skip(1), v)),
                None => Err(DecodeError::UnknownEnumValue),
            }
        }
    }

    /// The set without any flag.
    pub fn empty() -> (flags: EventFlag)
        ensures
            flags@ == 0,
            flags.valid(),
    {
        EventFlag { bits: 0 }
    }

    /// The notification should not draw attention.
    pub fn silent() -> (flags: EventFlag)
        ensures
            flags@ == 0x01,
            flags.valid(),
    {
        EventFlag { bits: 0x01 }
    }

    /// The notification is important.
    pub fn important() -> (flags: EventFlag)
        ensures
            flags@ == 0x02,
            flags.valid(),
    {
        EventFlag { bits: 0x02 }
    }

    /// The notification was there before the accessory connected.
    pub fn pre_existing() -> (flags: EventFlag)
        ensures
            flags@ == 0x04,
            flags.valid(),
    {
        EventFlag { bits: 0x04 }
    }

    /// The notification offers a positive action.
    pub fn positive_action() -> (flags: EventFlag)
        ensures
            flags@ == 0x08,
            flags.valid(),
    {
        EventFlag { bits: 0x08 }
    }

    /// The notification offers a negative action.
    pub fn negative_action() -> (flags: EventFlag)
        ensures
            flags@ == 0x10,
            flags.valid(),
    {
        EventFlag { bits: 0x10 }
    }

    /// All five flags.
    pub fn all() -> (flags: EventFlag)
        ensures
            flags@ == EVENT_FLAG_MASK,
            flags.valid(),
    {
        EventFlag { bits: EVENT_FLAG_MASK }
    }

    /// The byte that holds the set.
    pub fn bits(&self) -> (b: u8)
        ensures
            b == self@,
            self.valid(),
    {
        proof {
            use_type_invariant(self);
        }
        self.bits
    }

    /// The set that `bits` stands for, or `None` if a bit of it is no flag.
    pub fn from_bits(bits: u8) -> (r: Option<EventFlag>)
        ensures
            r == EventFlag::from_byte(bits),
            r is Some <==> bits & !EVENT_FLAG_MASK == 0,
            r matches Some(flags) ==> flags@ == bits && flags.valid(),
    {
        assert((bits & !0x1fu8 == 0) <==> bits <= 0x1fu8) by (bit_vector);
        if bits & !EVENT_FLAG_MASK == 0 {
            Some(EventFlag { bits })
        } else {
            None
        }
    }

    /// The flags that are in `self` or in `other`.
    pub fn union(self, other: EventFlag) -> (flags: EventFlag)
        ensures
            flags@ == self@ | other@,
            flags.valid(),
    {
        let a = self.bits;
        let b = other.bits;
        proof {
            use_type_invariant(self);
            use_type_invariant(other);
            assert(a <= 0x1fu8 && b <= 0x1fu8 ==> (a | b) <= 0x1fu8) by (bit_vector);
        }
        EventFlag { bits: a | b }
    }

    /// Whether every flag of `other` is in `self`.
    pub fn contains(&self, other: EventFlag) -> (yes: bool)
        ensures
            yes <==> self@ & other@ == other@,
    {
        self.bits & other.bits == other.bits
    }

    /// Whether no flag is set.
    pub fn is_empty(&self) -> (yes: bool)
        ensures
            yes <==> self@ == 0,
    {
        self.bits == 0
    }

    /// Reads one flag byte off the front of `i`.
    ///
    /// Consumes exactly one byte. Fails with `TruncatedInput` on empty input
    /// and with `UnknownEnumValue` on a byte that sets a bit which is no flag.
    pub fn parse(i: &[u8]) -> (r: Result<(&[u8], EventFlag), DecodeError>)
        ensures
            parsed(r) == EventFlag::parse_spec(i@),
            r matches Ok((_, flags)) ==> flags.valid(),
    {
        match le_u8(i) {
            None => Err(DecodeError::TruncatedInput),
            Some((rest, b)) => match EventFlag::from_bits(b) {
                Some(v) => Ok((rest, v)),
                None => Err(DecodeError::UnknownEnumValue),
            },
        }
    }
}

impl From<EventFlag> for u8 {
    /// The byte that holds the set.
    fn from(original: EventFlag) -> (byte: u8)
        ensures
            byte == original@,
            original.valid(),
    {
        proof {
            use_type_invariant(original);
        }
        original.bits
    }
}

impl FromSpecImpl<EventFlag> for u8 {
    open spec fn obeys_from_spec() -> bool {
        true
    }

    open spec fn from_spec(v: EventFlag) -> u8 {
        v@
    }
}

impl TryFrom<u8> for EventFlag {
    type Error = EventFlagError;

    /// The set that `original` stands for; an error if a bit of it is no flag.
    fn try_from(original: u8) -> (r: Result<EventFlag, EventFlagError>)
        ensures
            r is Ok <==> EventFlag::from_byte(original) is Some,
            r matches Ok(v) ==> EventFlag::from_byte(original) == Some(v) && v@ == original
                && v.valid(),
    {
        match EventFlag::from_bits(original) {
            Some(v) => Ok(v),
            None => Err(EventFlagError),
        }
    }
}

impl TryFromSpecImpl<u8> for EventFlag {
    open spec fn obeys_try_from_spec() -> bool {
        true
    }

    open spec fn try_from_spec(v: u8) -> Result<EventFlag, EventFlagError> {
        match EventFlag::from_byte(v) {
            Some(x) => Ok(x),
            None => Err(EventFlagError),
        }
    }
}

/// Every valid set is found again from its byte, and the bytes that stand
/// for a set are exactly those without a bit above the five flags; each of
/// them is the byte of the set it stands for.
pub proof fn lemma_event_flag_bytes(v: EventFlag, b: u8)
    ensures
        v.valid() ==> EventFlag::from_byte(v@) == Some(v),
        EventFlag::from_byte(b) is Some <==> b <= EVENT_FLAG_MASK,
        EventFlag::from_byte(b) is Some <==> b & !EVENT_FLAG_MASK == 0,
        EventFlag::from_byte(b) matches Some(w) ==> w@ == b && w.valid(),
{
    assert((b & !0x1fu8 == 0) <==> b <= 0x1fu8) by (bit_vector);
}

/// Two sets with the same byte are the same set.
pub proof fn lemma_event_flag_by_byte(a: EventFlag, b: EventFlag)
    ensures
        a@ == b@ <==> a == b,
{
}

/// The byte of a valid set, followed by anything, is read as that set and
/// leaves what followed.
pub proof fn lemma_event_flag_parse_of(v: EventFlag, tail: Seq<u8>)
    requires
        v.valid(),
    ensures
        EventFlag::parse_spec(seq![v@] + tail) == Ok::<(Seq<u8>, EventFlag), DecodeError>(
            (tail, v),
        ),
{
    let bytes = seq![v@] + tail;
    assert(bytes[0] == v@);
    assert(bytes.skip(1) =~= tail);
}

/// Whatever a set was read from is the byte of that set followed by what was
/// left, and the set is valid.
pub proof fn lemma_event_flag_bytes_of_parse(bytes: Seq<u8>)
    ensures
        EventFlag::parse_spec(bytes) matches Ok((rest, v)) ==> v.valid() && bytes == seq![v@]
            + rest,
{
    if let Ok((rest, v)) = EventFlag::parse_spec(bytes) {
        assert(bytes =~= seq![v@] + rest);
    }
}

} // verus!
