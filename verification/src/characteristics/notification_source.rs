//! The Notification Source characteristic: one fixed record per event.
use crate::attributes::category::lemma_category_id_bytes_of_parse;
use crate::attributes::category::lemma_category_id_parse_of;
use crate::attributes::event::lemma_event_flag_bytes_of_parse;
use crate::attributes::event::lemma_event_flag_parse_of;
use crate::attributes::event::lemma_event_id_bytes_of_parse;
use crate::attributes::event::lemma_event_id_parse_of;
use crate::error::DecodeError;
use crate::wire::le_u32;
use crate::wire::le_u8;
use crate::wire::lemma_first_byte;
use crate::wire::lemma_first_byte_of;
use crate::wire::lemma_u32_prefix;
use crate::wire::lemma_u32_prefix_of;
use crate::wire::parsed;
use crate::wire::u32_from_le;
use crate::wire::u32_le;
use vstd::prelude::*;
use vstd::std_specs::convert::FromSpecImpl;

pub use crate::attributes::category::CategoryID;
pub use crate::attributes::category::CategoryIDError;
pub use crate::attributes::event::EventFlag;
pub use crate::attributes::event::EventFlagError;
pub use crate::attributes::event::EventID;
pub use crate::attributes::event::EventIDError;

verus! {

/// Identifier of the Notification Source characteristic.
pub const NOTIFICATION_SOURCE_UUID: &'static str = "9FBF120D-6301-42D9-8C58-25E699A21DBD";

/// The announcement of one event on one notification.
///
/// `notification_uid` names the notification for the length of the
/// connection; `category_count` is the number of active notifications of
/// the same category, and may be any byte.
#[derive(Debug, PartialEq, Eq, Clone, Copy, Structural)]
pub struct Notification {
    pub event_id: EventID,
    pub event_flags: EventFlag,
    pub category_id: CategoryID,
    pub category_count: u8,
    pub notification_uid: u32,
}

impl Notification {
    /// Whether the record can be transmitted and read back: its flags hold
    /// no bit that is not a flag.
    pub open spec fn well_formed(self) -> bool {
        self.event_flags.valid()
    }

    /// The eight bytes a record is transmitted as: event, flags, category,
    /// count, and the identifier of the notification, least significant byte
    /// first.
    pub open spec fn wire_bytes(self) -> Seq<u8> {
        seq![
            self.event_id.byte(),
            self.event_flags@,
            self.category_id.byte(),
            self.category_count,
        ] + u32_le(self.notification_uid)
    }

    /// The record as an array of the eight bytes it is transmitted as.
    pub open spec fn wire_array(self) -> [u8; 8] {
        [
            self.event_id.byte(),
            self.event_flags@,
            self.category_id.byte(),
            self.category_count,
            u32_le(self.notification_uid)[0],
            u32_le(self.notification_uid)[1],
            u32_le(self.notification_uid)[2],
            u32_le(self.notification_uid)[3],
        ]
    }

    /// What reading one record off the front of `bytes` gives: the bytes that
    /// follow and the record, or the reason there is none. The fields are
    /// read in the order in which they are transmitted, and the first that
    /// cannot be read decides the failure.
    pub open spec fn parse_spec(bytes: Seq<u8>) -> Result<(Seq<u8>, Notification), DecodeError> {
        match EventID::parse_spec(bytes) {
            Err(e) => Err(e),
            Ok((after_event, event_id)) => match EventFlag::parse_spec(after_event) {
                Err(e) => Err(e),
                Ok((after_flags, event_flags)) => match CategoryID::parse_spec(after_flags) {
                    Err(e) => Err(e),
                    Ok((after_category, category_id)) => if after_category.len() < 5 {
                        Err(DecodeError::TruncatedInput)
                    } else {
                        Ok(
                            (
                                after_category.skip(5),
                                Notification {
                                    event_id,
                                    event_flags,
                                    category_id,
                                    category_count: after_category[0],
                                    notification_uid: u32_from_le(after_category.skip(1)),
                                },
                            ),
                        )
                    },
                },
            },
        }
    }

    /// Reads one record off the front of `i` and returns it with the bytes
    /// that follow it.
    ///
    /// Fails with `UnknownEnumValue` if the event, a flag bit or the category
    /// is not defined, and with `TruncatedInput` if `i` ends before the
    /// record does; of two such faults the one that comes first in `i` is
    /// reported.
    pub fn parse(i: &[u8]) -> (r: Result<(&[u8], Notification), DecodeError>)
        ensures
            parsed(r) == Notification::parse_spec(i@),
            r matches Ok((_, n)) ==> n.well_formed(),
    {
        let (after_event, event_id) = match EventID::parse(i) {
            Ok(found) => found,
            Err(e) => { return Err(e); },
        };
        let (after_flags, event_flags) = match EventFlag::parse(after_event) {
            Ok(found) => found,
            Err(e) => { return Err(e); },
        };
        let (after_category, category_id) = match CategoryID::parse(after_flags) {
            Ok(found) => found,
            Err(e) => { return Err(e); },
        };
        let (after_count, category_count) = match le_u8(after_category) {
            Some(found) => found,
            None => { return Err(DecodeError::TruncatedInput); },
        };
        let (rest, notification_uid) = match le_u32(after_count) {
            Some(found) => found,
            None => { return Err(DecodeError::TruncatedInput); },
        };
        assert(rest@ =~= after_category@.skip(5));
        let notification = Notification {
            event_id,
            event_flags,
            category_id,
            category_count,
            notification_uid,
        };
        Ok((rest, notification))
    }
}

impl From<Notification> for [u8; 8] {
    /// The eight bytes `original` is transmitted as.
    fn from(original: Notification) -> (bytes: [u8; 8])
        ensures
            bytes@ == original.wire_bytes(),
            original.well_formed(),
    {
        let uid = original.notification_uid;
        let bytes: [u8; 8] = [
            u8::from(original.event_id),
            u8::from(original.event_flags),
            u8::from(original.category_id),
            original.category_count,
            (uid % 256) as u8,
            ((uid / 256) % 256) as u8,
            ((uid / 65536) % 256) as u8,
            (uid / 16777216) as u8,
        ];
        assert(bytes@ =~= original.wire_bytes());
        assert(bytes =~= original.wire_array());
        bytes
    }
}

impl FromSpecImpl<Notification> for [u8; 8] {
    open spec fn obeys_from_spec() -> bool {
        true
    }

    open spec fn from_spec(v: Notification) -> [u8; 8] {
        v.wire_array()
    }
}

/// A record is always transmitted as exactly eight bytes.
pub proof fn lemma_notification_width(n: Notification)
    ensures
        n.wire_bytes().len() == 8,
{
}

/// A well-formed record, written out and followed by anything, is read back
/// as it was, and leaves what followed. With nothing after it, decoding the
/// encoding gives the record and consumes all eight bytes.
pub proof fn lemma_notification_round_trip(n: Notification, tail: Seq<u8>)
    requires
        n.well_formed(),
    ensures
        Notification::parse_spec(n.wire_bytes() + tail) == Ok::<
            (Seq<u8>, Notification),
            DecodeError,
        >((tail, n)),
        Notification::parse_spec(n.wire_bytes()) == Ok::<(Seq<u8>, Notification), DecodeError>(
            (Seq::empty(), n),
        ),
{
    lemma_notification_parse_of(n, tail);
    lemma_notification_parse_of(n, Seq::empty());
    assert(n.wire_bytes() + Seq::<u8>::empty() =~= n.wire_bytes());
}

/// The step of the round trip: the fields of a record one after the other,
/// each read back by the decoder of its kind.
proof fn lemma_notification_parse_of(n: Notification, tail: Seq<u8>)
    requires
        n.well_formed(),
    ensures
        Notification::parse_spec(n.wire_bytes() + tail) == Ok::<
            (Seq<u8>, Notification),
            DecodeError,
        >((tail, n)),
{
    let after_count = u32_le(n.notification_uid) + tail;
    let after_category = seq![n.category_count] + after_count;
    let after_flags = seq![n.category_id.byte()] + after_category;
    let after_event = seq![n.event_flags@] + after_flags;
    lemma_u32_prefix_of(n.notification_uid, tail);
    lemma_first_byte_of(n.category_count, after_count);
    lemma_category_id_parse_of(n.category_id, after_category);
    lemma_event_flag_parse_of(n.event_flags, after_flags);
    lemma_event_id_parse_of(n.event_id, after_event);
    assert(after_category.skip(5) =~= after_count.skip(4));
    assert(n.wire_bytes() + tail =~= seq![n.event_id.byte()] + after_event);
}

/// Whatever a record was read from begins with the eight bytes that the
/// record is written as, and the rest is what was left.
pub proof fn lemma_notification_bytes_of_parse(bytes: Seq<u8>)
    ensures
        Notification::parse_spec(bytes) matches Ok((rest, n)) ==> n.well_formed() && bytes
            == n.wire_bytes() + rest,
{
    if let Ok((rest, n)) = Notification::parse_spec(bytes) {
        let after_event = bytes.skip(1);
        let after_flags = after_event.skip(1);
        let after_category = after_flags.skip(1);
        let after_count = after_category.skip(1);
        lemma_event_id_bytes_of_parse(bytes);
        lemma_event_flag_bytes_of_parse(after_event);
        lemma_category_id_bytes_of_parse(after_flags);
        lemma_first_byte(after_category);
        lemma_u32_prefix(after_count);
        assert(after_count.skip(4) =~= rest);
        assert(seq![n.event_id.byte()] + (seq![n.event_flags@] + (seq![n.category_id.byte()] + (
            seq![n.category_count] + (u32_le(n.notification_uid) + rest)))) =~= n.wire_bytes()
            + rest);
    }
}

} // verus!
