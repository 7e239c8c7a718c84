//! The Control Point characteristic: requests for attributes.
//!
//! Both requests end in a list of attribute identifiers that runs to the end
//! of the message. In a request for notification attributes an identifier
//! may be followed by a 16-bit maximum length, and nothing but the identifier
//! itself tells whether it is: after `Title`, `Subtitle` or `Message` two
//! bytes, where there are two, are a length; after any other identifier the
//! next byte is the next identifier.
use crate::attributes::app::lemma_app_attribute_id_bytes_of_parse;
use crate::attributes::app::lemma_app_attribute_id_parse_of;
use crate::attributes::command::lemma_command_id_bytes_of_parse;
use crate::attributes::command::lemma_command_id_parse_of;
use crate::attributes::notification::lemma_notification_attribute_id_bytes_of_parse;
use crate::attributes::notification::lemma_notification_attribute_id_parse_of;
use crate::error::DecodeError;
use crate::wire::concat_all;
use crate::wire::decode_text;
use crate::wire::first_null;
use crate::wire::holds_no_null;
use crate::wire::is_text;
use crate::wire::le_u16;
use crate::wire::le_u32;
use crate::wire::lemma_concat_all_parse_all;
use crate::wire::lemma_concat_all_push;
use crate::wire::lemma_parse_all_concat;
use crate::wire::lemma_parse_all_step;
use crate::wire::lemma_prepend_nothing;
use crate::wire::lemma_prepend_pushed;
use crate::wire::lemma_prepend_to_nothing;
use crate::wire::lemma_terminated_prefix_of;
use crate::wire::lemma_text_before_first_null;
use crate::wire::lemma_text_of_bytes;
use crate::wire::lemma_text_round_trip;
use crate::wire::lemma_u16_prefix;
use crate::wire::lemma_u16_prefix_of;
use crate::wire::lemma_u32_prefix;
use crate::wire::lemma_u32_prefix_of;
use crate::wire::parse_all;
use crate::wire::parsed;
use crate::wire::parsed_view;
use crate::wire::prepend_items;
use crate::wire::push_terminated;
use crate::wire::push_u16_le;
use crate::wire::push_u32_le;
use crate::wire::take_terminated;
use crate::wire::terminated;
use crate::wire::text_bytes;
use crate::wire::text_of;
use crate::wire::u16_from_le;
use crate::wire::u16_le;
use crate::wire::u32_from_le;
use crate::wire::u32_le;
use vstd::prelude::*;
use vstd::std_specs::convert::FromSpecImpl;

pub use crate::attributes::app::AppAttributeID;
pub use crate::attributes::command::CommandID;
pub use crate::attributes::command::CommandIDError;
pub use crate::attributes::notification::NotificationAttributeID;

verus! {

/// Identifier of the Control Point characteristic.
pub const CONTROL_POINT_UUID: &'static str = "69D1D8F3-45E1-49A8-9821-9BBDFDAAD9D9";

/// One entry of the list of a request for notification attributes: the
/// attribute asked for and, if the accessory gives one, the most bytes it
/// wants of it.
pub type Entry = (NotificationAttributeID, Option<u16>);

/// The bytes one entry is transmitted as: the identifier, and the maximum
/// length, if there is one, least significant byte first. An entry with a
/// length takes three bytes, one without takes one.
pub open spec fn entry_bytes(entry: Entry) -> Seq<u8> {
    seq![entry.0.byte()] + match entry.1 {
        Some(length) => u16_le(length),
        None => Seq::empty(),
    }
}

/// What reading one entry off the front of `bytes` gives.
///
/// The first byte must name an identifier: `AmbiguousVariadicEntry` if it
/// names none. After an identifier that may carry a length, two bytes, if
/// there are two, are its length; otherwise the entry is the identifier
/// alone.
pub open spec fn parse_entry(bytes: Seq<u8>) -> Result<(Seq<u8>, Entry), DecodeError> {
    if bytes.len() == 0 {
        Err(DecodeError::TruncatedInput)
    } else {
        match NotificationAttributeID::from_byte(bytes[0]) {
            None => Err(DecodeError::AmbiguousVariadicEntry),
            Some(id) => if id.sized() && bytes.len() >= 3 {
                Ok((bytes.skip(3), (id, Some(u16_from_le(bytes.skip(1))))))
            } else {
                Ok((bytes.skip(1), (id, None)))
            },
        }
    }
}

/// `entry_bytes` as a function value.
pub open spec fn entry_encoder() -> spec_fn(Entry) -> Seq<u8> {
    |entry: Entry| entry_bytes(entry)
}

/// `parse_entry` as a function value.
pub open spec fn entry_decoder() -> spec_fn(Seq<u8>) -> Result<(Seq<u8>, Entry), DecodeError> {
    |bytes: Seq<u8>| parse_entry(bytes)
}

/// Whether the entry at `k` is read back as it was written.
///
/// Two things stand in the way. A length after an identifier that may carry
/// none is read as further identifiers. And an identifier that may carry a
/// length, written without one, takes the next two bytes for its length if
/// two or more bytes follow it; so such an entry must stand last, or be
/// followed by a single entry without a length.
pub open spec fn reads_back(entries: Seq<Entry>, k: int) -> bool {
    let entry = entries[k];
    &&& entry.1 is Some ==> entry.0.sized()
    &&& entry.1 is None && entry.0.sized() ==> concat_all(
        entries.skip(k + 1),
        entry_encoder(),
    ).len() < 2
}

/// Whether a list of entries is read back as it was written: whether each
/// of its entries is.
pub open spec fn unambiguous(entries: Seq<Entry>) -> bool {
    forall|k: int| 0 <= k < entries.len() ==> #[trigger] reads_back(entries, k)
}

/// Reads one entry off the front of `i`: an identifier and, after an
/// identifier that may carry one, a length if two bytes are there for it.
///
/// Fails with `TruncatedInput` on empty input and with
/// `AmbiguousVariadicEntry` on a byte that names no identifier.
pub fn read_entry(i: &[u8]) -> (r: Result<(&[u8], Entry), DecodeError>)
    ensures
        parsed(r) == parse_entry(i@),
{
    let (after_id, id) = match NotificationAttributeID::parse(i) {
        Ok(found) => found,
        Err(DecodeError::TruncatedInput) => { return Err(DecodeError::TruncatedInput); },
        Err(_) => { return Err(DecodeError::AmbiguousVariadicEntry); },
    };
    if NotificationAttributeID::is_sized(id) {
        match le_u16(after_id) {
            Some((after_length, length)) => {
                assert(after_length@ =~= i@.skip(3));
                return Ok((after_length, (id, Some(length))));
            },
            None => {},
        }
    }
    Ok((after_id, (id, None)))
}

/// Appends the bytes one entry is transmitted as.
pub fn push_entry(out: &mut Vec<u8>, entry: Entry)
    ensures
        final(out)@ == old(out)@ + entry_bytes(entry),
{
    out.push(u8::from(entry.0));
    match entry.1 {
        Some(length) => {
            push_u16_le(out, length);
        },
        None => {},
    }
    assert(final(out)@ =~= old(out)@ + entry_bytes(entry));
}

/// Reads entry after entry until `i` is used up, and returns the entries
/// with the bytes that are left: none.
///
/// Fails with `AmbiguousVariadicEntry` if a byte that must be an identifier
/// is none.
pub fn read_entries(i: &[u8]) -> (r: Result<(&[u8], Vec<Entry>), DecodeError>)
    ensures
        match parse_all(i@, entry_decoder()) {
            Ok(found) => r matches Ok((rest, entries)) && rest@.len() == 0 && entries@ == found,
            Err(e) => r matches Err(f) && f == e,
        },
{
    let mut rest = i;
    let mut entries: Vec<Entry> = Vec::new();
    proof {
        lemma_prepend_nothing(parse_all(i@, entry_decoder()));
    }
    while rest.len() > 0
        invariant
            parse_all(i@, entry_decoder()) == prepend_items(
                entries@,
                parse_all(rest@, entry_decoder()),
            ),
        decreases rest@.len(),
    {
        let (after, entry) = match read_entry(rest) {
            Ok(found) => found,
            Err(e) => { return Err(e); },
        };
        proof {
            lemma_parse_all_step(rest@, entry_decoder());
            lemma_prepend_pushed(entries@, entry, parse_all(after@, entry_decoder()));
        }
        rest = after;
        entries.push(entry);
    }
    proof {
        lemma_prepend_to_nothing(entries@);
    }
    Ok((rest, entries))
}

/// A request for attributes of one notification, as a mathematical value.
pub struct GetNotificationAttributesRequestView {
    pub command_id: CommandID,
    pub notification_uid: u32,
    pub attribute_ids: Seq<Entry>,
}

/// A request for attributes of one notification.
///
/// Each entry of `attribute_ids` names an attribute and may give the most
/// bytes the accessory wants of it. Only `Title`, `Subtitle` and `Message`
/// may carry such a length, and the length may be left out for them too.
/// The encoder writes what it is given; it is on the caller to give a length
/// only to those three, and to leave it out only where the reader will not
/// take what follows for it. `is_unambiguous` tells whether a request is
/// read back as it is written.
#[derive(Debug, PartialEq, Clone)]
pub struct GetNotificationAttributesRequest {
    pub command_id: CommandID,
    pub notification_uid: u32,
    pub attribute_ids: Vec<(NotificationAttributeID, Option<u16>)>,
}

impl View for GetNotificationAttributesRequest {
    type V = GetNotificationAttributesRequestView;

    open spec fn view(&self) -> GetNotificationAttributesRequestView {
        GetNotificationAttributesRequestView {
            command_id: self.command_id,
            notification_uid: self.notification_uid,
            attribute_ids: self.attribute_ids@,
        }
    }
}

impl GetNotificationAttributesRequest {
    /// The bytes a request is transmitted as: the command, the identifier of
    /// the notification, least significant byte first, and the entries one
    /// after the other, with nothing between them.
    pub open spec fn wire_bytes(v: GetNotificationAttributesRequestView) -> Seq<u8> {
        seq![v.command_id.byte()] + u32_le(v.notification_uid) + concat_all(
            v.attribute_ids,
            entry_encoder(),
        )
    }

    /// What decoding `bytes` as a request gives: the request, and no bytes
    /// left, or the reason there is none.
    ///
    /// `TruncatedInput` if the command or the identifier of the notification
    /// is cut short, `UnknownEnumValue` if the command is not defined,
    /// `AmbiguousVariadicEntry` if a byte that must be an attribute
    /// identifier is none.
    pub open spec fn parse_spec(bytes: Seq<u8>) -> Result<
        (Seq<u8>, GetNotificationAttributesRequestView),
        DecodeError,
    > {
        match CommandID::parse_spec(bytes) {
            Err(e) => Err(e),
            Ok((after_command, command_id)) => if after_command.len() < 4 {
                Err(DecodeError::TruncatedInput)
            } else {
                match parse_all(after_command.skip(4), entry_decoder()) {
                    Err(e) => Err(e),
                    Ok(attribute_ids) => Ok(
                        (
                            Seq::empty(),
                            GetNotificationAttributesRequestView {
                                command_id,
                                notification_uid: u32_from_le(after_command),
                                attribute_ids,
                            },
                        ),
                    ),
                }
            },
        }
    }

    /// Tells whether the request is read back as it is written: whether no
    /// entry gives a length to an identifier that may carry none, and no
    /// identifier that may carry a length stands without one in front of two
    /// or more bytes.
    pub fn is_unambiguous(&self) -> (ok: bool)
        ensures
            ok == unambiguous(self@.attribute_ids),
    {
        let ghost entries = self.attribute_ids@;
        let mut k: usize = self.attribute_ids.len();
        let mut after: u8 = 0;
        assert(concat_all(entries.skip(k as int), entry_encoder()).len() == 0);
        while k > 0
            invariant
                k <= entries.len(),
                entries == self.attribute_ids@,
                after <= 2,
                after < 2 ==> after == concat_all(entries.skip(k as int), entry_encoder()).len(),
                after == 2 ==> concat_all(entries.skip(k as int), entry_encoder()).len() >= 2,
                forall|j: int| k <= j < entries.len() ==> #[trigger] reads_back(entries, j),
            decreases k,
        {
            k -= 1;
            let (id, length) = self.attribute_ids[k];
            let sized = NotificationAttributeID::is_sized(id);
            proof {
                let here = entries.skip(k as int);
                assert(here[0] == entries[k as int]);
                assert(here.skip(1) =~= entries.skip(k + 1));
                lemma_entry_width(id, 0);
            }
            if length.is_some() {
                if !sized {
                    assert(!reads_back(entries, k as int));
                    return false;
                }
                after = 2;
            } else {
                if sized && after >= 2 {
                    assert(!reads_back(entries, k as int));
                    return false;
                }
                if after < 2 {
                    after += 1;
                }
            }
        }
        true
    }

    /// Decodes a request, reading entries until `i` is used up, and returns
    /// it with the bytes that are left: none.
    ///
    /// Fails with `TruncatedInput` if the command or the identifier of the
    /// notification is cut short, with `UnknownEnumValue` if the command is
    /// not defined, and with `AmbiguousVariadicEntry` if a byte that must be
    /// an attribute identifier is none. A request without entries is valid.
    pub fn parse(i: &[u8]) -> (r: Result<(&[u8], GetNotificationAttributesRequest), DecodeError>)
        ensures
            parsed_view(r) == GetNotificationAttributesRequest::parse_spec(i@),
    {
        let (after_command, command_id) = match CommandID::parse(i) {
            Ok(found) => found,
            Err(e) => { return Err(e); },
        };
        let (entries, notification_uid) = match le_u32(after_command) {
            Some(found) => found,
            None => { return Err(DecodeError::TruncatedInput); },
        };
        let (rest, attribute_ids) = match read_entries(entries) {
            Ok(found) => found,
            Err(e) => { return Err(e); },
        };
        assert(rest@ =~= Seq::<u8>::empty());
        Ok((rest, GetNotificationAttributesRequest { command_id, notification_uid, attribute_ids }))
    }
}

impl From<GetNotificationAttributesRequest> for Vec<u8> {
    /// The bytes `original` is transmitted as: one byte for the command, four
    /// for the notification, then for each entry its identifier and, if it
    /// has one, its length in two bytes.
    fn from(original: GetNotificationAttributesRequest) -> (bytes: Vec<u8>)
        ensures
            bytes@ == GetNotificationAttributesRequest::wire_bytes(original@),
    {
        let mut bytes: Vec<u8> = Vec::new();
        bytes.push(u8::from(original.command_id));
        push_u32_le(&mut bytes, original.notification_uid);
        let ghost header = bytes@;
        let ghost entries = original.attribute_ids@;
        let mut k: usize = 0;
        assert(entries.take(0) =~= Seq::<Entry>::empty());
        assert(header + Seq::<u8>::empty() =~= header);
        while k < original.attribute_ids.len()
            invariant
                k <= entries.len(),
                entries == original.attribute_ids@,
                bytes@ == header + concat_all(entries.take(k as int), entry_encoder()),
            decreases entries.len() - k,
        {
            push_entry(&mut bytes, original.attribute_ids[k]);
            proof {
                lemma_concat_all_push(entries.take(k as int), entry_encoder(), entries[k as int]);
                assert(entries.take(k as int).push(entries[k as int]) =~= entries.take(k + 1));
                assert(bytes@ =~= header + concat_all(entries.take(k + 1), entry_encoder()));
            }
            k += 1;
        }
        assert(entries.take(k as int) =~= entries);
        assert(header =~= seq![original.command_id.byte()] + u32_le(original.notification_uid));
        bytes
    }
}

impl FromSpecImpl<GetNotificationAttributesRequest> for Vec<u8> {
    /// A contract can speak of a vector by its elements alone, so what `from`
    /// returns is stated there, over `wire_bytes`.
    open spec fn obeys_from_spec() -> bool {
        false
    }

    open spec fn from_spec(v: GetNotificationAttributesRequest) -> Vec<u8> {
        choose|bytes: Vec<u8>| bytes@ == GetNotificationAttributesRequest::wire_bytes(v@)
    }
}

/// An entry with a length is written as three bytes, an entry without as
/// one, whatever its identifier.
pub proof fn lemma_entry_width(id: NotificationAttributeID, length: u16)
    ensures
        entry_bytes((id, Some(length))).len() == 3,
        entry_bytes((id, None)).len() == 1,
        entry_bytes((id, Some(length))) == seq![id.byte()] + u16_le(length),
        entry_bytes((id, None)) == seq![id.byte()],
{
    assert(entry_bytes((id, None)) =~= seq![id.byte()]);
}

/// An entry in front of the entries that follow it is read back as it was,
/// if it is one of an unambiguous list.
proof fn lemma_parse_entry_in_list(entries: Seq<Entry>, k: int)
    requires
        unambiguous(entries),
        0 <= k < entries.len(),
    ensures
        entry_bytes(entries[k]).len() > 0,
        parse_entry(entry_bytes(entries[k]) + concat_all(entries.skip(k + 1), entry_encoder()))
            == Ok::<(Seq<u8>, Entry), DecodeError>(
            (concat_all(entries.skip(k + 1), entry_encoder()), entries[k]),
        ),
{
    let entry = entries[k];
    let tail = concat_all(entries.skip(k + 1), entry_encoder());
    assert(reads_back(entries, k));
    match entry.1 {
        Some(length) => {
            let after_id = u16_le(length) + tail;
            lemma_u16_prefix_of(length, tail);
            lemma_notification_attribute_id_parse_of(entry.0, after_id);
            assert(entry_bytes(entry) + tail =~= seq![entry.0.byte()] + after_id);
            assert((seq![entry.0.byte()] + after_id).skip(3) =~= after_id.skip(2));
        },
        None => {
            lemma_notification_attribute_id_parse_of(entry.0, tail);
            assert(entry_bytes(entry) + tail =~= seq![entry.0.byte()] + tail);
        },
    }
}

/// Whatever an entry was read from begins with the bytes that the entry is
/// written as, and the rest is what was left.
proof fn lemma_bytes_of_parse_entry(bytes: Seq<u8>)
    ensures
        parse_entry(bytes) matches Ok((rest, entry)) ==> bytes == entry_bytes(entry) + rest,
{
    if let Ok((rest, entry)) = parse_entry(bytes) {
        let after_id = bytes.skip(1);
        let id = seq![entry.0.byte()];
        lemma_notification_attribute_id_bytes_of_parse(bytes);
        match entry.1 {
            Some(length) => {
                lemma_u16_prefix(after_id);
                assert(after_id.skip(2) =~= rest);
                assert(id + (u16_le(length) + rest) =~= id + u16_le(length) + rest);
            },
            None => {
                assert(id + rest =~= id + Seq::<u8>::empty() + rest);
            },
        }
    }
}

/// A list of entries that is unambiguous, written one after the other, is
/// read back as it was.
pub proof fn lemma_entries_round_trip(entries: Seq<Entry>)
    requires
        unambiguous(entries),
    ensures
        parse_all(concat_all(entries, entry_encoder()), entry_decoder()) == Ok::<
            Seq<Entry>,
            DecodeError,
        >(entries),
{
    assert forall|k: int| 0 <= k < entries.len() implies (entry_encoder())(
        #[trigger] entries[k],
    ).len() > 0 && (entry_decoder())(
        (entry_encoder())(entries[k]) + concat_all(entries.skip(k + 1), entry_encoder()),
    ) == Ok::<(Seq<u8>, Entry), DecodeError>(
        (concat_all(entries.skip(k + 1), entry_encoder()), entries[k]),
    ) by {
        lemma_parse_entry_in_list(entries, k);
    }
    lemma_parse_all_concat(entries, entry_encoder(), entry_decoder());
}

/// A list of entries that decoding finds again in its encoding is
/// unambiguous.
pub proof fn lemma_entries_round_trip_only(entries: Seq<Entry>)
    requires
        parse_all(concat_all(entries, entry_encoder()), entry_decoder()) == Ok::<
            Seq<Entry>,
            DecodeError,
        >(entries),
    ensures
        unambiguous(entries),
    decreases entries.len(),
{
    if entries.len() > 0 {
        let first = entries[0];
        let tail = entries.skip(1);
        let tail_bytes = concat_all(tail, entry_encoder());
        let all = concat_all(entries, entry_encoder());
        assert(all == entry_bytes(first) + tail_bytes);
        assert(NotificationAttributeID::from_byte(first.0.byte()) == Some(first.0));
        assert(all[0] == first.0.byte());
        let (rest, item) = parse_entry(all)->Ok_0;
        let items = parse_all(rest, entry_decoder())->Ok_0;
        assert(entries == seq![item] + items);
        assert(item == entries[0]);
        assert(items =~= tail);
        match first.1 {
            Some(length) => {
                assert(all.skip(3) =~= tail_bytes);
            },
            None => {
                assert(all.skip(1) =~= tail_bytes);
            },
        }
        lemma_entries_round_trip_only(tail);
        assert forall|k: int| 0 <= k < entries.len() implies #[trigger] reads_back(entries, k) by {
            if k > 0 {
                assert(reads_back(tail, k - 1));
                assert(entries[k] == tail[k - 1]);
                assert(entries.skip(k + 1) =~= tail.skip(k));
            } else {
                assert(entries.skip(1) =~= tail);
            }
        }
    }
}

/// Whatever a list of entries was decoded from is the encoding of that list.
pub proof fn lemma_entries_bytes_of_parse(bytes: Seq<u8>)
    ensures
        parse_all(bytes, entry_decoder()) matches Ok(entries) ==> concat_all(
            entries,
            entry_encoder(),
        ) == bytes,
{
    assert forall|b: Seq<u8>| #[trigger]
        (entry_decoder())(b) matches Ok((rest, item)) ==> b == (entry_encoder())(item) + rest by {
        lemma_bytes_of_parse_entry(b);
    }
    lemma_concat_all_parse_all(bytes, entry_encoder(), entry_decoder());
}

/// Decoding the encoding of a request gives the request back and consumes
/// every byte, provided that its list of entries is unambiguous.
pub proof fn lemma_get_notification_attributes_request_round_trip(
    v: GetNotificationAttributesRequestView,
)
    requires
        unambiguous(v.attribute_ids),
    ensures
        GetNotificationAttributesRequest::parse_spec(
            GetNotificationAttributesRequest::wire_bytes(v),
        ) == Ok::<(Seq<u8>, GetNotificationAttributesRequestView), DecodeError>((Seq::empty(), v)),
{
    let list = concat_all(v.attribute_ids, entry_encoder());
    let after_command = u32_le(v.notification_uid) + list;
    lemma_entries_round_trip(v.attribute_ids);
    lemma_u32_prefix_of(v.notification_uid, list);
    lemma_command_id_parse_of(v.command_id, after_command);
    assert(GetNotificationAttributesRequest::wire_bytes(v) =~= seq![v.command_id.byte()]
        + after_command);
}

/// A request that is read back as it was written has an unambiguous list
/// of entries: the condition of the round trip leaves out no request for
/// which the round trip holds.
pub proof fn lemma_get_notification_attributes_request_round_trip_only(
    v: GetNotificationAttributesRequestView,
)
    requires
        GetNotificationAttributesRequest::parse_spec(
            GetNotificationAttributesRequest::wire_bytes(v),
        ) == Ok::<(Seq<u8>, GetNotificationAttributesRequestView), DecodeError>((Seq::empty(), v)),
    ensures
        unambiguous(v.attribute_ids),
{
    let list = concat_all(v.attribute_ids, entry_encoder());
    let after_command = u32_le(v.notification_uid) + list;
    lemma_u32_prefix_of(v.notification_uid, list);
    lemma_command_id_parse_of(v.command_id, after_command);
    assert(GetNotificationAttributesRequest::wire_bytes(v) =~= seq![v.command_id.byte()]
        + after_command);
    lemma_entries_round_trip_only(v.attribute_ids);
}

/// Whatever a request was decoded from is the encoding of that request:
/// decoding accepts nothing that encoding the result would not produce.
pub proof fn lemma_get_notification_attributes_request_bytes_of_parse(bytes: Seq<u8>)
    ensures
        GetNotificationAttributesRequest::parse_spec(bytes) matches Ok((rest, v)) ==> rest.len()
            == 0 && bytes == GetNotificationAttributesRequest::wire_bytes(v),
{
    if let Ok((after_command, command_id)) = CommandID::parse_spec(bytes) {
        if after_command.len() >= 4 {
            let list = after_command.skip(4);
            let uid = u32_le(u32_from_le(after_command));
            let command = seq![command_id.byte()];
            lemma_command_id_bytes_of_parse(bytes);
            lemma_u32_prefix(after_command);
            lemma_entries_bytes_of_parse(list);
            assert(command + (uid + list) =~= command + uid + list);
        }
    }
}

/// The byte of an app attribute identifier, as a function value.
pub open spec fn app_id_encoder() -> spec_fn(AppAttributeID) -> Seq<u8> {
    |id: AppAttributeID| seq![id.byte()]
}

/// `AppAttributeID::parse_spec` as a function value.
pub open spec fn app_id_decoder() -> spec_fn(Seq<u8>) -> Result<
    (Seq<u8>, AppAttributeID),
    DecodeError,
> {
    |bytes: Seq<u8>| AppAttributeID::parse_spec(bytes)
}

/// Reads one attribute identifier after the other until `i` is used up, and
/// returns them with the bytes that are left: none.
///
/// Fails with `UnknownEnumValue` if a byte names no app attribute.
pub fn read_app_ids(i: &[u8]) -> (r: Result<(&[u8], Vec<AppAttributeID>), DecodeError>)
    ensures
        match parse_all(i@, app_id_decoder()) {
            Ok(found) => r matches Ok((rest, ids)) && rest@.len() == 0 && ids@ == found,
            Err(e) => r matches Err(f) && f == e,
        },
{
    let mut rest = i;
    let mut ids: Vec<AppAttributeID> = Vec::new();
    proof {
        lemma_prepend_nothing(parse_all(i@, app_id_decoder()));
    }
    while rest.len() > 0
        invariant
            parse_all(i@, app_id_decoder()) == prepend_items(
                ids@,
                parse_all(rest@, app_id_decoder()),
            ),
        decreases rest@.len(),
    {
        let (after, id) = match AppAttributeID::parse(rest) {
            Ok(found) => found,
            Err(e) => { return Err(e); },
        };
        proof {
            lemma_parse_all_step(rest@, app_id_decoder());
            lemma_prepend_pushed(ids@, id, parse_all(after@, app_id_decoder()));
        }
        rest = after;
        ids.push(id);
    }
    proof {
        lemma_prepend_to_nothing(ids@);
    }
    Ok((rest, ids))
}

/// A request for attributes of one installed app, as a mathematical value.
pub struct GetAppAttributesRequestView {
    pub command_id: CommandID,
    pub app_identifier: Seq<char>,
    pub attribute_ids: Seq<AppAttributeID>,
}

impl GetAppAttributesRequestView {
    /// Whether the identifier of the app holds no zero byte, so that the
    /// terminator that follows it is the first. Only then is it read back as
    /// it was written.
    pub open spec fn well_formed(self) -> bool {
        !text_bytes(self.app_identifier).contains(0)
    }
}

/// A request for attributes of one installed app.
///
/// The identifier of the app is transmitted with a zero byte behind it. The
/// terminator is no part of `app_identifier`: an identifier that holds a
/// zero byte is not read back as it was written, and `is_well_formed` tells
/// whether it holds none.
#[derive(Debug, PartialEq, Clone)]
pub struct GetAppAttributesRequest {
    pub command_id: CommandID,
    pub app_identifier: String,
    pub attribute_ids: Vec<AppAttributeID>,
}

impl View for GetAppAttributesRequest {
    type V = GetAppAttributesRequestView;

    open spec fn view(&self) -> GetAppAttributesRequestView {
        GetAppAttributesRequestView {
            command_id: self.command_id,
            app_identifier: self.app_identifier@,
            attribute_ids: self.attribute_ids@,
        }
    }
}

impl GetAppAttributesRequest {
    /// The bytes a request is transmitted as: the command, the identifier of
    /// the app in UTF-8 with one zero byte behind it, unless it ends in one
    /// already, and one byte for each attribute identifier.
    pub open spec fn wire_bytes(v: GetAppAttributesRequestView) -> Seq<u8> {
        seq![v.command_id.byte()] + terminated(text_bytes(v.app_identifier)) + concat_all(
            v.attribute_ids,
            app_id_encoder(),
        )
    }

    /// What decoding `bytes` as a request gives: the request, and no bytes
    /// left, or the reason there is none.
    ///
    /// The identifier of the app is what stands before the first zero byte
    /// after the command: `TruncatedInput` if there is no zero byte. Every
    /// byte after it must name an attribute: `UnknownEnumValue` if one does
    /// not. Last, the identifier must be valid UTF-8: `InvalidEncoding` if
    /// it is not.
    pub open spec fn parse_spec(bytes: Seq<u8>) -> Result<
        (Seq<u8>, GetAppAttributesRequestView),
        DecodeError,
    > {
        match CommandID::parse_spec(bytes) {
            Err(e) => Err(e),
            Ok((after_command, command_id)) => {
                let end = first_null(after_command);
                if end >= after_command.len() {
                    Err(DecodeError::TruncatedInput)
                } else {
                    match parse_all(after_command.skip(end + 1), app_id_decoder()) {
                        Err(e) => Err(e),
                        Ok(attribute_ids) => if !is_text(after_command.take(end)) {
                            Err(DecodeError::InvalidEncoding)
                        } else {
                            Ok(
                                (
                                    Seq::empty(),
                                    GetAppAttributesRequestView {
                                        command_id,
                                        app_identifier: text_of(after_command.take(end)),
                                        attribute_ids,
                                    },
                                ),
                            )
                        },
                    }
                }
            },
        }
    }

    /// Tells whether the identifier of the app holds no zero byte, so that
    /// the request is read back as it is written.
    pub fn is_well_formed(&self) -> (ok: bool)
        ensures
            ok == self@.well_formed(),
    {
        holds_no_null(self.app_identifier.as_str())
    }

    /// Decodes a request, reading attribute identifiers until `i` is used
    /// up, and returns it with the bytes that are left: none.
    ///
    /// Fails with `TruncatedInput` if the command is missing or no zero byte
    /// ends the identifier of the app, with `UnknownEnumValue` if the
    /// command or an attribute identifier is not defined, and with
    /// `InvalidEncoding` if the identifier of the app is not valid UTF-8.
    pub fn parse(i: &[u8]) -> (r: Result<(&[u8], GetAppAttributesRequest), DecodeError>)
        ensures
            parsed_view(r) == GetAppAttributesRequest::parse_spec(i@),
            r matches Ok((_, request)) ==> request@.well_formed(),
    {
        let (after_command, command_id) = match CommandID::parse(i) {
            Ok(found) => found,
            Err(e) => { return Err(e); },
        };
        let (ids, text) = match take_terminated(after_command) {
            Some(found) => found,
            None => { return Err(DecodeError::TruncatedInput); },
        };
        let (rest, attribute_ids) = match read_app_ids(ids) {
            Ok(found) => found,
            Err(e) => { return Err(e); },
        };
        let app_identifier = match decode_text(text) {
            Some(found) => found,
            None => { return Err(DecodeError::InvalidEncoding); },
        };
        proof {
            lemma_text_before_first_null(after_command@);
            assert(rest@ =~= Seq::<u8>::empty());
        }
        Ok((rest, GetAppAttributesRequest { command_id, app_identifier, attribute_ids }))
    }
}

impl From<GetAppAttributesRequest> for Vec<u8> {
    /// The bytes `original` is transmitted as: one byte for the command, the
    /// identifier of the app with exactly one terminator added, unless it
    /// ends in a zero byte already, and one byte for each attribute
    /// identifier.
    fn from(original: GetAppAttributesRequest) -> (bytes: Vec<u8>)
        ensures
            bytes@ == GetAppAttributesRequest::wire_bytes(original@),
    {
        let mut bytes: Vec<u8> = Vec::new();
        bytes.push(u8::from(original.command_id));
        push_terminated(&mut bytes, original.app_identifier.as_str());
        let ghost header = bytes@;
        let ghost ids = original.attribute_ids@;
        let mut k: usize = 0;
        assert(ids.take(0) =~= Seq::<AppAttributeID>::empty());
        assert(header + Seq::<u8>::empty() =~= header);
        while k < original.attribute_ids.len()
            invariant
                k <= ids.len(),
                ids == original.attribute_ids@,
                bytes@ == header + concat_all(ids.take(k as int), app_id_encoder()),
            decreases ids.len() - k,
        {
            let ghost before = bytes@;
            bytes.push(u8::from(original.attribute_ids[k]));
            proof {
                lemma_concat_all_push(ids.take(k as int), app_id_encoder(), ids[k as int]);
                assert(ids.take(k as int).push(ids[k as int]) =~= ids.take(k + 1));
                assert(bytes@ =~= before + seq![ids[k as int].byte()]);
            }
            k += 1;
        }
        assert(ids.take(k as int) =~= ids);
        assert(header =~= seq![original.command_id.byte()] + terminated(
            text_bytes(original.app_identifier@),
        ));
        bytes
    }
}

impl FromSpecImpl<GetAppAttributesRequest> for Vec<u8> {
    /// A contract can speak of a vector by its elements alone, so what `from`
    /// returns is stated there, over `wire_bytes`.
    open spec fn obeys_from_spec() -> bool {
        false
    }

    open spec fn from_spec(v: GetAppAttributesRequest) -> Vec<u8> {
        choose|bytes: Vec<u8>| bytes@ == GetAppAttributesRequest::wire_bytes(v@)
    }
}

/// A list of attribute identifiers, written one byte each, is read back as
/// it was.
pub proof fn lemma_app_ids_round_trip(ids: Seq<AppAttributeID>)
    ensures
        parse_all(concat_all(ids, app_id_encoder()), app_id_decoder()) == Ok::<
            Seq<AppAttributeID>,
            DecodeError,
        >(ids),
{
    assert forall|k: int| 0 <= k < ids.len() implies (app_id_encoder())(#[trigger] ids[k]).len()
        > 0 && (app_id_decoder())(
        (app_id_encoder())(ids[k]) + concat_all(ids.skip(k + 1), app_id_encoder()),
    ) == Ok::<(Seq<u8>, AppAttributeID), DecodeError>(
        (concat_all(ids.skip(k + 1), app_id_encoder()), ids[k]),
    ) by {
        lemma_app_attribute_id_parse_of(ids[k], concat_all(ids.skip(k + 1), app_id_encoder()));
    }
    lemma_parse_all_concat(ids, app_id_encoder(), app_id_decoder());
}

/// Whatever a list of attribute identifiers was decoded from is the encoding
/// of that list.
pub proof fn lemma_app_ids_bytes_of_parse(bytes: Seq<u8>)
    ensures
        parse_all(bytes, app_id_decoder()) matches Ok(ids) ==> concat_all(ids, app_id_encoder())
            == bytes,
{
    assert forall|b: Seq<u8>| #[trigger]
        (app_id_decoder())(b) matches Ok((rest, item)) ==> b == (app_id_encoder())(item) + rest by {
        lemma_app_attribute_id_bytes_of_parse(b);
    }
    lemma_concat_all_parse_all(bytes, app_id_encoder(), app_id_decoder());
}

/// Decoding the encoding of a request gives the request back and consumes
/// every byte, provided that the identifier of the app holds no zero byte.
pub proof fn lemma_get_app_attributes_request_round_trip(v: GetAppAttributesRequestView)
    requires
        v.well_formed(),
    ensures
        GetAppAttributesRequest::parse_spec(GetAppAttributesRequest::wire_bytes(v)) == Ok::<
            (Seq<u8>, GetAppAttributesRequestView),
            DecodeError,
        >((Seq::empty(), v)),
{
    let text = text_bytes(v.app_identifier);
    let list = concat_all(v.attribute_ids, app_id_encoder());
    let after_command = terminated(text) + list;
    lemma_app_ids_round_trip(v.attribute_ids);
    lemma_terminated_prefix_of(text, list);
    lemma_command_id_parse_of(v.command_id, after_command);
    lemma_text_round_trip(v.app_identifier);
    assert(GetAppAttributesRequest::wire_bytes(v) =~= seq![v.command_id.byte()] + after_command);
}

/// Whatever a request was decoded from is the encoding of that request, and
/// the identifier of the app that was found holds no zero byte.
pub proof fn lemma_get_app_attributes_request_bytes_of_parse(bytes: Seq<u8>)
    ensures
        GetAppAttributesRequest::parse_spec(bytes) matches Ok((rest, v)) ==> rest.len() == 0
            && v.well_formed() && bytes == GetAppAttributesRequest::wire_bytes(v),
{
    if let Ok((after_command, command_id)) = CommandID::parse_spec(bytes) {
        let end = first_null(after_command);
        if end < after_command.len() {
            let list = after_command.skip(end + 1);
            let text = after_command.take(end);
            let command = seq![command_id.byte()];
            if is_text(text) {
                lemma_command_id_bytes_of_parse(bytes);
                lemma_text_before_first_null(after_command);
                lemma_app_ids_bytes_of_parse(list);
                lemma_text_of_bytes(text);
                assert(command + (terminated(text) + list) =~= command + terminated(text) + list);
            }
        }
    }
}

} // verus!
