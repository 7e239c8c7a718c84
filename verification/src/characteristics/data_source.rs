//! The Data Source characteristic: the answers to the requests for
//! attributes.
//!
//! An answer repeats the command and the subject of the request, and then
//! holds attribute after attribute until it ends. An answer is taken whole
//! or not at all: bytes at its end that do not make up an attribute spoil
//! it.
use crate::attributes::app::AppAttributeID;
use crate::attributes::AttributeView;
use crate::attributes::command::lemma_command_id_bytes_of_parse;
use crate::attributes::command::lemma_command_id_parse_of;
use crate::attributes::lemma_app_attribute_bytes_of_parse;
use crate::attributes::lemma_app_attribute_round_trip;
use crate::attributes::lemma_notification_attribute_bytes_of_parse;
use crate::attributes::lemma_notification_attribute_round_trip;
use crate::attributes::notification::NotificationAttributeID;
use crate::error::DecodeError;
use crate::wire::concat_all;
use crate::wire::decode_text;
use crate::wire::first_null;
use crate::wire::holds_no_null;
use crate::wire::is_text;
use crate::wire::le_u32;
use crate::wire::lemma_concat_all_parse_all;
use crate::wire::lemma_concat_all_push;
use crate::wire::lemma_parse_all_concat;
use crate::wire::lemma_parse_all_step;
use crate::wire::lemma_prepend_nothing;
use crate::wire::lemma_prepend_pushed;
use crate::wire::lemma_prepend_to_nothing;
use crate::wire::lemma_terminated_prefix_of;
use crate::wire::lemma_text_before_first_null;
use crate::wire::lemma_text_of_bytes;
use crate::wire::lemma_text_round_trip;
use crate::wire::lemma_u32_prefix;
use crate::wire::lemma_u32_prefix_of;
use crate::wire::parse_all;
use crate::wire::parsed_view;
use crate::wire::prepend_items;
use crate::wire::push_terminated;
use crate::wire::push_u32_le;
use crate::wire::take_terminated;
use crate::wire::terminated;
use crate::wire::text_bytes;
use crate::wire::text_of;
use crate::wire::u32_from_le;
use crate::wire::u32_le;
use vstd::prelude::*;
use vstd::std_specs::convert::FromSpecImpl;

pub use crate::attributes::AppAttribute;
pub use crate::attributes::command::CommandID;
pub use crate::attributes::command::CommandIDError;
pub use crate::attributes::NotificationAttribute;

verus! {

/// Identifier of the Data Source characteristic.
pub const DATA_SOURCE_UUID: &'static str = "22EAC6E9-24D6-4BB5-BE44-B36ACE7C7BFB";

/// Whether every attribute of a list is well formed.
pub open spec fn all_well_formed<I>(list: Seq<AttributeView<I>>) -> bool {
    forall|k: int| 0 <= k < list.len() ==> (#[trigger] list[k]).well_formed()
}

/// A well-formed attribute in front of well-formed attributes makes a list
/// of well-formed attributes.
pub proof fn lemma_all_well_formed_prepend<I>(
    first: AttributeView<I>,
    others: Seq<AttributeView<I>>,
)
    requires
        first.well_formed(),
        all_well_formed(others),
    ensures
        all_well_formed(seq![first] + others),
{
    let list = seq![first] + others;
    assert forall|k: int| 0 <= k < list.len() implies (#[trigger] list[k]).well_formed() by {
        if k > 0 {
            assert(list[k] == others[k - 1]);
        }
    }
}

/// An attribute of a notification as a mathematical value.
pub type NotificationAttributeView = AttributeView<NotificationAttributeID>;

/// `NotificationAttribute::wire_bytes` as a function value.
pub open spec fn notification_attribute_encoder() -> spec_fn(NotificationAttributeView) -> Seq<u8> {
    |a: NotificationAttributeView| NotificationAttribute::wire_bytes(a)
}

/// `NotificationAttribute::parse_spec` as a function value.
pub open spec fn notification_attribute_decoder() -> spec_fn(Seq<u8>) -> Result<
    (Seq<u8>, NotificationAttributeView),
    DecodeError,
> {
    |bytes: Seq<u8>| NotificationAttribute::parse_spec(bytes)
}

/// The attributes of a list as mathematical values, in order.
pub open spec fn notification_attribute_views(list: Seq<NotificationAttribute>) -> Seq<
    NotificationAttributeView,
> {
    list.map_values(|a: NotificationAttribute| a@)
}

/// Reads attribute after attribute until `i` is used up, and returns the
/// attributes with the bytes that are left: none.
///
/// Fails with `TrailingInput` if `i` ends in bytes that are no whole
/// attribute, with `UnknownEnumValue` if an identifier is not defined and
/// with `InvalidEncoding` if a text is not valid UTF-8.
pub fn read_notification_attributes(i: &[u8]) -> (r: Result<
    (&[u8], Vec<NotificationAttribute>),
    DecodeError,
>)
    ensures
        match parse_all(i@, notification_attribute_decoder()) {
            Ok(found) => r matches Ok((rest, list)) && rest@.len() == 0 && found
                == notification_attribute_views(list@),
            Err(e) => r matches Err(f) && f == e,
        },
{
    let mut rest = i;
    let mut list: Vec<NotificationAttribute> = Vec::new();
    proof {
        lemma_prepend_nothing(parse_all(i@, notification_attribute_decoder()));
        assert(notification_attribute_views(list@) =~= Seq::<NotificationAttributeView>::empty());
    }
    while rest.len() > 0
        invariant
            parse_all(i@, notification_attribute_decoder()) == prepend_items(
                notification_attribute_views(list@),
                parse_all(rest@, notification_attribute_decoder()),
            ),
        decreases rest@.len(),
    {
        let (after, attribute) = match NotificationAttribute::parse(rest) {
            Ok(found) => found,
            Err(DecodeError::TruncatedInput) => { return Err(DecodeError::TrailingInput); },
            Err(e) => { return Err(e); },
        };
        proof {
            lemma_notification_attribute_bytes_of_parse(rest@);
            lemma_parse_all_step(rest@, notification_attribute_decoder());
            lemma_prepend_pushed(
                notification_attribute_views(list@),
                attribute@,
                parse_all(after@, notification_attribute_decoder()),
            );
            let done = notification_attribute_views(list@);
            assert(notification_attribute_views(list@.push(attribute)) =~= done.push(attribute@));
        }
        rest = after;
        list.push(attribute);
    }
    proof {
        lemma_prepend_to_nothing(notification_attribute_views(list@));
    }
    Ok((rest, list))
}

/// Tells whether every attribute of `list` is well formed.
pub fn are_well_formed_notification_attributes(list: &Vec<NotificationAttribute>) -> (ok: bool)
    ensures
        ok == all_well_formed(notification_attribute_views(list@)),
{
    let ghost views = notification_attribute_views(list@);
    let mut k: usize = 0;
    while k < list.len()
        invariant
            k <= list@.len(),
            views == notification_attribute_views(list@),
            forall|j: int| 0 <= j < k ==> (#[trigger] views[j]).well_formed(),
        decreases list@.len() - k,
    {
        if !list[k].is_well_formed() {
            assert(!views[k as int].well_formed());
            return false;
        }
        k += 1;
    }
    true
}

/// Appends the attributes of `list`, one after the other.
pub fn push_notification_attributes(out: &mut Vec<u8>, list: &Vec<NotificationAttribute>)
    ensures
        final(out)@ == old(out)@ + concat_all(
            notification_attribute_views(list@),
            notification_attribute_encoder(),
        ),
{
    let ghost header = out@;
    let ghost views = notification_attribute_views(list@);
    let mut k: usize = 0;
    assert(views.take(0) =~= Seq::<NotificationAttributeView>::empty());
    assert(header + Seq::<u8>::empty() =~= header);
    while k < list.len()
        invariant
            k <= list@.len(),
            views == notification_attribute_views(list@),
            out@ == header + concat_all(views.take(k as int), notification_attribute_encoder()),
        decreases list@.len() - k,
    {
        list[k].encode_into(out);
        proof {
            let done = views.take(k as int);
            lemma_concat_all_push(done, notification_attribute_encoder(), views[k as int]);
            assert(done.push(views[k as int]) =~= views.take(k + 1));
        }
        k += 1;
    }
    assert(views.take(k as int) =~= views);
}

/// A list of well-formed attributes, written one after the other, is read
/// back as it was.
pub proof fn lemma_notification_attributes_round_trip(list: Seq<NotificationAttributeView>)
    requires
        all_well_formed(list),
    ensures
        parse_all(
            concat_all(list, notification_attribute_encoder()),
            notification_attribute_decoder(),
        ) == Ok::<Seq<NotificationAttributeView>, DecodeError>(list),
{
    let enc = notification_attribute_encoder();
    let dec = notification_attribute_decoder();
    assert forall|k: int| 0 <= k < list.len() implies enc(#[trigger] list[k]).len() > 0 && dec(
        enc(list[k]) + concat_all(list.skip(k + 1), enc),
    ) == Ok::<(Seq<u8>, NotificationAttributeView), DecodeError>(
        (concat_all(list.skip(k + 1), enc), list[k]),
    ) by {
        lemma_notification_attribute_round_trip(list[k], concat_all(list.skip(k + 1), enc));
    }
    lemma_parse_all_concat(list, enc, dec);
}

/// Whatever a list of attributes was decoded from is the encoding of that
/// list, and every attribute that was found is well formed.
pub proof fn lemma_notification_attributes_bytes_of_parse(bytes: Seq<u8>)
    ensures
        parse_all(bytes, notification_attribute_decoder()) matches Ok(list) ==> all_well_formed(
            list,
        ) && concat_all(list, notification_attribute_encoder()) == bytes,
    decreases bytes.len(),
{
    let enc = notification_attribute_encoder();
    let dec = notification_attribute_decoder();
    assert forall|b: Seq<u8>| #[trigger] dec(b) matches Ok((rest, item)) ==> b == enc(item)
        + rest by {
        lemma_notification_attribute_bytes_of_parse(b);
    }
    lemma_concat_all_parse_all(bytes, enc, dec);
    if bytes.len() > 0 {
        if let Ok((rest, item)) = NotificationAttribute::parse_spec(bytes) {
            lemma_notification_attribute_bytes_of_parse(bytes);
            lemma_notification_attributes_bytes_of_parse(rest);
            if let Ok(items) = parse_all(rest, dec) {
                lemma_all_well_formed_prepend(item, items);
            }
        }
    }
}

/// An attribute of an installed app as a mathematical value.
pub type AppAttributeView = AttributeView<AppAttributeID>;

/// `AppAttribute::wire_bytes` as a function value.
pub open spec fn app_attribute_encoder() -> spec_fn(AppAttributeView) -> Seq<u8> {
    |a: AppAttributeView| AppAttribute::wire_bytes(a)
}

/// `AppAttribute::parse_spec` as a function value.
pub open spec fn app_attribute_decoder() -> spec_fn(Seq<u8>) -> Result<
    (Seq<u8>, AppAttributeView),
    DecodeError,
> {
    |bytes: Seq<u8>| AppAttribute::parse_spec(bytes)
}

/// The attributes of a list as mathematical values, in order.
pub open spec fn app_attribute_views(list: Seq<AppAttribute>) -> Seq<
    AppAttributeView,
> {
    list.map_values(|a: AppAttribute| a@)
}

/// Reads attribute after attribute until `i` is used up, and returns the
/// attributes with the bytes that are left: none.
///
/// Fails with `TrailingInput` if `i` ends in bytes that are no whole
/// attribute, with `UnknownEnumValue` if an identifier is not defined and
/// with `InvalidEncoding` if a text is not valid UTF-8.
pub fn read_app_attributes(i: &[u8]) -> (r: Result<
    (&[u8], Vec<AppAttribute>),
    DecodeError,
>)
    ensures
        match parse_all(i@, app_attribute_decoder()) {
            Ok(found) => r matches Ok((rest, list)) && rest@.len() == 0 && found
                == app_attribute_views(list@),
            Err(e) => r matches Err(f) && f == e,
        },
{
    let mut rest = i;
    let mut list: Vec<AppAttribute> = Vec::new();
    proof {
        lemma_prepend_nothing(parse_all(i@, app_attribute_decoder()));
        assert(app_attribute_views(list@) =~= Seq::<AppAttributeView>::empty());
    }
    while rest.len() > 0
        invariant
            parse_all(i@, app_attribute_decoder()) == prepend_items(
                app_attribute_views(list@),
                parse_all(rest@, app_attribute_decoder()),
            ),
        decreases rest@.len(),
    {
        let (after, attribute) = match AppAttribute::parse(rest) {
            Ok(found) => found,
            Err(DecodeError::TruncatedInput) => { return Err(DecodeError::TrailingInput); },
            Err(e) => { return Err(e); },
        };
        proof {
            lemma_app_attribute_bytes_of_parse(rest@);
            lemma_parse_all_step(rest@, app_attribute_decoder());
            lemma_prepend_pushed(
                app_attribute_views(list@),
                attribute@,
                parse_all(after@, app_attribute_decoder()),
            );
            let done = app_attribute_views(list@);
            assert(app_attribute_views(list@.push(attribute)) =~= done.push(attribute@));
        }
        rest = after;
        list.push(attribute);
    }
    proof {
        lemma_prepend_to_nothing(app_attribute_views(list@));
    }
    Ok((rest, list))
}

/// Tells whether every attribute of `list` is well formed.
pub fn are_well_formed_app_attributes(list: &Vec<AppAttribute>) -> (ok: bool)
    ensures
        ok == all_well_formed(app_attribute_views(list@)),
{
    let ghost views = app_attribute_views(list@);
    let mut k: usize = 0;
    while k < list.len()
        invariant
            k <= list@.len(),
            views == app_attribute_views(list@),
            forall|j: int| 0 <= j < k ==> (#[trigger] views[j]).well_formed(),
        decreases list@.len() - k,
    {
        if !list[k].is_well_formed() {
            assert(!views[k as int].well_formed());
            return false;
        }
        k += 1;
    }
    true
}

/// Appends the attributes of `list`, one after the other.
pub fn push_app_attributes(out: &mut Vec<u8>, list: &Vec<AppAttribute>)
    ensures
        final(out)@ == old(out)@ + concat_all(
            app_attribute_views(list@),
            app_attribute_encoder(),
        ),
{
    let ghost header = out@;
    let ghost views = app_attribute_views(list@);
    let mut k: usize = 0;
    assert(views.take(0) =~= Seq::<AppAttributeView>::empty());
    assert(header + Seq::<u8>::empty() =~= header);
    while k < list.len()
        invariant
            k <= list@.len(),
            views == app_attribute_views(list@),
            out@ == header + concat_all(views.take(k as int), app_attribute_encoder()),
        decreases list@.len() - k,
    {
        list[k].encode_into(out);
        proof {
            let done = views.take(k as int);
            lemma_concat_all_push(done, app_attribute_encoder(), views[k as int]);
            assert(done.push(views[k as int]) =~= views.take(k + 1));
        }
        k += 1;
    }
    assert(views.take(k as int) =~= views);
}

/// A list of well-formed attributes, written one after the other, is read
/// back as it was.
pub proof fn lemma_app_attributes_round_trip(list: Seq<AppAttributeView>)
    requires
        all_well_formed(list),
    ensures
        parse_all(
            concat_all(list, app_attribute_encoder()),
            app_attribute_decoder(),
        ) == Ok::<Seq<AppAttributeView>, DecodeError>(list),
{
    let enc = app_attribute_encoder();
    let dec = app_attribute_decoder();
    assert forall|k: int| 0 <= k < list.len() implies enc(#[trigger] list[k]).len() > 0 && dec(
        enc(list[k]) + concat_all(list.skip(k + 1), enc),
    ) == Ok::<(Seq<u8>, AppAttributeView), DecodeError>(
        (concat_all(list.skip(k + 1), enc), list[k]),
    ) by {
        lemma_app_attribute_round_trip(list[k], concat_all(list.skip(k + 1), enc));
    }
    lemma_parse_all_concat(list, enc, dec);
}

/// Whatever a list of attributes was decoded from is the encoding of that
/// list, and every attribute that was found is well formed.
pub proof fn lemma_app_attributes_bytes_of_parse(bytes: Seq<u8>)
    ensures
        parse_all(bytes, app_attribute_decoder()) matches Ok(list) ==> all_well_formed(
            list,
        ) && concat_all(list, app_attribute_encoder()) == bytes,
    decreases bytes.len(),
{
    let enc = app_attribute_encoder();
    let dec = app_attribute_decoder();
    assert forall|b: Seq<u8>| #[trigger] dec(b) matches Ok((rest, item)) ==> b == enc(item)
        + rest by {
        lemma_app_attribute_bytes_of_parse(b);
    }
    lemma_concat_all_parse_all(bytes, enc, dec);
    if bytes.len() > 0 {
        if let Ok((rest, item)) = AppAttribute::parse_spec(bytes) {
            lemma_app_attribute_bytes_of_parse(bytes);
            lemma_app_attributes_bytes_of_parse(rest);
            if let Ok(items) = parse_all(rest, dec) {
                lemma_all_well_formed_prepend(item, items);
            }
        }
    }
}

/// The answer to a request for attributes of one notification, as a
/// mathematical value.
pub struct GetNotificationAttributesResponseView {
    pub command_id: CommandID,
    pub notification_uid: u32,
    pub attribute_list: Seq<NotificationAttributeView>,
}

impl GetNotificationAttributesResponseView {
    /// Whether every attribute of the answer is well formed. Only then is
    /// the answer read back as it was written.
    pub open spec fn well_formed(self) -> bool {
        all_well_formed(self.attribute_list)
    }
}

/// The answer to a request for attributes of one notification.
#[derive(Debug, PartialEq, Clone)]
pub struct GetNotificationAttributesResponse {
    pub command_id: CommandID,
    pub notification_uid: u32,
    pub attribute_list: Vec<NotificationAttribute>,
}

impl View for GetNotificationAttributesResponse {
    type V = GetNotificationAttributesResponseView;

    open spec fn view(&self) -> GetNotificationAttributesResponseView {
        GetNotificationAttributesResponseView {
            command_id: self.command_id,
            notification_uid: self.notification_uid,
            attribute_list: notification_attribute_views(self.attribute_list@),
        }
    }
}

impl GetNotificationAttributesResponse {
    /// The bytes an answer is transmitted as: the command, the identifier of
    /// the notification, least significant byte first, and the attributes
    /// one after the other.
    pub open spec fn wire_bytes(v: GetNotificationAttributesResponseView) -> Seq<u8> {
        seq![v.command_id.byte()] + u32_le(v.notification_uid) + concat_all(
            v.attribute_list,
            notification_attribute_encoder(),
        )
    }

    /// What decoding `bytes` as an answer gives: the answer, and no bytes
    /// left, or the reason there is none.
    ///
    /// `TruncatedInput` if the command or the identifier of the notification
    /// is cut short, `UnknownEnumValue` if the command or the identifier of
    /// an attribute is not defined, `InvalidEncoding` if the text of an
    /// attribute is not valid UTF-8, `TrailingInput` if the bytes after the
    /// last whole attribute are no whole attribute.
    pub open spec fn parse_spec(bytes: Seq<u8>) -> Result<
        (Seq<u8>, GetNotificationAttributesResponseView),
        DecodeError,
    > {
        match CommandID::parse_spec(bytes) {
            Err(e) => Err(e),
            Ok((after_command, command_id)) => if after_command.len() < 4 {
                Err(DecodeError::TruncatedInput)
            } else {
                match parse_all(after_command.skip(4), notification_attribute_decoder()) {
                    Err(e) => Err(e),
                    Ok(attribute_list) => Ok(
                        (
                            Seq::empty(),
                            GetNotificationAttributesResponseView {
                                command_id,
                                notification_uid: u32_from_le(after_command),
                                attribute_list,
                            },
                        ),
                    ),
                }
            },
        }
    }

    /// Tells whether every attribute of the answer is well formed, so that
    /// the answer is read back as it is written.
    pub fn is_well_formed(&self) -> (ok: bool)
        ensures
            ok == self@.well_formed(),
    {
        are_well_formed_notification_attributes(&self.attribute_list)
    }

    /// Decodes an answer, all of `i` or nothing, and returns it with the
    /// bytes that are left: none.
    ///
    /// Fails with `TruncatedInput` if the command or the identifier of the
    /// notification is cut short, with `UnknownEnumValue` if the command or
    /// the identifier of an attribute is not defined, with `InvalidEncoding`
    /// if the text of an attribute is not valid UTF-8, and with
    /// `TrailingInput` if `i` ends in bytes that are no whole attribute.
    pub fn parse(i: &[u8]) -> (r: Result<(&[u8], GetNotificationAttributesResponse), DecodeError>)
        ensures
            parsed_view(r) == GetNotificationAttributesResponse::parse_spec(i@),
            r matches Ok((_, response)) ==> response@.well_formed(),
    {
        let (after_command, command_id) = match CommandID::parse(i) {
            Ok(found) => found,
            Err(e) => { return Err(e); },
        };
        let (attributes, notification_uid) = match le_u32(after_command) {
            Some(found) => found,
            None => { return Err(DecodeError::TruncatedInput); },
        };
        let (rest, attribute_list) = match read_notification_attributes(attributes) {
            Ok(found) => found,
            Err(e) => { return Err(e); },
        };
        proof {
            lemma_notification_attributes_bytes_of_parse(attributes@);
            assert(rest@ =~= Seq::<u8>::empty());
        }
        Ok(
            (
                rest,
                GetNotificationAttributesResponse { command_id, notification_uid, attribute_list },
            ),
        )
    }
}

impl From<GetNotificationAttributesResponse> for Vec<u8> {
    /// The bytes `original` is transmitted as: one byte for the command, four
    /// for the notification, then each attribute as identifier, length and
    /// text.
    fn from(original: GetNotificationAttributesResponse) -> (bytes: Vec<u8>)
        ensures
            bytes@ == GetNotificationAttributesResponse::wire_bytes(original@),
    {
        let mut bytes: Vec<u8> = Vec::new();
        bytes.push(u8::from(original.command_id));
        push_u32_le(&mut bytes, original.notification_uid);
        assert(bytes@ =~= seq![original.command_id.byte()] + u32_le(original.notification_uid));
        push_notification_attributes(&mut bytes, &original.attribute_list);
        bytes
    }
}

impl FromSpecImpl<GetNotificationAttributesResponse> for Vec<u8> {
    /// A contract can speak of a vector by its elements alone, so what `from`
    /// returns is stated there, over `wire_bytes`.
    open spec fn obeys_from_spec() -> bool {
        false
    }

    open spec fn from_spec(v: GetNotificationAttributesResponse) -> Vec<u8> {
        choose|bytes: Vec<u8>| bytes@ == GetNotificationAttributesResponse::wire_bytes(v@)
    }
}

/// Decoding the encoding of an answer gives the answer back and consumes
/// every byte, provided that its attributes are well formed.
pub proof fn lemma_get_notification_attributes_response_round_trip(
    v: GetNotificationAttributesResponseView,
)
    requires
        v.well_formed(),
    ensures
        GetNotificationAttributesResponse::parse_spec(
            GetNotificationAttributesResponse::wire_bytes(v),
        ) == Ok::<(Seq<u8>, GetNotificationAttributesResponseView), DecodeError>((Seq::empty(), v)),
{
    let list = concat_all(v.attribute_list, notification_attribute_encoder());
    let after_command = u32_le(v.notification_uid) + list;
    lemma_notification_attributes_round_trip(v.attribute_list);
    lemma_u32_prefix_of(v.notification_uid, list);
    lemma_command_id_parse_of(v.command_id, after_command);
    assert(GetNotificationAttributesResponse::wire_bytes(v) =~= seq![v.command_id.byte()]
        + after_command);
}

/// Whatever an answer was decoded from is the encoding of that answer, and
/// the answer is well formed: not one byte of the input is left aside.
pub proof fn lemma_get_notification_attributes_response_bytes_of_parse(bytes: Seq<u8>)
    ensures
        GetNotificationAttributesResponse::parse_spec(bytes) matches Ok((rest, v)) ==> rest.len()
            == 0 && v.well_formed() && bytes == GetNotificationAttributesResponse::wire_bytes(v),
{
    if let Ok((after_command, command_id)) = CommandID::parse_spec(bytes) {
        if after_command.len() >= 4 {
            let list = after_command.skip(4);
            let uid = u32_le(u32_from_le(after_command));
            let command = seq![command_id.byte()];
            lemma_command_id_bytes_of_parse(bytes);
            lemma_u32_prefix(after_command);
            lemma_notification_attributes_bytes_of_parse(list);
            assert(command + (uid + list) =~= command + uid + list);
        }
    }
}

/// The answer to a request for attributes of one installed app, as a
/// mathematical value.
pub struct GetAppAttributesResponseView {
    pub command_id: CommandID,
    pub app_identifier: Seq<char>,
    pub attribute_list: Seq<AppAttributeView>,
}

impl GetAppAttributesResponseView {
    /// Whether the identifier of the app holds no zero byte and every
    /// attribute of the answer is well formed. Only then is the answer read
    /// back as it was written.
    pub open spec fn well_formed(self) -> bool {
        !text_bytes(self.app_identifier).contains(0) && all_well_formed(self.attribute_list)
    }
}

/// The answer to a request for attributes of one installed app.
///
/// The identifier of the app is transmitted with a zero byte behind it. The
/// terminator is no part of `app_identifier`.
#[derive(Debug, PartialEq, Clone)]
pub struct GetAppAttributesResponse {
    pub command_id: CommandID,
    pub app_identifier: String,
    pub attribute_list: Vec<AppAttribute>,
}

impl View for GetAppAttributesResponse {
    type V = GetAppAttributesResponseView;

    open spec fn view(&self) -> GetAppAttributesResponseView {
        GetAppAttributesResponseView {
            command_id: self.command_id,
            app_identifier: self.app_identifier@,
            attribute_list: app_attribute_views(self.attribute_list@),
        }
    }
}

impl GetAppAttributesResponse {
    /// The bytes an answer is transmitted as: the command, the identifier of
    /// the app in UTF-8 with one zero byte behind it, unless it ends in one
    /// already, and the attributes one after the other.
    pub open spec fn wire_bytes(v: GetAppAttributesResponseView) -> Seq<u8> {
        seq![v.command_id.byte()] + terminated(text_bytes(v.app_identifier)) + concat_all(
            v.attribute_list,
            app_attribute_encoder(),
        )
    }

    /// What decoding `bytes` as an answer gives: the answer, and no bytes
    /// left, or the reason there is none.
    ///
    /// The identifier of the app is what stands before the first zero byte
    /// after the command: `TruncatedInput` if there is no zero byte. What
    /// follows must be whole attributes: `UnknownEnumValue`,
    /// `InvalidEncoding` or `TrailingInput` if it is not. Last, the
    /// identifier must be valid UTF-8: `InvalidEncoding` if it is not.
    pub open spec fn parse_spec(bytes: Seq<u8>) -> Result<
        (Seq<u8>, GetAppAttributesResponseView),
        DecodeError,
    > {
        match CommandID::parse_spec(bytes) {
            Err(e) => Err(e),
            Ok((after_command, command_id)) => {
                let end = first_null(after_command);
                if end >= after_command.len() {
                    Err(DecodeError::TruncatedInput)
                } else {
                    match parse_all(after_command.skip(end + 1), app_attribute_decoder()) {
                        Err(e) => Err(e),
                        Ok(attribute_list) => if !is_text(after_command.take(end)) {
                            Err(DecodeError::InvalidEncoding)
                        } else {
                            Ok(
                                (
                                    Seq::empty(),
                                    GetAppAttributesResponseView {
                                        command_id,
                                        app_identifier: text_of(after_command.take(end)),
                                        attribute_list,
                                    },
                                ),
                            )
                        },
                    }
                }
            },
        }
    }

    /// Tells whether the identifier of the app holds no zero byte and every
    /// attribute of the answer is well formed, so that the answer is read
    /// back as it is written.
    pub fn is_well_formed(&self) -> (ok: bool)
        ensures
            ok == self@.well_formed(),
    {
        holds_no_null(self.app_identifier.as_str()) && are_well_formed_app_attributes(
            &self.attribute_list,
        )
    }

    /// Decodes an answer, all of `i` or nothing, and returns it with the
    /// bytes that are left: none.
    ///
    /// Fails with `TruncatedInput` if the command is missing or no zero byte
    /// ends the identifier of the app, with `UnknownEnumValue` if the
    /// command or the identifier of an attribute is not defined, with
    /// `InvalidEncoding` if the text of an attribute or the identifier of
    /// the app is not valid UTF-8, and with `TrailingInput` if `i` ends in
    /// bytes that are no whole attribute.
    pub fn parse(i: &[u8]) -> (r: Result<(&[u8], GetAppAttributesResponse), DecodeError>)
        ensures
            parsed_view(r) == GetAppAttributesResponse::parse_spec(i@),
            r matches Ok((_, response)) ==> response@.well_formed(),
    {
        let (after_command, command_id) = match CommandID::parse(i) {
            Ok(found) => found,
            Err(e) => { return Err(e); },
        };
        let (attributes, text) = match take_terminated(after_command) {
            Some(found) => found,
            None => { return Err(DecodeError::TruncatedInput); },
        };
        let (rest, attribute_list) = match read_app_attributes(attributes) {
            Ok(found) => found,
            Err(e) => { return Err(e); },
        };
        let app_identifier = match decode_text(text) {
            Some(found) => found,
            None => { return Err(DecodeError::InvalidEncoding); },
        };
        proof {
            lemma_app_attributes_bytes_of_parse(attributes@);
            lemma_text_before_first_null(after_command@);
            assert(rest@ =~= Seq::<u8>::empty());
        }
        Ok((rest, GetAppAttributesResponse { command_id, app_identifier, attribute_list }))
    }
}

impl From<GetAppAttributesResponse> for Vec<u8> {
    /// The bytes `original` is transmitted as: one byte for the command, the
    /// identifier of the app with exactly one terminator added, unless it
    /// ends in a zero byte already, then each attribute as identifier, length
    /// and text.
    fn from(original: GetAppAttributesResponse) -> (bytes: Vec<u8>)
        ensures
            bytes@ == GetAppAttributesResponse::wire_bytes(original@),
    {
        let mut bytes: Vec<u8> = Vec::new();
        bytes.push(u8::from(original.command_id));
        push_terminated(&mut bytes, original.app_identifier.as_str());
        assert(bytes@ =~= seq![original.command_id.byte()] + terminated(
            text_bytes(original.app_identifier@),
        ));
        push_app_attributes(&mut bytes, &original.attribute_list);
        bytes
    }
}

impl FromSpecImpl<GetAppAttributesResponse> for Vec<u8> {
    /// A contract can speak of a vector by its elements alone, so what `from`
    /// returns is stated there, over `wire_bytes`.
    open spec fn obeys_from_spec() -> bool {
        false
    }

    open spec fn from_spec(v: GetAppAttributesResponse) -> Vec<u8> {
        choose|bytes: Vec<u8>| bytes@ == GetAppAttributesResponse::wire_bytes(v@)
    }
}

/// Decoding the encoding of an answer gives the answer back and consumes
/// every byte, provided that the identifier of the app holds no zero byte
/// and the attributes are well formed.
pub proof fn lemma_get_app_attributes_response_round_trip(v: GetAppAttributesResponseView)
    requires
        v.well_formed(),
    ensures
        GetAppAttributesResponse::parse_spec(GetAppAttributesResponse::wire_bytes(v)) == Ok::<
            (Seq<u8>, GetAppAttributesResponseView),
            DecodeError,
        >((Seq::empty(), v)),
{
    let text = text_bytes(v.app_identifier);
    let list = concat_all(v.attribute_list, app_attribute_encoder());
    let after_command = terminated(text) + list;
    lemma_app_attributes_round_trip(v.attribute_list);
    lemma_terminated_prefix_of(text, list);
    lemma_command_id_parse_of(v.command_id, after_command);
    lemma_text_round_trip(v.app_identifier);
    assert(GetAppAttributesResponse::wire_bytes(v) =~= seq![v.command_id.byte()] + after_command);
}

/// Whatever an answer was decoded from is the encoding of that answer, and
/// the answer is well formed: not one byte of the input is left aside.
pub proof fn lemma_get_app_attributes_response_bytes_of_parse(bytes: Seq<u8>)
    ensures
        GetAppAttributesResponse::parse_spec(bytes) matches Ok((rest, v)) ==> rest.len() == 0
            && v.well_formed() && bytes == GetAppAttributesResponse::wire_bytes(v),
{
    if let Ok((after_command, command_id)) = CommandID::parse_spec(bytes) {
        let end = first_null(after_command);
        if end < after_command.len() {
            let list = after_command.skip(end + 1);
            let text = after_command.take(end);
            let command = seq![command_id.byte()];
            if is_text(text) {
                lemma_command_id_bytes_of_parse(bytes);
                lemma_text_before_first_null(after_command);
                lemma_app_attributes_bytes_of_parse(list);
                lemma_text_of_bytes(text);
                assert(command + (terminated(text) + list) =~= command + terminated(text) + list);
            }
        }
    }
}

} // verus!
