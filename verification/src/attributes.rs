//! The identifiers, flags and attribute records that ANCS messages are made of.
//!
//! An attribute travels as a record of three fields: one identifier byte, a
//! 16-bit little-endian length, and exactly that many bytes of UTF-8 text.
//! Nothing marks the end of the text but the length in front of it.
use crate::attributes::app::AppAttributeID;
use crate::attributes::app::lemma_app_attribute_id_bytes_of_parse;
use crate::attributes::app::lemma_app_attribute_id_parse_of;
use crate::attributes::notification::lemma_notification_attribute_id_bytes_of_parse;
use crate::attributes::notification::lemma_notification_attribute_id_parse_of;
use crate::attributes::notification::NotificationAttributeID;
use crate::error::DecodeError;
use crate::wire::decode_text;
use crate::wire::is_text;
use crate::wire::le_u16;
use crate::wire::lemma_text_of_bytes;
use crate::wire::lemma_text_round_trip;
use crate::wire::lemma_u16_prefix;
use crate::wire::lemma_u16_prefix_of;
use crate::wire::parsed_view;
use crate::wire::push_text;
use crate::wire::push_u16_le;
use crate::wire::take_bytes;
use crate::wire::text_bytes;
use crate::wire::text_of;
use crate::wire::u16_from_le;
use crate::wire::u16_le;
use vstd::prelude::*;
use vstd::std_specs::convert::FromSpecImpl;

pub mod action;
pub mod app;
pub mod attribute;
pub mod category;
pub mod command;
pub mod event;
pub mod notification;

verus! {

/// An attribute as a mathematical value: its identifier, the length it
/// declares, and its text, if it has one, as a sequence of characters.
pub struct AttributeView<I> {
    pub id: I,
    pub length: u16,
    pub value: Option<Seq<char>>,
}

impl<I> AttributeView<I> {
    /// Whether the attribute has a text and declares the number of bytes
    /// that the text takes in UTF-8. Every decoded attribute is well formed,
    /// and only a well-formed attribute is found again by decoding.
    pub open spec fn well_formed(self) -> bool {
        self.value matches Some(text) && text_bytes(text).len() == self.length
    }
}

/// The bytes that follow the identifier of an attribute: the declared length,
/// least significant byte first, then the text in UTF-8. An attribute
/// without a text has no bytes after the length.
pub open spec fn length_value_bytes(length: u16, value: Option<Seq<char>>) -> Seq<u8> {
    u16_le(length) + match value {
        Some(text) => text_bytes(text),
        None => Seq::empty(),
    }
}

/// What reading a length and a text off the front of `bytes` gives: the
/// bytes that follow, the length and the text.
///
/// `TruncatedInput` if there are not two bytes for the length, or fewer
/// bytes after them than the length says; `InvalidEncoding` if the bytes of
/// the text are not valid UTF-8.
pub open spec fn parse_length_value(bytes: Seq<u8>) -> Result<
    (Seq<u8>, (u16, Seq<char>)),
    DecodeError,
> {
    if bytes.len() < 2 {
        Err(DecodeError::TruncatedInput)
    } else {
        let length = u16_from_le(bytes);
        let body = bytes.skip(2);
        if body.len() < length {
            Err(DecodeError::TruncatedInput)
        } else if !is_text(body.take(length as int)) {
            Err(DecodeError::InvalidEncoding)
        } else {
            Ok((body.skip(length as int), (length, text_of(body.take(length as int)))))
        }
    }
}

/// A length and a text of that many bytes, written out and followed by
/// anything, are read back as they were, and leave what followed.
pub proof fn lemma_parse_length_value_of_bytes(length: u16, text: Seq<char>, tail: Seq<u8>)
    requires
        text_bytes(text).len() == length,
    ensures
        parse_length_value(length_value_bytes(length, Some(text)) + tail) == Ok::<
            (Seq<u8>, (u16, Seq<char>)),
            DecodeError,
        >((tail, (length, text))),
{
    let body = text_bytes(text) + tail;
    lemma_u16_prefix_of(length, body);
    assert(length_value_bytes(length, Some(text)) + tail =~= u16_le(length) + body);
    assert(body.take(length as int) =~= text_bytes(text));
    assert(body.skip(length as int) =~= tail);
    lemma_text_round_trip(text);
}

/// Whatever a length and a text were read from begins with the bytes that
/// length and text are written as, the text takes as many bytes as the
/// length says, and the rest is what was left.
pub proof fn lemma_bytes_of_parse_length_value(bytes: Seq<u8>)
    ensures
        parse_length_value(bytes) matches Ok((rest, (length, text))) ==> bytes
            == length_value_bytes(length, Some(text)) + rest && text_bytes(text).len() == length,
{
    if let Ok((rest, (length, text))) = parse_length_value(bytes) {
        let body = bytes.skip(2);
        let raw = body.take(length as int);
        lemma_u16_prefix(bytes);
        lemma_text_of_bytes(raw);
        assert(body =~= raw + rest);
        assert(u16_le(length) + (raw + rest) =~= u16_le(length) + raw + rest);
    }
}

/// Reads a length and a text of that many bytes off the front of `i`.
fn parse_value(i: &[u8]) -> (r: Result<(&[u8], (u16, String)), DecodeError>)
    ensures
        match r {
            Ok((rest, (length, text))) => parse_length_value(i@) == Ok::<
                (Seq<u8>, (u16, Seq<char>)),
                DecodeError,
            >((rest@, (length, text@))),
            Err(e) => parse_length_value(i@) == Err::<(Seq<u8>, (u16, Seq<char>)), DecodeError>(e),
        },
{
    match le_u16(i) {
        None => Err(DecodeError::TruncatedInput),
        Some((body, length)) => match take_bytes(body, length as usize) {
            None => Err(DecodeError::TruncatedInput),
            Some((rest, raw)) => match decode_text(raw) {
                None => Err(DecodeError::InvalidEncoding),
                Some(text) => Ok((rest, (length, text))),
            },
        },
    }
}

/// Appends a length and, if there is one, a text in UTF-8.
fn push_value(out: &mut Vec<u8>, length: u16, value: &Option<String>)
    ensures
        final(out)@ == old(out)@ + length_value_bytes(
            length,
            match *value {
                Some(text) => Some(text@),
                None => None,
            },
        ),
{
    push_u16_le(out, length);
    match value {
        Some(text) => {
            push_text(out, text.as_str());
        },
        None => {
            assert(out@ + Seq::<u8>::empty() =~= out@);
        },
    }
    assert(final(out)@ =~= old(out)@ + length_value_bytes(
        length,
        match *value {
            Some(text) => Some(text@),
            None => None,
        },
    ));
}

/// One attribute of a notification.
///
/// `length` is the number of bytes that `value` takes in UTF-8. Decoding
/// always yields a value of that many bytes. The encoder writes what it is
/// given: the length as it stands, then the value, if there is one, whatever
/// its size. It is on the caller to make the two agree; `is_well_formed`
/// tells whether they do.
#[derive(Debug, PartialEq, Clone)]
pub struct NotificationAttribute {
    pub id: NotificationAttributeID,
    pub length: u16,
    pub value: Option<String>,
}

impl View for NotificationAttribute {
    type V = AttributeView<NotificationAttributeID>;

    open spec fn view(&self) -> AttributeView<NotificationAttributeID> {
        AttributeView {
            id: self.id,
            length: self.length,
            value: match self.value {
                Some(text) => Some(text@),
                None => None,
            },
        }
    }
}

impl NotificationAttribute {
    /// The bytes an attribute is transmitted as: identifier, length, text.
    pub open spec fn wire_bytes(a: AttributeView<NotificationAttributeID>) -> Seq<u8> {
        seq![a.id.byte()] + length_value_bytes(a.length, a.value)
    }

    /// What reading one attribute off the front of `bytes` gives: the bytes
    /// that follow and the attribute, or the reason there is none. The
    /// identifier is read first, then the length, then the text.
    pub open spec fn parse_spec(bytes: Seq<u8>) -> Result<
        (Seq<u8>, AttributeView<NotificationAttributeID>),
        DecodeError,
    > {
        match NotificationAttributeID::parse_spec(bytes) {
            Err(e) => Err(e),
            Ok((after_id, id)) => match parse_length_value(after_id) {
                Err(e) => Err(e),
                Ok((rest, (length, text))) => Ok(
                    (rest, AttributeView { id, length, value: Some(text) }),
                ),
            },
        }
    }

    /// Reads one attribute off the front of `i` and returns it with the bytes
    /// that follow it.
    ///
    /// Fails with `TruncatedInput` if `i` ends before the identifier, the
    /// length or the last byte of the text, with `UnknownEnumValue` if the
    /// first byte names no notification attribute, and with
    /// `InvalidEncoding` if the text is not valid UTF-8.
    pub fn parse(i: &[u8]) -> (r: Result<(&[u8], NotificationAttribute), DecodeError>)
        ensures
            parsed_view(r) == NotificationAttribute::parse_spec(i@),
            r matches Ok((_, a)) ==> a@.well_formed(),
    {
        let (after_id, id) = match NotificationAttributeID::parse(i) {
            Ok(found) => found,
            Err(e) => { return Err(e); },
        };
        let (rest, (length, text)) = match parse_value(after_id) {
            Ok(found) => found,
            Err(e) => { return Err(e); },
        };
        proof {
            lemma_bytes_of_parse_length_value(after_id@);
        }
        Ok((rest, NotificationAttribute { id, length, value: Some(text) }))
    }

    /// Tells whether the attribute has a value and `length` is the number of
    /// bytes that the value takes in UTF-8.
    pub fn is_well_formed(&self) -> (ok: bool)
        ensures
            ok == self@.well_formed(),
    {
        proof {
            reveal(text_bytes);
        }
        match &self.value {
            Some(text) => text.as_str().as_bytes().len() == self.length as usize,
            None => false,
        }
    }

    /// Appends the bytes this attribute is transmitted as.
    pub fn encode_into(&self, out: &mut Vec<u8>)
        ensures
            final(out)@ == old(out)@ + NotificationAttribute::wire_bytes(self@),
    {
        out.push(u8::from(self.id));
        push_value(out, self.length, &self.value);
        assert(final(out)@ =~= old(out)@ + NotificationAttribute::wire_bytes(self@));
    }
}

impl From<NotificationAttribute> for Vec<u8> {
    /// The bytes `original` is transmitted as: one identifier byte, the
    /// length in two bytes, least significant first, and the text in UTF-8,
    /// without terminator or padding.
    fn from(original: NotificationAttribute) -> (bytes: Vec<u8>)
        ensures
            bytes@ == NotificationAttribute::wire_bytes(original@),
    {
        let mut bytes: Vec<u8> = Vec::new();
        original.encode_into(&mut bytes);
        bytes
    }
}

impl FromSpecImpl<NotificationAttribute> for Vec<u8> {
    /// A contract can speak of a vector by its elements alone, so what `from`
    /// returns is stated there, over `wire_bytes`.
    open spec fn obeys_from_spec() -> bool {
        false
    }

    open spec fn from_spec(v: NotificationAttribute) -> Vec<u8> {
        choose|bytes: Vec<u8>| bytes@ == NotificationAttribute::wire_bytes(v@)
    }
}

/// A well-formed notification attribute, written out and followed by
/// anything, is read back as it was, and leaves what followed. With nothing
/// after it, decoding the encoding gives the attribute and consumes all.
pub proof fn lemma_notification_attribute_round_trip(
    a: AttributeView<NotificationAttributeID>,
    tail: Seq<u8>,
)
    requires
        a.well_formed(),
    ensures
        NotificationAttribute::parse_spec(NotificationAttribute::wire_bytes(a) + tail) == Ok::<
            (Seq<u8>, AttributeView<NotificationAttributeID>),
            DecodeError,
        >((tail, a)),
        NotificationAttribute::parse_spec(NotificationAttribute::wire_bytes(a)) == Ok::<
            (Seq<u8>, AttributeView<NotificationAttributeID>),
            DecodeError,
        >((Seq::empty(), a)),
        NotificationAttribute::wire_bytes(a).len() == 3 + a.length,
{
    let text = a.value->0;
    let bytes = NotificationAttribute::wire_bytes(a);
    assert forall|t: Seq<u8>|
        NotificationAttribute::parse_spec(#[trigger] (bytes + t)) == Ok::<
            (Seq<u8>, AttributeView<NotificationAttributeID>),
            DecodeError,
        >((t, a)) by {
        let after_id = length_value_bytes(a.length, Some(text)) + t;
        lemma_notification_attribute_id_parse_of(a.id, after_id);
        lemma_parse_length_value_of_bytes(a.length, text, t);
        assert(bytes + t =~= seq![a.id.byte()] + after_id);
    }
    assert(bytes + Seq::<u8>::empty() =~= bytes);
}

/// Whatever a notification attribute was read from begins with the bytes
/// that the attribute is written as, and the rest is what was left: three
/// bytes and the text shorter.
pub proof fn lemma_notification_attribute_bytes_of_parse(bytes: Seq<u8>)
    ensures
        NotificationAttribute::parse_spec(bytes) matches Ok((rest, a)) ==> a.well_formed() && bytes
            == NotificationAttribute::wire_bytes(a) + rest && rest.len() + 3 + a.length
            == bytes.len(),
{
    if let Ok((after_id, id)) = NotificationAttributeID::parse_spec(bytes) {
        lemma_notification_attribute_id_bytes_of_parse(bytes);
        lemma_bytes_of_parse_length_value(after_id);
        if let Ok((rest, (length, text))) = parse_length_value(after_id) {
            let body = length_value_bytes(length, Some(text));
            assert(seq![id.byte()] + (body + rest) =~= seq![id.byte()] + body + rest);
        }
    }
}

/// One attribute of an installed app.
///
/// `length` is the number of bytes that `value` takes in UTF-8. Decoding
/// always yields a value of that many bytes. The encoder writes what it is
/// given: the length as it stands, then the value, if there is one, whatever
/// its size. It is on the caller to make the two agree; `is_well_formed`
/// tells whether they do.
#[derive(Debug, PartialEq, Clone)]
pub struct AppAttribute {
    pub id: AppAttributeID,
    pub length: u16,
    pub value: Option<String>,
}

impl View for AppAttribute {
    type V = AttributeView<AppAttributeID>;

    open spec fn view(&self) -> AttributeView<AppAttributeID> {
        AttributeView {
            id: self.id,
            length: self.length,
            value: match self.value {
                Some(text) => Some(text@),
                None => None,
            },
        }
    }
}

impl AppAttribute {
    /// The bytes an attribute is transmitted as: identifier, length, text.
    pub open spec fn wire_bytes(a: AttributeView<AppAttributeID>) -> Seq<u8> {
        seq![a.id.byte()] + length_value_bytes(a.length, a.value)
    }

    /// What reading one attribute off the front of `bytes` gives: the bytes
    /// that follow and the attribute, or the reason there is none. The
    /// identifier is read first, then the length, then the text.
    pub open spec fn parse_spec(bytes: Seq<u8>) -> Result<
        (Seq<u8>, AttributeView<AppAttributeID>),
        DecodeError,
    > {
        match AppAttributeID::parse_spec(bytes) {
            Err(e) => Err(e),
            Ok((after_id, id)) => match parse_length_value(after_id) {
                Err(e) => Err(e),
                Ok((rest, (length, text))) => Ok(
                    (rest, AttributeView { id, length, value: Some(text) }),
                ),
            },
        }
    }

    /// Reads one attribute off the front of `i` and returns it with the bytes
    /// that follow it.
    ///
    /// Fails with `TruncatedInput` if `i` ends before the identifier, the
    /// length or the last byte of the text, with `UnknownEnumValue` if the
    /// first byte names no app attribute, and with `InvalidEncoding` if the
    /// text is not valid UTF-8.
    pub fn parse(i: &[u8]) -> (r: Result<(&[u8], AppAttribute), DecodeError>)
        ensures
            parsed_view(r) == AppAttribute::parse_spec(i@),
            r matches Ok((_, a)) ==> a@.well_formed(),
    {
        let (after_id, id) = match AppAttributeID::parse(i) {
            Ok(found) => found,
            Err(e) => { return Err(e); },
        };
        let (rest, (length, text)) = match parse_value(after_id) {
            Ok(found) => found,
            Err(e) => { return Err(e); },
        };
        proof {
            lemma_bytes_of_parse_length_value(after_id@);
        }
        Ok((rest, AppAttribute { id, length, value: Some(text) }))
    }

    /// Tells whether the attribute has a value and `length` is the number of
    /// bytes that the value takes in UTF-8.
    pub fn is_well_formed(&self) -> (ok: bool)
        ensures
            ok == self@.well_formed(),
    {
        proof {
            reveal(text_bytes);
        }
        match &self.value {
            Some(text) => text.as_str().as_bytes().len() == self.length as usize,
            None => false,
        }
    }

    /// Appends the bytes this attribute is transmitted as.
    pub fn encode_into(&self, out: &mut Vec<u8>)
        ensures
            final(out)@ == old(out)@ + AppAttribute::wire_bytes(self@),
    {
        out.push(u8::from(self.id));
        push_value(out, self.length, &self.value);
        assert(final(out)@ =~= old(out)@ + AppAttribute::wire_bytes(self@));
    }
}

impl From<AppAttribute> for Vec<u8> {
    /// The bytes `original` is transmitted as: one identifier byte, the
    /// length in two bytes, least significant first, and the text in UTF-8,
    /// without terminator or padding.
    fn from(original: AppAttribute) -> (bytes: Vec<u8>)
        ensures
            bytes@ == AppAttribute::wire_bytes(original@),
    {
        let mut bytes: Vec<u8> = Vec::new();
        original.encode_into(&mut bytes);
        bytes
    }
}

impl FromSpecImpl<AppAttribute> for Vec<u8> {
    /// A contract can speak of a vector by its elements alone, so what `from`
    /// returns is stated there, over `wire_bytes`.
    open spec fn obeys_from_spec() -> bool {
        false
    }

    open spec fn from_spec(v: AppAttribute) -> Vec<u8> {
        choose|bytes: Vec<u8>| bytes@ == AppAttribute::wire_bytes(v@)
    }
}

/// A well-formed app attribute, written out and followed by anything, is
/// read back as it was, and leaves what followed. With nothing after it,
/// decoding the encoding gives the attribute and consumes all.
pub proof fn lemma_app_attribute_round_trip(a: AttributeView<AppAttributeID>, tail: Seq<u8>)
    requires
        a.well_formed(),
    ensures
        AppAttribute::parse_spec(AppAttribute::wire_bytes(a) + tail) == Ok::<
            (Seq<u8>, AttributeView<AppAttributeID>),
            DecodeError,
        >((tail, a)),
        AppAttribute::parse_spec(AppAttribute::wire_bytes(a)) == Ok::<
            (Seq<u8>, AttributeView<AppAttributeID>),
            DecodeError,
        >((Seq::empty(), a)),
        AppAttribute::wire_bytes(a).len() == 3 + a.length,
{
    let text = a.value->0;
    let bytes = AppAttribute::wire_bytes(a);
    assert forall|t: Seq<u8>|
        AppAttribute::parse_spec(#[trigger] (bytes + t)) == Ok::<
            (Seq<u8>, AttributeView<AppAttributeID>),
            DecodeError,
        >((t, a)) by {
        let after_id = length_value_bytes(a.length, Some(text)) + t;
        lemma_app_attribute_id_parse_of(a.id, after_id);
        lemma_parse_length_value_of_bytes(a.length, text, t);
        assert(bytes + t =~= seq![a.id.byte()] + after_id);
    }
    assert(bytes + Seq::<u8>::empty() =~= bytes);
}

/// Whatever an app attribute was read from begins with the bytes that the
/// attribute is written as, and the rest is what was left: three bytes and
/// the text shorter.
pub proof fn lemma_app_attribute_bytes_of_parse(bytes: Seq<u8>)
    ensures
        AppAttribute::parse_spec(bytes) matches Ok((rest, a)) ==> a.well_formed() && bytes
            == AppAttribute::wire_bytes(a) + rest && rest.len() + 3 + a.length == bytes.len(),
{
    if let Ok((after_id, id)) = AppAttributeID::parse_spec(bytes) {
        lemma_app_attribute_id_bytes_of_parse(bytes);
        lemma_bytes_of_parse_length_value(after_id);
        if let Ok((rest, (length, text))) = parse_length_value(after_id) {
            let body = length_value_bytes(length, Some(text));
            assert(seq![id.byte()] + (body + rest) =~= seq![id.byte()] + body + rest);
        }
    }
}

} // verus!
