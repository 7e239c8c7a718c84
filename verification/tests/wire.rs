use ancs::attributes::app::AppAttributeID;
use ancs::attributes::notification::NotificationAttributeID;
use ancs::attributes::AppAttribute;
use ancs::attributes::NotificationAttribute;
use ancs::characteristics::control_point::push_entry;
use ancs::characteristics::control_point::read_app_ids;
use ancs::characteristics::control_point::read_entries;
use ancs::characteristics::control_point::read_entry;
use ancs::characteristics::data_source::push_app_attributes;
use ancs::characteristics::data_source::push_notification_attributes;
use ancs::characteristics::data_source::read_app_attributes;
use ancs::characteristics::data_source::read_notification_attributes;
use ancs::error::DecodeError;
use ancs::wire::decode_text;
use ancs::wire::push_terminated;
use ancs::wire::push_text;
use ancs::wire::push_u16_le;
use ancs::wire::push_u32_le;
use ancs::wire::take_bytes;
use ancs::wire::take_terminated;

#[test]
fn little_endian_numbers() {
    let mut out: Vec<u8> = vec![7];
    push_u16_le(&mut out, 0x1234);
    push_u16_le(&mut out, 0);
    push_u16_le(&mut out, u16::MAX);
    push_u16_le(&mut out, 255);
    push_u16_le(&mut out, 256);
    assert_eq!(out, vec![7, 0x34, 0x12, 0, 0, 255, 255, 255, 0, 0, 1]);

    let mut out: Vec<u8> = Vec::new();
    push_u32_le(&mut out, 0x1234_5678);
    push_u32_le(&mut out, 0);
    push_u32_le(&mut out, u32::MAX);
    push_u32_le(&mut out, 0x0001_0000);
    push_u32_le(&mut out, 0x0100_0000);
    assert_eq!(
        out,
        vec![0x78, 0x56, 0x34, 0x12, 0, 0, 0, 0, 255, 255, 255, 255, 0, 0, 1, 0, 0, 0, 0, 1]
    );
}

#[test]
fn little_endian_numbers_agree_with_std() {
    let values = [0u32, 1, 0xff, 0x100, 0xffff, 0x1_0000, 0xff_ffff, 0x100_0000, 0xdead_beef];
    for v in values {
        let mut out: Vec<u8> = Vec::new();
        push_u32_le(&mut out, v);
        assert_eq!(out, v.to_le_bytes().to_vec());
        let mut out: Vec<u8> = Vec::new();
        push_u16_le(&mut out, v as u16);
        assert_eq!(out, (v as u16).to_le_bytes().to_vec());
    }
}

#[test]
fn text_in_and_out() {
    let mut out: Vec<u8> = vec![1];
    push_text(&mut out, "a\u{e9}");
    push_text(&mut out, "");
    assert_eq!(out, vec![1, 0x61, 0xc3, 0xa9]);
    assert_eq!(decode_text(&out[1..]), Some("a\u{e9}".to_string()));
    assert_eq!(decode_text(&[]), Some(String::new()));
    assert_eq!(decode_text(&[0]), Some("\u{0}".to_string()));
    // A lone continuation byte, a cut sequence, an overlong form, a surrogate.
    assert_eq!(decode_text(&[0xa9]), None);
    assert_eq!(decode_text(&[0x61, 0xc3]), None);
    assert_eq!(decode_text(&[0xc0, 0x80]), None);
    assert_eq!(decode_text(&[0xed, 0xa0, 0x80]), None);
}

#[test]
fn terminated_identifiers() {
    let mut out: Vec<u8> = Vec::new();
    push_terminated(&mut out, "ab");
    assert_eq!(out, vec![97, 98, 0]);
    push_terminated(&mut out, "cd\u{0}");
    assert_eq!(out, vec![97, 98, 0, 99, 100, 0]);
    push_terminated(&mut out, "");
    assert_eq!(out, vec![97, 98, 0, 99, 100, 0, 0]);
    push_terminated(&mut out, "\u{0}");
    assert_eq!(out, vec![97, 98, 0, 99, 100, 0, 0, 0]);
    push_terminated(&mut out, "e\u{0}\u{0}");
    assert_eq!(out, vec![97, 98, 0, 99, 100, 0, 0, 0, 101, 0, 0]);
    push_terminated(&mut out, "f\u{0}g");
    assert_eq!(out, vec![97, 98, 0, 99, 100, 0, 0, 0, 101, 0, 0, 102, 0, 103, 0]);

    let (rest, text) = take_terminated(&[97, 98, 0, 99, 100, 0]).unwrap();
    assert_eq!(text, [97, 98]);
    assert_eq!(rest, [99, 100, 0]);
    let (rest, text) = take_terminated(&[0]).unwrap();
    assert!(text.is_empty());
    assert!(rest.is_empty());
    let (rest, text) = take_terminated(&[0, 0, 5]).unwrap();
    assert!(text.is_empty());
    assert_eq!(rest, [0, 5]);
    assert_eq!(take_terminated(&[]), None);
    assert_eq!(take_terminated(&[97, 98]), None);
}

#[test]
fn counted_bytes() {
    let bytes = [1u8, 2, 3];
    let (rest, taken) = take_bytes(&bytes, 2).unwrap();
    assert_eq!(taken, [1, 2]);
    assert_eq!(rest, [3]);
    let (rest, taken) = take_bytes(&bytes, 0).unwrap();
    assert!(taken.is_empty());
    assert_eq!(rest, [1, 2, 3]);
    let (rest, taken) = take_bytes(&bytes, 3).unwrap();
    assert_eq!(taken, [1, 2, 3]);
    assert!(rest.is_empty());
    assert_eq!(take_bytes(&bytes, 4), None);
    assert_eq!(take_bytes(&[], 1), None);
}

#[test]
fn single_entries() {
    let (rest, entry) = read_entry(&[1, 0x34, 0x12, 5]).unwrap();
    assert_eq!(entry, (NotificationAttributeID::Title, Some(0x1234)));
    assert_eq!(rest, [5]);
    let (rest, entry) = read_entry(&[1, 0x34]).unwrap();
    assert_eq!(entry, (NotificationAttributeID::Title, None));
    assert_eq!(rest, [0x34]);
    let (rest, entry) = read_entry(&[3]).unwrap();
    assert_eq!(entry, (NotificationAttributeID::Message, None));
    assert!(rest.is_empty());
    let (rest, entry) = read_entry(&[5, 0x34, 0x12]).unwrap();
    assert_eq!(entry, (NotificationAttributeID::Date, None));
    assert_eq!(rest, [0x34, 0x12]);
    assert_eq!(read_entry(&[]), Err(DecodeError::TruncatedInput));
    assert_eq!(read_entry(&[8, 0, 0]), Err(DecodeError::AmbiguousVariadicEntry));

    let mut out: Vec<u8> = Vec::new();
    push_entry(&mut out, (NotificationAttributeID::Subtitle, Some(0x0102)));
    push_entry(&mut out, (NotificationAttributeID::Subtitle, None));
    push_entry(&mut out, (NotificationAttributeID::NegativeActionLabel, None));
    assert_eq!(out, vec![2, 2, 1, 2, 7]);
}

#[test]
fn lists_of_entries() {
    let (rest, entries) = read_entries(&[]).unwrap();
    assert!(rest.is_empty());
    assert!(entries.is_empty());
    let (rest, entries) = read_entries(&[4, 2, 9, 0, 3, 7]).unwrap();
    assert!(rest.is_empty());
    assert_eq!(
        entries,
        vec![
            (NotificationAttributeID::MessageSize, None),
            (NotificationAttributeID::Subtitle, Some(9)),
            (NotificationAttributeID::Message, None),
            (NotificationAttributeID::NegativeActionLabel, None),
        ]
    );
    assert_eq!(read_entries(&[4, 9]), Err(DecodeError::AmbiguousVariadicEntry));

    let (rest, ids) = read_app_ids(&[]).unwrap();
    assert!(rest.is_empty());
    assert!(ids.is_empty());
    let (rest, ids) = read_app_ids(&[0, 0]).unwrap();
    assert!(rest.is_empty());
    assert_eq!(ids, vec![AppAttributeID::DisplayName, AppAttributeID::DisplayName]);
    assert_eq!(read_app_ids(&[0, 1]), Err(DecodeError::UnknownEnumValue));
}

#[test]
fn lists_of_attributes() {
    let list = vec![
        NotificationAttribute {
            id: NotificationAttributeID::Date,
            length: 15,
            value: Some("20240229T235959".to_string()),
        },
        NotificationAttribute {
            id: NotificationAttributeID::PositiveActionLabel,
            length: 2,
            value: Some("OK".to_string()),
        },
    ];
    let mut out: Vec<u8> = vec![0xee];
    push_notification_attributes(&mut out, &list);
    assert_eq!(
        out,
        vec![
            0xee, 5, 15, 0, 50, 48, 50, 52, 48, 50, 50, 57, 84, 50, 51, 53, 57, 53, 57, 6, 2, 0,
            79, 75
        ]
    );
    let (rest, parsed) = read_notification_attributes(&out[1..]).unwrap();
    assert!(rest.is_empty());
    assert_eq!(parsed, list);
    assert_eq!(read_notification_attributes(&out), Err(DecodeError::UnknownEnumValue));
    assert_eq!(
        read_notification_attributes(&out[1..out.len() - 1]),
        Err(DecodeError::TrailingInput)
    );
    let (rest, parsed) = read_notification_attributes(&[]).unwrap();
    assert!(rest.is_empty());
    assert!(parsed.is_empty());

    let list = vec![AppAttribute {
        id: AppAttributeID::DisplayName,
        length: 5,
        value: Some("Clock".to_string()),
    }];
    let mut out: Vec<u8> = Vec::new();
    push_app_attributes(&mut out, &list);
    push_app_attributes(&mut out, &Vec::new());
    assert_eq!(out, vec![0, 5, 0, 67, 108, 111, 99, 107]);
    let (rest, parsed) = read_app_attributes(&out).unwrap();
    assert!(rest.is_empty());
    assert_eq!(parsed, list);
    assert_eq!(read_app_attributes(&[0, 1, 0, 0xfe]), Err(DecodeError::InvalidEncoding));
    assert_eq!(read_app_attributes(&[0, 1]), Err(DecodeError::TrailingInput));
}

#[test]
fn texts_without_zero_bytes() {
    assert!(ancs::wire::holds_no_null(""));
    assert!(ancs::wire::holds_no_null("com.example.caf\u{e9}"));
    assert!(!ancs::wire::holds_no_null("\u{0}"));
    assert!(!ancs::wire::holds_no_null("ab\u{0}"));
    assert!(!ancs::wire::holds_no_null("a\u{0}b"));
}
