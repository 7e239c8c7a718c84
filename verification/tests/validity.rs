use ancs::attributes::app::AppAttributeID;
use ancs::attributes::command::CommandID;
use ancs::attributes::notification::NotificationAttributeID;
use ancs::attributes::notification::NotificationAttributeID::AppIdentifier;
use ancs::attributes::notification::NotificationAttributeID::Date;
use ancs::attributes::notification::NotificationAttributeID::Message;
use ancs::attributes::notification::NotificationAttributeID::Subtitle;
use ancs::attributes::notification::NotificationAttributeID::Title;
use ancs::attributes::AppAttribute;
use ancs::attributes::NotificationAttribute;
use ancs::characteristics::control_point::GetAppAttributesRequest;
use ancs::characteristics::control_point::GetNotificationAttributesRequest;
use ancs::characteristics::data_source::are_well_formed_app_attributes;
use ancs::characteristics::data_source::are_well_formed_notification_attributes;
use ancs::characteristics::data_source::GetAppAttributesResponse;
use ancs::characteristics::data_source::GetNotificationAttributesResponse;

fn title(length: u16, value: Option<&str>) -> NotificationAttribute {
    NotificationAttribute {
        id: NotificationAttributeID::Title,
        length,
        value: value.map(|text| text.to_string()),
    }
}

fn name(length: u16, value: Option<&str>) -> AppAttribute {
    AppAttribute {
        id: AppAttributeID::DisplayName,
        length,
        value: value.map(|text| text.to_string()),
    }
}

fn request(
    entries: Vec<(NotificationAttributeID, Option<u16>)>,
) -> GetNotificationAttributesRequest {
    GetNotificationAttributesRequest {
        command_id: CommandID::GetNotificationAttributes,
        notification_uid: 7,
        attribute_ids: entries,
    }
}

fn reads_back(request: &GetNotificationAttributesRequest) -> bool {
    let bytes: Vec<u8> = request.clone().into();
    match GetNotificationAttributesRequest::parse(&bytes) {
        Ok((rest, parsed)) => rest.is_empty() && parsed == *request,
        Err(_) => false,
    }
}

#[test]
fn well_formed_attributes() {
    assert!(title(0, Some("")).is_well_formed());
    assert!(title(5, Some("Hello")).is_well_formed());
    assert!(title(2, Some("\u{e9}")).is_well_formed());
    assert!(!title(1, Some("\u{e9}")).is_well_formed());
    assert!(!title(4, Some("Hello")).is_well_formed());
    assert!(!title(6, Some("Hello")).is_well_formed());
    assert!(!title(0, None).is_well_formed());
    assert!(name(5, Some("Clock")).is_well_formed());
    assert!(!name(0, Some("Clock")).is_well_formed());
    assert!(!name(0, None).is_well_formed());
}

#[test]
fn attributes_that_are_not_well_formed_are_not_read_back() {
    // The length says less than the value holds: the reader stops early.
    let short = title(2, Some("Hello"));
    let bytes: Vec<u8> = short.clone().into();
    assert_eq!(bytes, vec![1, 2, 0, 72, 101, 108, 108, 111]);
    let (rest, parsed) = NotificationAttribute::parse(&bytes).unwrap();
    assert_eq!(rest, [108, 108, 111]);
    assert_eq!(parsed, title(2, Some("He")));
    // No value: the reader finds the empty text.
    let none = title(0, None);
    let bytes: Vec<u8> = none.clone().into();
    let (_, parsed) = NotificationAttribute::parse(&bytes).unwrap();
    assert_eq!(parsed, title(0, Some("")));
}

#[test]
fn unambiguous_requests() {
    let good = [
        vec![],
        vec![(Title, None)],
        vec![(Title, Some(9))],
        vec![(Date, None)],
        vec![(Title, None), (Date, None)],
        vec![(Title, None), (Message, None)],
        vec![(Date, None), (Title, Some(1)), (Message, Some(2)), (Subtitle, None)],
        vec![(AppIdentifier, None), (Title, Some(u16::MAX)), (Subtitle, None), (Date, None)],
    ];
    for entries in good {
        let request = request(entries);
        assert!(request.is_unambiguous(), "{:?}", request);
        assert!(reads_back(&request), "{:?}", request);
    }
    let bad = [
        vec![(AppIdentifier, Some(1))],
        vec![(Date, Some(0)), (Title, None)],
        vec![(Title, None), (Date, None), (Date, None)],
        vec![(Title, None), (Message, Some(3))],
        vec![(Subtitle, None), (Title, None), (Message, None)],
        vec![(Message, None), (Title, Some(1)), (Date, None)],
    ];
    for entries in bad {
        let request = request(entries);
        assert!(!request.is_unambiguous(), "{:?}", request);
        assert!(!reads_back(&request), "{:?}", request);
    }
}

#[test]
fn validity_agrees_with_the_round_trip() {
    let entries = [
        (AppIdentifier, None),
        (AppIdentifier, Some(2)),
        (Title, None),
        (Title, Some(0x0101)),
        (Date, None),
    ];
    // Every list of up to three entries drawn from the five above.
    let mut lists: Vec<Vec<(NotificationAttributeID, Option<u16>)>> = vec![vec![]];
    for a in entries {
        lists.push(vec![a]);
        for b in entries {
            lists.push(vec![a, b]);
            for c in entries {
                lists.push(vec![a, b, c]);
            }
        }
    }
    assert_eq!(lists.len(), 1 + 5 + 25 + 125);
    for entries in lists {
        let request = request(entries);
        assert_eq!(request.is_unambiguous(), reads_back(&request), "{:?}", request);
    }
}

#[test]
fn well_formed_app_requests() {
    let plain = GetAppAttributesRequest {
        command_id: CommandID::GetAppAttributes,
        app_identifier: "com.apple.test".to_string(),
        attribute_ids: vec![AppAttributeID::DisplayName],
    };
    assert!(plain.is_well_formed());
    let terminated = GetAppAttributesRequest {
        command_id: CommandID::GetAppAttributes,
        app_identifier: "com.apple.test\u{0}".to_string(),
        attribute_ids: vec![AppAttributeID::DisplayName],
    };
    assert!(!terminated.is_well_formed());
    let bytes: Vec<u8> = terminated.clone().into();
    let (_, parsed) = GetAppAttributesRequest::parse(&bytes).unwrap();
    assert!(parsed != terminated);
    assert_eq!(parsed, plain);
    assert!(parsed.is_well_formed());
    let split = GetAppAttributesRequest {
        command_id: CommandID::GetAppAttributes,
        app_identifier: "com\u{0}apple".to_string(),
        attribute_ids: vec![],
    };
    assert!(!split.is_well_formed());
    let bytes: Vec<u8> = split.into();
    assert_eq!(bytes, vec![1, 99, 111, 109, 0, 97, 112, 112, 108, 101, 0]);
    assert!(GetAppAttributesRequest::parse(&bytes).is_err());
}

#[test]
fn well_formed_responses() {
    let good = GetNotificationAttributesResponse {
        command_id: CommandID::GetNotificationAttributes,
        notification_uid: 1,
        attribute_list: vec![title(2, Some("Hi")), title(0, Some(""))],
    };
    assert!(good.is_well_formed());
    assert!(are_well_formed_notification_attributes(&good.attribute_list));
    assert!(are_well_formed_notification_attributes(&Vec::new()));
    let bad = GetNotificationAttributesResponse {
        command_id: CommandID::GetNotificationAttributes,
        notification_uid: 1,
        attribute_list: vec![title(2, Some("Hi")), title(1, Some(""))],
    };
    assert!(!bad.is_well_formed());
    assert!(!are_well_formed_notification_attributes(&bad.attribute_list));

    let good = GetAppAttributesResponse {
        command_id: CommandID::GetAppAttributes,
        app_identifier: "a".to_string(),
        attribute_list: vec![name(5, Some("Clock"))],
    };
    assert!(good.is_well_formed());
    assert!(are_well_formed_app_attributes(&good.attribute_list));
    let bad_identifier = GetAppAttributesResponse {
        command_id: CommandID::GetAppAttributes,
        app_identifier: "a\u{0}".to_string(),
        attribute_list: vec![name(5, Some("Clock"))],
    };
    assert!(!bad_identifier.is_well_formed());
    let bad_attribute = GetAppAttributesResponse {
        command_id: CommandID::GetAppAttributes,
        app_identifier: "a".to_string(),
        attribute_list: vec![name(5, Some("Clock")), name(5, None)],
    };
    assert!(!bad_attribute.is_well_formed());
    assert!(!are_well_formed_app_attributes(&bad_attribute.attribute_list));
}
