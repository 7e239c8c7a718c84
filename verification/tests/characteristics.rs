use ancs::attributes::app::AppAttributeID;
use ancs::attributes::attribute::AttributeID;
use ancs::attributes::category::CategoryID;
use ancs::attributes::command::CommandID;
use ancs::attributes::event::EventFlag;
use ancs::attributes::event::EventID;
use ancs::attributes::notification::NotificationAttributeID;
use ancs::attributes::AppAttribute;
use ancs::attributes::NotificationAttribute;
use ancs::characteristics::control_point::GetAppAttributesRequest;
use ancs::characteristics::control_point::GetNotificationAttributesRequest;
use ancs::characteristics::data_source::GetAppAttributesResponse;
use ancs::characteristics::data_source::GetNotificationAttributesResponse;
use ancs::characteristics::notification_source::Notification;
use ancs::error::DecodeError;

#[test]
fn notification_source_struct_to_bytes() {
    let notification: Notification = Notification {
        event_id: EventID::NotificationAdded,
        event_flags: EventFlag::silent(),
        category_id: CategoryID::Other,
        category_count: 0,
        notification_uid: 4294967295_u32,
    };

    let notification_bytes: [u8; 8] = notification.into();
    let expected_bytes: [u8; 8] = [0, 1, 0, 0, 255, 255, 255, 255];

    assert_eq!(notification_bytes, expected_bytes)
}

#[test]
fn notification_source_bytes_to_struct() {
    let notification: Notification = Notification {
        event_id: EventID::NotificationAdded,
        event_flags: EventFlag::silent(),
        category_id: CategoryID::Other,
        category_count: 0,
        notification_uid: 4294967295_u32,
    };

    let notification_bytes: [u8; 8] = notification.into();

    let parsed_notification = Notification::parse(&notification_bytes).unwrap().1;

    assert_eq!(parsed_notification.event_id, EventID::NotificationAdded);
    assert_eq!(parsed_notification.event_flags, EventFlag::silent());
    assert_eq!(parsed_notification.category_id, CategoryID::Other);
    assert_eq!(parsed_notification.category_count, 0);
    assert_eq!(parsed_notification.notification_uid, 4294967295_u32);
}

#[test]
fn control_point_struct_to_bytes() {
    let notification: GetNotificationAttributesRequest = GetNotificationAttributesRequest {
        command_id: CommandID::GetNotificationAttributes,
        notification_uid: 4294967295_u32,
        attribute_ids: vec![
            (AttributeID::AppIdentifier, None),
            (AttributeID::Title, Some(u16::MAX)),
        ],
    };

    let notification_bytes: Vec<u8> = notification.into();
    let expected_bytes: Vec<u8> = vec![0, 255, 255, 255, 255, 0, 1, 255, 255];

    assert_eq!(notification_bytes, expected_bytes)
}

#[test]
fn control_point_bytes_to_struct() {
    let bytes: Vec<u8> = vec![0, 255, 255, 255, 255, 0, 1, 255, 255];
    let notification = GetNotificationAttributesRequest::parse(&bytes).unwrap();

    assert_eq!(notification.1.command_id, CommandID::GetNotificationAttributes);
    assert_eq!(notification.1.notification_uid, 4294967295_u32);
    assert_eq!(
        notification.1.attribute_ids,
        vec![(AttributeID::AppIdentifier, None), (AttributeID::Title, Some(u16::MAX))]
    );
}

#[test]
fn get_app_attributes_request_struct_to_bytes() {
    let notification: GetAppAttributesRequest = GetAppAttributesRequest {
        command_id: CommandID::GetNotificationAttributes,
        app_identifier: "Test".to_string(),
        attribute_ids: vec![AppAttributeID::DisplayName],
    };

    let notification_bytes: Vec<u8> = notification.into();
    let expected_bytes: Vec<u8> = vec![0, 84, 101, 115, 116, 0, 0];

    assert_eq!(notification_bytes, expected_bytes)
}

#[test]
fn get_app_attributes_request_bytes_to_struct() {
    let bytes: Vec<u8> = vec![0, 84, 101, 115, 116, 0, 0];
    let notification = GetAppAttributesRequest::parse(&bytes).unwrap();

    assert!(notification.0.is_empty());
    assert_eq!(notification.1.command_id, CommandID::GetNotificationAttributes);
    assert_eq!(notification.1.app_identifier, "Test");
    assert_eq!(notification.1.attribute_ids, vec![AppAttributeID::DisplayName]);
}

#[test]
fn get_app_attributes_request_rejects_other_identifiers() {
    let bytes: Vec<u8> = vec![0, 84, 101, 115, 116, 0, 0, 1];
    assert_eq!(GetAppAttributesRequest::parse(&bytes), Err(DecodeError::UnknownEnumValue));
}

#[test]
fn data_source_struct_to_bytes() {
    let notification: GetNotificationAttributesResponse = GetNotificationAttributesResponse {
        command_id: CommandID::GetNotificationAttributes,
        notification_uid: 4294967295_u32,
        attribute_list: vec![NotificationAttribute {
            id: NotificationAttributeID::AppIdentifier,
            length: "com.rust.test".to_string().as_bytes().len() as u16,
            value: Some("com.rust.test".to_string()),
        }],
    };

    let notification_bytes: Vec<u8> = notification.into();
    let expected_bytes: Vec<u8> = vec![
        0, 255, 255, 255, 255, 0, 13, 0, 99, 111, 109, 46, 114, 117, 115, 116, 46, 116, 101, 115,
        116,
    ];

    assert_eq!(notification_bytes, expected_bytes)
}

#[test]
fn data_source_bytes_to_struct() {
    let bytes: Vec<u8> = vec![
        0, 255, 255, 255, 255, 0, 13, 0, 99, 111, 109, 46, 114, 117, 115, 116, 46, 116, 101, 115,
        116,
    ];
    let notification = GetNotificationAttributesResponse::parse(&bytes).unwrap();

    assert_eq!(notification.0.len(), 0);
    assert_eq!(notification.1.command_id, CommandID::GetNotificationAttributes);
    assert_eq!(notification.1.notification_uid, 4294967295_u32);
    assert_eq!(
        notification.1.attribute_list,
        vec![NotificationAttribute {
            id: NotificationAttributeID::AppIdentifier,
            length: "com.rust.test".to_string().as_bytes().len() as u16,
            value: Some("com.rust.test".to_string()),
        }],
    );
}

#[test]
fn notification_fields_in_order() {
    let notification = Notification {
        event_id: EventID::NotificationRemoved,
        event_flags: EventFlag::important().union(EventFlag::positive_action()),
        category_id: CategoryID::Email,
        category_count: 200,
        notification_uid: 0x0403_0201,
    };
    let bytes: [u8; 8] = notification.into();
    assert_eq!(bytes, [2, 0x0a, 6, 200, 1, 2, 3, 4]);
    let (rest, parsed) = Notification::parse(&bytes).unwrap();
    assert!(rest.is_empty());
    assert_eq!(parsed, notification);
}

#[test]
fn notification_parse_leaves_the_rest() {
    let bytes = [1u8, 0, 11, 255, 0x78, 0x56, 0x34, 0x12, 7, 8];
    let (rest, parsed) = Notification::parse(&bytes).unwrap();
    assert_eq!(rest, [7, 8]);
    assert_eq!(parsed.event_id, EventID::NotificationModified);
    assert_eq!(parsed.event_flags, EventFlag::empty());
    assert_eq!(parsed.category_id, CategoryID::Entertainment);
    assert_eq!(parsed.category_count, 255);
    assert_eq!(parsed.notification_uid, 0x1234_5678);
}

#[test]
fn notification_parse_failures() {
    assert_eq!(Notification::parse(&[]), Err(DecodeError::TruncatedInput));
    assert_eq!(Notification::parse(&[0]), Err(DecodeError::TruncatedInput));
    assert_eq!(Notification::parse(&[0, 1, 0]), Err(DecodeError::TruncatedInput));
    assert_eq!(Notification::parse(&[0, 1, 0, 0, 1, 2, 3]), Err(DecodeError::TruncatedInput));
    assert_eq!(
        Notification::parse(&[3, 1, 0, 0, 1, 2, 3, 4]),
        Err(DecodeError::UnknownEnumValue)
    );
    assert_eq!(
        Notification::parse(&[0, 0x20, 0, 0, 1, 2, 3, 4]),
        Err(DecodeError::UnknownEnumValue)
    );
    assert_eq!(
        Notification::parse(&[0, 1, 12, 0, 1, 2, 3, 4]),
        Err(DecodeError::UnknownEnumValue)
    );
    // The first fault in the input decides.
    assert_eq!(Notification::parse(&[3]), Err(DecodeError::UnknownEnumValue));
    assert_eq!(Notification::parse(&[0, 1, 12]), Err(DecodeError::UnknownEnumValue));
}

#[test]
fn every_notification_round_trips() {
    let events =
        [EventID::NotificationAdded, EventID::NotificationModified, EventID::NotificationRemoved];
    let categories = [
        CategoryID::Other,
        CategoryID::IncomingCall,
        CategoryID::MissedCall,
        CategoryID::Voicemail,
        CategoryID::Social,
        CategoryID::Schedule,
        CategoryID::Email,
        CategoryID::News,
        CategoryID::HealthAndFitness,
        CategoryID::BusinessAndFinance,
        CategoryID::Location,
        CategoryID::Entertainment,
    ];
    let uids = [0u32, 1, 255, 256, 65535, 65536, 0x00ff_ffff, 0x0100_0000, 0xdead_beef, u32::MAX];
    for event_id in events {
        for bits in 0..=0x1fu8 {
            for category_id in categories {
                for (k, notification_uid) in uids.iter().enumerate() {
                    let notification = Notification {
                        event_id,
                        event_flags: EventFlag::from_bits(bits).unwrap(),
                        category_id,
                        category_count: (k as u8).wrapping_mul(29),
                        notification_uid: *notification_uid,
                    };
                    let bytes: [u8; 8] = notification.into();
                    assert_eq!(bytes.len(), 8);
                    assert_eq!(&bytes[4..], &notification_uid.to_le_bytes());
                    let (rest, parsed) = Notification::parse(&bytes).unwrap();
                    assert!(rest.is_empty());
                    assert_eq!(parsed, notification);
                }
            }
        }
    }
}

#[test]
fn request_without_entries() {
    let request = GetNotificationAttributesRequest {
        command_id: CommandID::GetNotificationAttributes,
        notification_uid: 0x0403_0201,
        attribute_ids: vec![],
    };
    let bytes: Vec<u8> = request.clone().into();
    assert_eq!(bytes, vec![0, 1, 2, 3, 4]);
    let (rest, parsed) = GetNotificationAttributesRequest::parse(&bytes).unwrap();
    assert!(rest.is_empty());
    assert_eq!(parsed, request);
}

#[test]
fn entry_widths() {
    let header = 5;
    let with_length = GetNotificationAttributesRequest {
        command_id: CommandID::GetNotificationAttributes,
        notification_uid: 0,
        attribute_ids: vec![(NotificationAttributeID::Title, Some(0x0120))],
    };
    let bytes: Vec<u8> = with_length.into();
    assert_eq!(bytes.len(), header + 3);
    assert_eq!(&bytes[header..], &[1, 0x20, 0x01]);

    let without_length = GetNotificationAttributesRequest {
        command_id: CommandID::GetNotificationAttributes,
        notification_uid: 0,
        attribute_ids: vec![(NotificationAttributeID::Title, None)],
    };
    let bytes: Vec<u8> = without_length.into();
    assert_eq!(bytes.len(), header + 1);
    assert_eq!(&bytes[header..], &[1]);
}

#[test]
fn request_round_trips() {
    let request = GetNotificationAttributesRequest {
        command_id: CommandID::GetNotificationAttributes,
        notification_uid: 77,
        attribute_ids: vec![
            (NotificationAttributeID::AppIdentifier, None),
            (NotificationAttributeID::Title, Some(32)),
            (NotificationAttributeID::Subtitle, Some(0)),
            (NotificationAttributeID::Message, Some(0x0400)),
            (NotificationAttributeID::MessageSize, None),
            (NotificationAttributeID::Date, None),
            (NotificationAttributeID::PositiveActionLabel, None),
            (NotificationAttributeID::NegativeActionLabel, None),
        ],
    };
    let bytes: Vec<u8> = request.clone().into();
    assert_eq!(bytes, vec![0, 77, 0, 0, 0, 0, 1, 32, 0, 2, 0, 0, 3, 0, 4, 4, 5, 6, 7]);
    let (rest, parsed) = GetNotificationAttributesRequest::parse(&bytes).unwrap();
    assert!(rest.is_empty());
    assert_eq!(parsed, request);
}

#[test]
fn sized_identifier_without_length_at_the_end() {
    // Last in the list, or followed by one entry of one byte, an identifier
    // that may carry a length is read back without one.
    let last = GetNotificationAttributesRequest {
        command_id: CommandID::GetNotificationAttributes,
        notification_uid: 1,
        attribute_ids: vec![
            (NotificationAttributeID::Date, None),
            (NotificationAttributeID::Message, None),
        ],
    };
    let bytes: Vec<u8> = last.clone().into();
    assert_eq!(bytes, vec![0, 1, 0, 0, 0, 5, 3]);
    assert_eq!(GetNotificationAttributesRequest::parse(&bytes).unwrap().1, last);

    let second_to_last = GetNotificationAttributesRequest {
        command_id: CommandID::GetNotificationAttributes,
        notification_uid: 1,
        attribute_ids: vec![
            (NotificationAttributeID::Title, None),
            (NotificationAttributeID::Subtitle, None),
        ],
    };
    let bytes: Vec<u8> = second_to_last.clone().into();
    assert_eq!(bytes, vec![0, 1, 0, 0, 0, 1, 2]);
    assert_eq!(GetNotificationAttributesRequest::parse(&bytes).unwrap().1, second_to_last);
}

#[test]
fn sized_identifier_takes_the_next_two_bytes() {
    // Written without a length and followed by two bytes or more, an
    // identifier that may carry a length takes them for its length.
    let request = GetNotificationAttributesRequest {
        command_id: CommandID::GetNotificationAttributes,
        notification_uid: 1,
        attribute_ids: vec![
            (NotificationAttributeID::Title, None),
            (NotificationAttributeID::AppIdentifier, None),
            (NotificationAttributeID::Date, None),
        ],
    };
    let bytes: Vec<u8> = request.into();
    assert_eq!(bytes, vec![0, 1, 0, 0, 0, 1, 0, 5]);
    let (rest, parsed) = GetNotificationAttributesRequest::parse(&bytes).unwrap();
    assert!(rest.is_empty());
    assert_eq!(parsed.attribute_ids, vec![(NotificationAttributeID::Title, Some(0x0500))]);
}

#[test]
fn length_after_unsized_identifier_is_read_as_identifiers() {
    let request = GetNotificationAttributesRequest {
        command_id: CommandID::GetNotificationAttributes,
        notification_uid: 1,
        attribute_ids: vec![(NotificationAttributeID::AppIdentifier, Some(0x0605))],
    };
    let bytes: Vec<u8> = request.into();
    assert_eq!(bytes, vec![0, 1, 0, 0, 0, 0, 5, 6]);
    let (_, parsed) = GetNotificationAttributesRequest::parse(&bytes).unwrap();
    assert_eq!(
        parsed.attribute_ids,
        vec![
            (NotificationAttributeID::AppIdentifier, None),
            (NotificationAttributeID::Date, None),
            (NotificationAttributeID::PositiveActionLabel, None),
        ]
    );
}

#[test]
fn request_parse_failures() {
    assert_eq!(GetNotificationAttributesRequest::parse(&[]), Err(DecodeError::TruncatedInput));
    assert_eq!(
        GetNotificationAttributesRequest::parse(&[0, 1, 2, 3]),
        Err(DecodeError::TruncatedInput)
    );
    assert_eq!(
        GetNotificationAttributesRequest::parse(&[9, 1, 2, 3, 4]),
        Err(DecodeError::UnknownEnumValue)
    );
    assert_eq!(
        GetNotificationAttributesRequest::parse(&[0, 1, 2, 3, 4, 8]),
        Err(DecodeError::AmbiguousVariadicEntry)
    );
    assert_eq!(
        GetNotificationAttributesRequest::parse(&[0, 1, 2, 3, 4, 0, 1, 0, 0, 200]),
        Err(DecodeError::AmbiguousVariadicEntry)
    );
    // After `Title` the bytes 200, 200 are a length, not identifiers.
    let bytes = [0, 1, 2, 3, 4, 1, 200, 200];
    let (_, request) = GetNotificationAttributesRequest::parse(&bytes).unwrap();
    assert_eq!(request.attribute_ids, vec![(NotificationAttributeID::Title, Some(0xc8c8))]);
    // After `Title` a single byte is the next identifier.
    assert_eq!(
        GetNotificationAttributesRequest::parse(&[0, 1, 2, 3, 4, 1, 200]),
        Err(DecodeError::AmbiguousVariadicEntry)
    );
}

#[test]
fn app_identifier_gets_one_terminator() {
    let plain = GetAppAttributesRequest {
        command_id: CommandID::GetAppAttributes,
        app_identifier: "com.apple.test".to_string(),
        attribute_ids: vec![AppAttributeID::DisplayName],
    };
    let terminated = GetAppAttributesRequest {
        command_id: CommandID::GetAppAttributes,
        app_identifier: "com.apple.test\u{0}".to_string(),
        attribute_ids: vec![AppAttributeID::DisplayName],
    };
    let expected: Vec<u8> =
        vec![1, 99, 111, 109, 46, 97, 112, 112, 108, 101, 46, 116, 101, 115, 116, 0, 0];
    let plain_bytes: Vec<u8> = plain.clone().into();
    let terminated_bytes: Vec<u8> = terminated.into();
    assert_eq!(plain_bytes, expected);
    assert_eq!(terminated_bytes, expected);
    let (rest, parsed) = GetAppAttributesRequest::parse(&expected).unwrap();
    assert!(rest.is_empty());
    assert_eq!(parsed, plain);
}

#[test]
fn empty_app_identifier() {
    let request = GetAppAttributesRequest {
        command_id: CommandID::GetAppAttributes,
        app_identifier: String::new(),
        attribute_ids: vec![],
    };
    let bytes: Vec<u8> = request.clone().into();
    assert_eq!(bytes, vec![1, 0]);
    let (rest, parsed) = GetAppAttributesRequest::parse(&bytes).unwrap();
    assert!(rest.is_empty());
    assert_eq!(parsed, request);
}

#[test]
fn app_request_round_trips() {
    let request = GetAppAttributesRequest {
        command_id: CommandID::GetAppAttributes,
        app_identifier: "com.example.caf\u{e9}".to_string(),
        attribute_ids: vec![
            AppAttributeID::DisplayName,
            AppAttributeID::DisplayName,
            AppAttributeID::DisplayName,
        ],
    };
    let bytes: Vec<u8> = request.clone().into();
    assert_eq!(
        bytes,
        vec![
            1, 99, 111, 109, 46, 101, 120, 97, 109, 112, 108, 101, 46, 99, 97, 102, 0xc3, 0xa9, 0,
            0, 0, 0
        ]
    );
    let (rest, parsed) = GetAppAttributesRequest::parse(&bytes).unwrap();
    assert!(rest.is_empty());
    assert_eq!(parsed, request);
}

#[test]
fn app_request_parse_failures() {
    assert_eq!(GetAppAttributesRequest::parse(&[]), Err(DecodeError::TruncatedInput));
    assert_eq!(GetAppAttributesRequest::parse(&[1]), Err(DecodeError::TruncatedInput));
    assert_eq!(GetAppAttributesRequest::parse(&[1, 65, 66]), Err(DecodeError::TruncatedInput));
    assert_eq!(GetAppAttributesRequest::parse(&[7, 65, 0]), Err(DecodeError::UnknownEnumValue));
    assert_eq!(GetAppAttributesRequest::parse(&[1, 65, 0, 3]), Err(DecodeError::UnknownEnumValue));
    assert_eq!(GetAppAttributesRequest::parse(&[1, 0xff, 0]), Err(DecodeError::InvalidEncoding));
    // An identifier that is not defined is reported before the text is looked at.
    assert_eq!(
        GetAppAttributesRequest::parse(&[1, 0xff, 0, 3]),
        Err(DecodeError::UnknownEnumValue)
    );
}

#[test]
fn app_response_struct_to_bytes() {
    let response: GetAppAttributesResponse = GetAppAttributesResponse {
        command_id: CommandID::GetAppAttributes,
        app_identifier: "com.apple.test".to_string(),
        attribute_list: vec![AppAttribute {
            id: AppAttributeID::DisplayName,
            length: "Test".to_string().as_bytes().len() as u16,
            value: Some("Test".to_string()),
        }],
    };

    let expected_data: Vec<u8> = vec![
        1, 99, 111, 109, 46, 97, 112, 112, 108, 101, 46, 116, 101, 115, 116, 0, 0, 4, 0, 84, 101,
        115, 116,
    ];
    let data: Vec<u8> = response.into();

    assert_eq!(data, expected_data)
}

#[test]
fn app_response_bytes_to_struct() {
    let data: Vec<u8> = vec![
        1, 99, 111, 109, 46, 97, 112, 112, 108, 101, 46, 116, 101, 115, 116, 0, 0, 4, 0, 84, 101,
        115, 116,
    ];

    let (data, response) = GetAppAttributesResponse::parse(&data).unwrap();

    assert!(data.is_empty());
    assert_eq!(response.command_id, CommandID::GetAppAttributes);
    assert_eq!(response.app_identifier, "com.apple.test");
    assert_eq!(
        response.attribute_list,
        vec![AppAttribute {
            id: AppAttributeID::DisplayName,
            length: "Test".to_string().as_bytes().len() as u16,
            value: Some("Test".to_string()),
        }]
    );
}

#[test]
fn app_response_identifier_gets_one_terminator() {
    let plain = GetAppAttributesResponse {
        command_id: CommandID::GetAppAttributes,
        app_identifier: "ab".to_string(),
        attribute_list: vec![],
    };
    let terminated = GetAppAttributesResponse {
        command_id: CommandID::GetAppAttributes,
        app_identifier: "ab\u{0}".to_string(),
        attribute_list: vec![],
    };
    let plain_bytes: Vec<u8> = plain.clone().into();
    let terminated_bytes: Vec<u8> = terminated.into();
    assert_eq!(plain_bytes, vec![1, 97, 98, 0]);
    assert_eq!(terminated_bytes, vec![1, 97, 98, 0]);
    assert_eq!(GetAppAttributesResponse::parse(&plain_bytes).unwrap().1, plain);
}

#[test]
fn responses_round_trip() {
    let response = GetNotificationAttributesResponse {
        command_id: CommandID::GetNotificationAttributes,
        notification_uid: 0x0a0b_0c0d,
        attribute_list: vec![
            NotificationAttribute {
                id: NotificationAttributeID::Title,
                length: 5,
                value: Some("Hello".to_string()),
            },
            NotificationAttribute {
                id: NotificationAttributeID::Subtitle,
                length: 0,
                value: Some(String::new()),
            },
            NotificationAttribute {
                id: NotificationAttributeID::MessageSize,
                length: 2,
                value: Some("42".to_string()),
            },
        ],
    };
    let bytes: Vec<u8> = response.clone().into();
    assert_eq!(
        bytes,
        vec![0, 0x0d, 0x0c, 0x0b, 0x0a, 1, 5, 0, 72, 101, 108, 108, 111, 2, 0, 0, 4, 2, 0, 52, 50]
    );
    let (rest, parsed) = GetNotificationAttributesResponse::parse(&bytes).unwrap();
    assert!(rest.is_empty());
    assert_eq!(parsed, response);

    let response = GetAppAttributesResponse {
        command_id: CommandID::GetAppAttributes,
        app_identifier: "com.example".to_string(),
        attribute_list: vec![
            AppAttribute {
                id: AppAttributeID::DisplayName,
                length: 7,
                value: Some("Example".to_string()),
            },
            AppAttribute {
                id: AppAttributeID::DisplayName,
                length: 0,
                value: Some(String::new()),
            },
        ],
    };
    let bytes: Vec<u8> = response.clone().into();
    let (rest, parsed) = GetAppAttributesResponse::parse(&bytes).unwrap();
    assert!(rest.is_empty());
    assert_eq!(parsed, response);
}

#[test]
fn response_without_attributes() {
    let (rest, parsed) = GetNotificationAttributesResponse::parse(&[0, 9, 0, 0, 0]).unwrap();
    assert!(rest.is_empty());
    assert_eq!(parsed.notification_uid, 9);
    assert!(parsed.attribute_list.is_empty());
    let (rest, parsed) = GetAppAttributesResponse::parse(&[1, 0]).unwrap();
    assert!(rest.is_empty());
    assert_eq!(parsed.app_identifier, "");
    assert!(parsed.attribute_list.is_empty());
}

#[test]
fn response_parse_failures() {
    assert_eq!(GetNotificationAttributesResponse::parse(&[]), Err(DecodeError::TruncatedInput));
    assert_eq!(
        GetNotificationAttributesResponse::parse(&[0, 1, 2]),
        Err(DecodeError::TruncatedInput)
    );
    assert_eq!(
        GetNotificationAttributesResponse::parse(&[4, 1, 2, 3, 4]),
        Err(DecodeError::UnknownEnumValue)
    );
    assert_eq!(
        GetNotificationAttributesResponse::parse(&[0, 1, 2, 3, 4, 9, 0, 0]),
        Err(DecodeError::UnknownEnumValue)
    );
    assert_eq!(
        GetNotificationAttributesResponse::parse(&[0, 1, 2, 3, 4, 1, 1, 0, 0xff]),
        Err(DecodeError::InvalidEncoding)
    );
    // Bytes after the last whole attribute that are no whole attribute.
    assert_eq!(
        GetNotificationAttributesResponse::parse(&[0, 1, 2, 3, 4, 1, 1, 0, 65, 2]),
        Err(DecodeError::TrailingInput)
    );
    assert_eq!(
        GetNotificationAttributesResponse::parse(&[0, 1, 2, 3, 4, 1, 1, 0, 65, 2, 5, 0, 66]),
        Err(DecodeError::TrailingInput)
    );
    assert_eq!(
        GetNotificationAttributesResponse::parse(&[0, 1, 2, 3, 4, 0, 13, 0, 99]),
        Err(DecodeError::TrailingInput)
    );

    assert_eq!(GetAppAttributesResponse::parse(&[]), Err(DecodeError::TruncatedInput));
    assert_eq!(GetAppAttributesResponse::parse(&[1, 65]), Err(DecodeError::TruncatedInput));
    assert_eq!(GetAppAttributesResponse::parse(&[5, 65, 0]), Err(DecodeError::UnknownEnumValue));
    assert_eq!(
        GetAppAttributesResponse::parse(&[1, 65, 0, 1, 0, 0]),
        Err(DecodeError::UnknownEnumValue)
    );
    assert_eq!(
        GetAppAttributesResponse::parse(&[1, 65, 0, 0, 1, 0, 0x80]),
        Err(DecodeError::InvalidEncoding)
    );
    assert_eq!(GetAppAttributesResponse::parse(&[1, 0xc0, 0]), Err(DecodeError::InvalidEncoding));
    assert_eq!(
        GetAppAttributesResponse::parse(&[1, 65, 0, 0, 2, 0, 66]),
        Err(DecodeError::TrailingInput)
    );
    assert_eq!(GetAppAttributesResponse::parse(&[1, 65, 0, 0]), Err(DecodeError::TrailingInput));
}

#[test]
fn characteristic_identifiers() {
    assert_eq!(
        ancs::APPLE_NOTIFICATION_CENTER_SERVICE_UUID,
        "7905F431-B5CE-4E99-A40F-4B1E122D00D0"
    );
    assert_eq!(
        ancs::characteristics::notification_source::NOTIFICATION_SOURCE_UUID,
        "9FBF120D-6301-42D9-8C58-25E699A21DBD"
    );
    assert_eq!(
        ancs::characteristics::control_point::CONTROL_POINT_UUID,
        "69D1D8F3-45E1-49A8-9821-9BBDFDAAD9D9"
    );
    assert_eq!(
        ancs::characteristics::data_source::DATA_SOURCE_UUID,
        "22EAC6E9-24D6-4BB5-BE44-B36ACE7C7BFB"
    );
}
