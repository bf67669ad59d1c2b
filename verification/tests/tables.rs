use map_api::tables::{
    parse_business_record_item,
    parse_business_type,
    AttributeValue,
    BusinessRecordItem,
    RequestError,
    ServiceError,
    TableError,
    UserDogRelationship,
};
use map_api::BusinessType;

fn s(text: &str) -> Option<AttributeValue> {
    Some(AttributeValue::S(text.to_string()))
}

fn n(text: &str) -> Option<AttributeValue> {
    Some(AttributeValue::N(text.to_string()))
}

fn item() -> BusinessRecordItem {
    BusinessRecordItem {
        pk: s("012345678901234567890"),
        dog_id: s("0123456789abcdefghijk"),
        business_type: s("pee"),
        timestamp: n("1757224548"),
        longitude: n("139.7650506677"),
        latitude: n("35.6814709332"),
    }
}

fn item_error(result: Result<map_api::tables::StoredBusinessRecord, TableError>) -> String {
    match result {
        Err(TableError::ItemError(message)) => message,
        other => panic!("no item error but {other:?}"),
    }
}

#[test]
fn test_parse_business_record_item() {
    let record = parse_business_record_item(&item()).unwrap();
    assert_eq!(record.record_id, "012345678901234567890");
    assert_eq!(record.dog_id, "0123456789abcdefghijk");
    assert_eq!(record.business_type, BusinessType::Pee);
    assert_eq!(record.timestamp, 1757224548);
    assert_eq!(record.longitude, "139.7650506677");
    assert_eq!(record.latitude, "35.6814709332");
    let record = parse_business_record_item(&BusinessRecordItem {
        business_type: s("poo"),
        timestamp: n("-1"),
        ..item()
    })
    .unwrap();
    assert_eq!(record.business_type, BusinessType::Poo);
    assert_eq!(record.timestamp, -1);
}

#[test]
fn test_parse_business_record_item_missing_attribute() {
    assert_eq!(
        item_error(parse_business_record_item(&BusinessRecordItem { pk: None, ..item() })),
        "pk (record ID) is missing",
    );
    assert_eq!(
        item_error(parse_business_record_item(&BusinessRecordItem { dog_id: None, ..item() })),
        "dogId is missing",
    );
    assert_eq!(
        item_error(parse_business_record_item(&BusinessRecordItem {
            business_type: None,
            ..item()
        })),
        "businessType is missing",
    );
    assert_eq!(
        item_error(parse_business_record_item(&BusinessRecordItem { timestamp: None, ..item() })),
        "timestamp is missing",
    );
    assert_eq!(
        item_error(parse_business_record_item(&BusinessRecordItem { longitude: None, ..item() })),
        "longitude is missing",
    );
    assert_eq!(
        item_error(parse_business_record_item(&BusinessRecordItem { latitude: None, ..item() })),
        "latitude is missing",
    );
}

#[test]
fn test_parse_business_record_item_wrong_kind_of_attribute() {
    assert_eq!(
        item_error(parse_business_record_item(&BusinessRecordItem { pk: n("1"), ..item() })),
        "pk (record ID) must be a string",
    );
    assert_eq!(
        item_error(parse_business_record_item(&BusinessRecordItem {
            dog_id: Some(AttributeValue::Other),
            ..item()
        })),
        "dogId must be a string",
    );
    assert_eq!(
        item_error(parse_business_record_item(&BusinessRecordItem {
            business_type: n("0"),
            ..item()
        })),
        "businessType must be a string",
    );
    assert_eq!(
        item_error(parse_business_record_item(&BusinessRecordItem {
            timestamp: s("1757224548"),
            ..item()
        })),
        "timestamp must be a number",
    );
    assert_eq!(
        item_error(parse_business_record_item(&BusinessRecordItem {
            longitude: s("139.7650506677"),
            ..item()
        })),
        "longitude must be a number",
    );
    assert_eq!(
        item_error(parse_business_record_item(&BusinessRecordItem {
            latitude: Some(AttributeValue::Other),
            ..item()
        })),
        "latitude must be a number",
    );
}

#[test]
fn test_parse_business_record_item_invalid_value() {
    assert_eq!(
        item_error(parse_business_record_item(&BusinessRecordItem {
            business_type: s("Pee"),
            ..item()
        })),
        "invalid businessType",
    );
    assert_eq!(
        item_error(parse_business_record_item(&BusinessRecordItem {
            timestamp: n("1757224548.5"),
            ..item()
        })),
        "invalid timestamp",
    );
    assert_eq!(
        item_error(parse_business_record_item(&BusinessRecordItem {
            timestamp: n("9223372036854775808"),
            ..item()
        })),
        "invalid timestamp",
    );
    // the first attribute that is not as it should be counts
    assert_eq!(
        item_error(parse_business_record_item(&BusinessRecordItem {
            pk: None,
            dog_id: n("1"),
            business_type: s("x"),
            timestamp: None,
            longitude: None,
            latitude: None,
        })),
        "pk (record ID) is missing",
    );
    assert_eq!(
        item_error(parse_business_record_item(&BusinessRecordItem {
            business_type: s("x"),
            timestamp: None,
            ..item()
        })),
        "invalid businessType",
    );
}

#[test]
fn test_parse_business_type() {
    assert_eq!(parse_business_type("pee"), Some(BusinessType::Pee));
    assert_eq!(parse_business_type("poo"), Some(BusinessType::Poo));
    assert_eq!(parse_business_type(""), None);
    assert_eq!(parse_business_type("pee "), None);
    assert_eq!(parse_business_type("POO"), None);
    for business_type in [BusinessType::Pee, BusinessType::Poo] {
        assert_eq!(parse_business_type(&business_type.to_string()), Some(business_type));
    }
}

#[test]
fn test_table_error_from_request_error() {
    for (error, expected) in [
        (RequestError::Service(ServiceError::ProvisionedThroughputExceeded), "rate limited: m"),
        (RequestError::Service(ServiceError::RequestLimitExceeded), "rate limited: m"),
        (RequestError::Service(ServiceError::Throttling), "rate limited: m"),
        (RequestError::Service(ServiceError::InvalidEndpoint), "bad configuration: m"),
        (RequestError::Service(ServiceError::ResourceNotFound), "bad configuration: m"),
        (RequestError::Service(ServiceError::Other), "internal error: m"),
        (RequestError::NonService, "non-service error: m"),
    ] {
        assert_eq!(TableError::from_request_error(error, "m".to_string()).to_string(), expected);
    }
    assert!(matches!(
        TableError::from_request_error(RequestError::NonService, "m".to_string()),
        TableError::NonServiceError(message) if message == "m",
    ));
}

#[test]
fn test_table_error_item_error() {
    assert!(matches!(
        TableError::item_error("dogId is missing"),
        TableError::ItemError(message) if message == "dogId is missing",
    ));
    assert_eq!(
        TableError::item_error("dogId is missing").to_string(),
        "item error: dogId is missing",
    );
}

#[test]
fn test_user_dog_relationship_from_item() {
    assert_eq!(UserDogRelationship::from_item(true), Some(UserDogRelationship::Friend));
    assert_eq!(UserDogRelationship::from_item(false), None);
}
