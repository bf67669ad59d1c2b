//! Items of the tables that keep dogs, users and business records.
//!
//! A table hands out an item as attributes, each a string, a number in
//! decimal digits, or something else. This module reads items and sorts the
//! failures of requests to a table; making the requests is the caller's.

use vstd::prelude::*;
use vstd::string::StringExecFns;

use crate::text::{parse_i64, parsed_i64};
use crate::BusinessType;

verus! {

/// Relationship between a user and a dog.
#[derive(Clone, Copy, Debug, PartialEq, Eq, Structural)]
pub enum UserDogRelationship {
    /// User is a friend of the dog.
    Friend,
}

impl UserDogRelationship {
    /// Tells the relationship between a user and a dog from whether the
    /// table has an item for the two: it has one for friends only.
    pub fn from_item(found: bool) -> (relationship: Option<Self>)
        ensures
            relationship == if found {
                Some(UserDogRelationship::Friend)
            } else {
                None::<UserDogRelationship>
            },
    {
        if found {
            Some(UserDogRelationship::Friend)
        } else {
            None
        }
    }
}

/// Failure that a table service reports.
#[derive(Clone, Copy, Debug, PartialEq, Eq, Structural)]
pub enum ServiceError {
    /// The provisioned throughput was exceeded.
    ProvisionedThroughputExceeded,
    /// The request limit of the account was exceeded.
    RequestLimitExceeded,
    /// The request was throttled.
    Throttling,
    /// The endpoint is not valid.
    InvalidEndpoint,
    /// The table or the index does not exist.
    ResourceNotFound,
    /// Any other failure.
    Other,
}

/// Failure of a request to a table.
#[derive(Clone, Copy, Debug, PartialEq, Eq, Structural)]
pub enum RequestError {
    /// The service answered with a failure.
    Service(ServiceError),
    /// The request failed before the service answered.
    NonService,
}

/// Error related to table operations.
#[derive(Debug)]
pub enum TableError {
    /// Item parsing error.
    ItemError(String),
    /// Rate limited.
    RateLimited(String),
    /// Configuration error.
    BadConfiguration(String),
    /// Internal error.
    InternalError(String),
    /// Failure of a request other than a failure of the service.
    NonServiceError(String),
}

/// What a [`TableError`] holds, as mathematical values.
pub enum TableErrorView {
    ItemError(Seq<char>),
    RateLimited(Seq<char>),
    BadConfiguration(Seq<char>),
    InternalError(Seq<char>),
    NonServiceError(Seq<char>),
}

impl View for TableError {
    type V = TableErrorView;

    open spec fn view(&self) -> TableErrorView {
        match self {
            TableError::ItemError(message) => TableErrorView::ItemError(message@),
            TableError::RateLimited(message) => TableErrorView::RateLimited(message@),
            TableError::BadConfiguration(message) => TableErrorView::BadConfiguration(message@),
            TableError::InternalError(message) => TableErrorView::InternalError(message@),
            TableError::NonServiceError(message) => TableErrorView::NonServiceError(message@),
        }
    }
}

impl TableErrorView {
    /// What the error says, in words.
    pub open spec fn message(self) -> Seq<char> {
        match self {
            TableErrorView::ItemError(message) => "item error: "@ + message,
            TableErrorView::RateLimited(message) => "rate limited: "@ + message,
            TableErrorView::BadConfiguration(message) => "bad configuration: "@ + message,
            TableErrorView::InternalError(message) => "internal error: "@ + message,
            TableErrorView::NonServiceError(message) => "non-service error: "@ + message,
        }
    }

    /// The error that stands for a failure of a request: too many requests
    /// are a matter of rate, a wrong endpoint or a missing table is a matter
    /// of configuration.
    pub open spec fn of_request_error(error: RequestError, message: Seq<char>) -> TableErrorView {
        match error {
            RequestError::Service(ServiceError::ProvisionedThroughputExceeded)
            | RequestError::Service(ServiceError::RequestLimitExceeded)
            | RequestError::Service(ServiceError::Throttling) => TableErrorView::RateLimited(
                message,
            ),
            RequestError::Service(ServiceError::InvalidEndpoint) | RequestError::Service(
                ServiceError::ResourceNotFound,
            ) => TableErrorView::BadConfiguration(message),
            RequestError::Service(ServiceError::Other) => TableErrorView::InternalError(message),
            RequestError::NonService => TableErrorView::NonServiceError(message),
        }
    }
}

impl TableError {
    /// Creates an item error with a given message.
    pub fn item_error(message: &str) -> (error: Self)
        ensures
            error@ == TableErrorView::ItemError(message@),
    {
        TableError::ItemError(message.to_string())
    }

    /// Creates the error that stands for a failure of a request.
    pub fn from_request_error(error: RequestError, message: String) -> (table_error: Self)
        ensures
            table_error@ == TableErrorView::of_request_error(error, message@),
    {
        match error {
            RequestError::Service(service_error) => match service_error {
                ServiceError::ProvisionedThroughputExceeded
                | ServiceError::RequestLimitExceeded
                | ServiceError::Throttling => TableError::RateLimited(message),
                ServiceError::InvalidEndpoint | ServiceError::ResourceNotFound => {
                    TableError::BadConfiguration(message)
                },
                ServiceError::Other => TableError::InternalError(message),
            },
            RequestError::NonService => TableError::NonServiceError(message),
        }
    }

    /// Returns the error message.
    pub fn to_string(&self) -> (message: String)
        ensures
            message@ == self@.message(),
    {
        match self {
            TableError::ItemError(message) => "item error: ".to_string().concat(message.as_str()),
            TableError::RateLimited(message) => "rate limited: ".to_string().concat(
                message.as_str(),
            ),
            TableError::BadConfiguration(message) => "bad configuration: ".to_string().concat(
                message.as_str(),
            ),
            TableError::InternalError(message) => "internal error: ".to_string().concat(
                message.as_str(),
            ),
            TableError::NonServiceError(message) => "non-service error: ".to_string().concat(
                message.as_str(),
            ),
        }
    }
}

/// Attribute of an item.
#[derive(Debug)]
pub enum AttributeValue {
    /// String.
    S(String),
    /// Number, in decimal digits.
    N(String),
    /// Any other kind of attribute.
    Other,
}

/// What an [`AttributeValue`] holds, as a mathematical value.
pub enum AttributeView {
    S(Seq<char>),
    N(Seq<char>),
    Other,
}

impl View for AttributeValue {
    type V = AttributeView;

    open spec fn view(&self) -> AttributeView {
        match self {
            AttributeValue::S(string) => AttributeView::S(string@),
            AttributeValue::N(number) => AttributeView::N(number@),
            AttributeValue::Other => AttributeView::Other,
        }
    }
}

/// The view of an attribute that may be missing.
pub open spec fn attribute_view(attribute: Option<AttributeValue>) -> Option<AttributeView> {
    match attribute {
        Some(attribute) => Some(attribute@),
        None => None,
    }
}

/// Item of a business record: the attributes that make up the record.
#[derive(Debug)]
pub struct BusinessRecordItem {
    /// Attribute `pk`: the ID of the record.
    pub pk: Option<AttributeValue>,
    /// Attribute `dogId`.
    pub dog_id: Option<AttributeValue>,
    /// Attribute `businessType`.
    pub business_type: Option<AttributeValue>,
    /// Attribute `timestamp`.
    pub timestamp: Option<AttributeValue>,
    /// Attribute `longitude`.
    pub longitude: Option<AttributeValue>,
    /// Attribute `latitude`.
    pub latitude: Option<AttributeValue>,
}

/// What a [`BusinessRecordItem`] holds, as mathematical values.
pub struct BusinessRecordItemView {
    pub pk: Option<AttributeView>,
    pub dog_id: Option<AttributeView>,
    pub business_type: Option<AttributeView>,
    pub timestamp: Option<AttributeView>,
    pub longitude: Option<AttributeView>,
    pub latitude: Option<AttributeView>,
}

impl View for BusinessRecordItem {
    type V = BusinessRecordItemView;

    open spec fn view(&self) -> BusinessRecordItemView {
        BusinessRecordItemView {
            pk: attribute_view(self.pk),
            dog_id: attribute_view(self.dog_id),
            business_type: attribute_view(self.business_type),
            timestamp: attribute_view(self.timestamp),
            longitude: attribute_view(self.longitude),
            latitude: attribute_view(self.latitude),
        }
    }
}

/// Business record as an item tells it. The longitude and the latitude are
/// numbers in degrees, as the item writes them.
#[derive(Debug)]
pub struct StoredBusinessRecord {
    /// ID of the business record.
    pub record_id: String,
    /// ID of the dog who carried out the business.
    pub dog_id: String,
    /// Type of the business.
    pub business_type: BusinessType,
    /// Timestamp when the business record was created.
    pub timestamp: i64,
    /// Longitude in degrees, in decimal digits.
    pub longitude: String,
    /// Latitude in degrees, in decimal digits.
    pub latitude: String,
}

/// What a [`StoredBusinessRecord`] holds, as mathematical values.
pub struct StoredBusinessRecordView {
    pub record_id: Seq<char>,
    pub dog_id: Seq<char>,
    pub business_type: BusinessType,
    pub timestamp: i64,
    pub longitude: Seq<char>,
    pub latitude: Seq<char>,
}

impl View for StoredBusinessRecord {
    type V = StoredBusinessRecordView;

    open spec fn view(&self) -> StoredBusinessRecordView {
        StoredBusinessRecordView {
            record_id: self.record_id@,
            dog_id: self.dog_id@,
            business_type: self.business_type,
            timestamp: self.timestamp,
            longitude: self.longitude@,
            latitude: self.latitude@,
        }
    }
}

/// The business type that a token stands for.
pub open spec fn business_type_of(token: Seq<char>) -> Option<BusinessType> {
    if token == "pee"@ {
        Some(BusinessType::Pee)
    } else if token == "poo"@ {
        Some(BusinessType::Poo)
    } else {
        None
    }
}

/// What reading a string attribute comes to: the string, or what is wrong
/// with the attribute.
pub open spec fn string_attribute(
    attribute: Option<AttributeView>,
    missing: Seq<char>,
    not_a_string: Seq<char>,
) -> Result<Seq<char>, Seq<char>> {
    match attribute {
        None => Err(missing),
        Some(AttributeView::S(string)) => Ok(string),
        Some(_) => Err(not_a_string),
    }
}

/// What reading a number attribute comes to: the digits of the number, or
/// what is wrong with the attribute.
pub open spec fn number_attribute(
    attribute: Option<AttributeView>,
    missing: Seq<char>,
    not_a_number: Seq<char>,
) -> Result<Seq<char>, Seq<char>> {
    match attribute {
        None => Err(missing),
        Some(AttributeView::N(number)) => Ok(number),
        Some(_) => Err(not_a_number),
    }
}

/// What parsing the item of a business record comes to: the record, or what
/// is wrong with the first attribute that is not as it should be. The
/// attributes are looked at in the order of record ID, dog ID, business
/// type, timestamp, longitude, latitude.
pub open spec fn parsed_business_record_item(item: BusinessRecordItemView) -> Result<
    StoredBusinessRecordView,
    Seq<char>,
> {
    match string_attribute(item.pk, "pk (record ID) is missing"@, "pk (record ID) must be a string"@) {
        Err(message) => Err(message),
        Ok(record_id) => match string_attribute(
            item.dog_id,
            "dogId is missing"@,
            "dogId must be a string"@,
        ) {
            Err(message) => Err(message),
            Ok(dog_id) => match string_attribute(
                item.business_type,
                "businessType is missing"@,
                "businessType must be a string"@,
            ) {
                Err(message) => Err(message),
                Ok(token) => match business_type_of(token) {
                    None => Err("invalid businessType"@),
                    Some(business_type) => match number_attribute(
                        item.timestamp,
                        "timestamp is missing"@,
                        "timestamp must be a number"@,
                    ) {
                        Err(message) => Err(message),
                        Ok(digits) => match parsed_i64(digits) {
                            None => Err("invalid timestamp"@),
                            Some(timestamp) => match number_attribute(
                                item.longitude,
                                "longitude is missing"@,
                                "longitude must be a number"@,
                            ) {
                                Err(message) => Err(message),
                                Ok(longitude) => match number_attribute(
                                    item.latitude,
                                    "latitude is missing"@,
                                    "latitude must be a number"@,
                                ) {
                                    Err(message) => Err(message),
                                    Ok(latitude) => Ok(
                                        StoredBusinessRecordView {
                                            record_id,
                                            dog_id,
                                            business_type,
                                            timestamp,
                                            longitude,
                                            latitude,
                                        },
                                    ),
                                },
                            },
                        },
                    },
                },
            },
        },
    }
}

/// Reads a string attribute.
fn read_string<'a>(
    attribute: &'a Option<AttributeValue>,
    missing: &str,
    not_a_string: &str,
) -> (result: Result<&'a String, TableError>)
    ensures
        match result {
            Ok(string) => string_attribute(attribute_view(*attribute), missing@, not_a_string@)
                == Ok::<Seq<char>, Seq<char>>(string@),
            Err(error) => match string_attribute(
                attribute_view(*attribute),
                missing@,
                not_a_string@,
            ) {
                Err(message) => error@ == TableErrorView::ItemError(message),
                Ok(_) => false,
            },
        },
{
    match attribute {
        None => Err(TableError::item_error(missing)),
        Some(AttributeValue::S(string)) => Ok(string),
        Some(_) => Err(TableError::item_error(not_a_string)),
    }
}

/// Reads a number attribute.
fn read_number<'a>(
    attribute: &'a Option<AttributeValue>,
    missing: &str,
    not_a_number: &str,
) -> (result: Result<&'a String, TableError>)
    ensures
        match result {
            Ok(number) => number_attribute(attribute_view(*attribute), missing@, not_a_number@)
                == Ok::<Seq<char>, Seq<char>>(number@),
            Err(error) => match number_attribute(
                attribute_view(*attribute),
                missing@,
                not_a_number@,
            ) {
                Err(message) => error@ == TableErrorView::ItemError(message),
                Ok(_) => false,
            },
        },
{
    match attribute {
        None => Err(TableError::item_error(missing)),
        Some(AttributeValue::N(number)) => Ok(number),
        Some(_) => Err(TableError::item_error(not_a_number)),
    }
}

/// Reads the token of a business type.
pub fn parse_business_type(token: &str) -> (business_type: Option<BusinessType>)
    ensures
        business_type == business_type_of(token@),
{
    let token = token.to_string();
    if token == "pee".to_string() {
        Some(BusinessType::Pee)
    } else if token == "poo".to_string() {
        Some(BusinessType::Poo)
    } else {
        None
    }
}

/// Parses the item of a business record.
///
/// Fails with a [`TableError::ItemError`] that says what is wrong with the
/// first attribute that is not as it should be.
pub fn parse_business_record_item(item: &BusinessRecordItem) -> (result: Result<
    StoredBusinessRecord,
    TableError,
>)
    ensures
        match result {
            Ok(record) => parsed_business_record_item(item@) == Ok::<
                StoredBusinessRecordView,
                Seq<char>,
            >(record@),
            Err(error) => match parsed_business_record_item(item@) {
                Err(message) => error@ == TableErrorView::ItemError(message),
                Ok(_) => false,
            },
        },
{
    let record_id = match read_string(
        &item.pk,
        "pk (record ID) is missing",
        "pk (record ID) must be a string",
    ) {
        Ok(record_id) => record_id,
        Err(error) => {
            return Err(error);
        },
    };
    let dog_id = match read_string(&item.dog_id, "dogId is missing", "dogId must be a string") {
        Ok(dog_id) => dog_id,
        Err(error) => {
            return Err(error);
        },
    };
    let token = match read_string(
        &item.business_type,
        "businessType is missing",
        "businessType must be a string",
    ) {
        Ok(token) => token,
        Err(error) => {
            return Err(error);
        },
    };
    let business_type = match parse_business_type(token.as_str()) {
        Some(business_type) => business_type,
        None => {
            return Err(TableError::item_error("invalid businessType"));
        },
    };
    let digits = match read_number(
        &item.timestamp,
        "timestamp is missing",
        "timestamp must be a number",
    ) {
        Ok(digits) => digits,
        Err(error) => {
            return Err(error);
        },
    };
    let timestamp = match parse_i64(digits.as_str()) {
        Some(timestamp) => timestamp,
        None => {
            return Err(TableError::item_error("invalid timestamp"));
        },
    };
    let longitude = match read_number(
        &item.longitude,
        "longitude is missing",
        "longitude must be a number",
    ) {
        Ok(longitude) => longitude,
        Err(error) => {
            return Err(error);
        },
    };
    let latitude = match read_number(
        &item.latitude,
        "latitude is missing",
        "latitude must be a number",
    ) {
        Ok(latitude) => latitude,
        Err(error) => {
            return Err(error);
        },
    };
    Ok(
        StoredBusinessRecord {
            record_id: record_id.clone(),
            dog_id: dog_id.clone(),
            business_type,
            timestamp,
            longitude: longitude.clone(),
            latitude: latitude.clone(),
        },
    )
}

} // verus!
