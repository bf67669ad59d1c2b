//! Compiler of Mapbox vector tiles for dated, located business records.
//!
//! The library places records on the tile grid of the Web Mercator
//! projection, collects them per tile, and assembles and encodes the tile.
//! All of it is integer arithmetic: a location enters the library already
//! projected onto the finest grid that tiles can resolve (see
//! [`web_mercator`]).
//!
//! - [`web_mercator`]: the grid of the projection
//! - [`mvt`]: tile coordinates, feature IDs, the buffer of the records of a
//!   tile and the tile that it becomes
//! - [`protos`]: the vector tile and its encoding
//! - [`get_tile`]: answering a request for a tile
//! - [`create_business_record`]: the keys under which a record is indexed
//! - [`tables`], [`resource`]: the items of the tables
//! - [`text`]: numbers in decimal digits, and lists

use vstd::prelude::*;

pub mod create_business_record;
pub mod get_tile;
pub mod mvt;
pub mod protos;
pub mod resource;
pub mod tables;
pub mod text;
pub mod web_mercator;

verus! {

/// Business record.
#[derive(Debug)]
pub struct BusinessRecord {
    /// Unique ID of the record.
    pub record_id: String,
    /// ID of the dog who carried out the business. Absent in an anonymous
    /// record.
    pub dog_id: Option<String>,
    /// Business type.
    pub business_type: BusinessType,
    /// Timestamp when the business was carried out.
    ///
    /// Represented as a number of seconds elapsed since 00:00:00 UTC on
    /// January 1, 1970.
    pub timestamp: i64,
    /// Location of the business, in cells of the world grid.
    pub location: LonLat<i64>,
}

/// What a [`BusinessRecord`] holds, as mathematical values.
pub struct BusinessRecordView {
    pub record_id: Seq<char>,
    pub dog_id: Option<Seq<char>>,
    pub business_type: BusinessType,
    pub timestamp: i64,
    pub location: LonLat<i64>,
}

impl View for BusinessRecord {
    type V = BusinessRecordView;

    open spec fn view(&self) -> BusinessRecordView {
        BusinessRecordView {
            record_id: self.record_id@,
            dog_id: match self.dog_id {
                Some(dog_id) => Some(dog_id@),
                None => None,
            },
            business_type: self.business_type,
            timestamp: self.timestamp,
            location: self.location,
        }
    }
}

/// What a [`BusinessRecordBuilder`] holds, as mathematical values.
pub struct BusinessRecordBuilderView {
    pub record_id: Option<Seq<char>>,
    pub dog_id: Option<Seq<char>>,
    pub business_type: Option<BusinessType>,
    pub timestamp: Option<i64>,
    pub location: Option<LonLat<i64>>,
}

impl BusinessRecordBuilderView {
    /// The first of the fields that a record cannot do without and that has
    /// no value yet, by its name.
    pub open spec fn missing_field(self) -> Option<Seq<char>> {
        if self.record_id is None {
            Some("record_id"@)
        } else if self.business_type is None {
            Some("business_type"@)
        } else if self.timestamp is None {
            Some("timestamp"@)
        } else if self.location is None {
            Some("location"@)
        } else {
            None
        }
    }
}

/// Error of building a [`BusinessRecord`].
#[derive(Debug)]
pub enum BusinessRecordBuilderError {
    /// A field that a record cannot do without has no value.
    UninitializedField(&'static str),
}

/// Builder for [`BusinessRecord`].
///
/// A record built without the ID of a dog is anonymous.
#[derive(Debug)]
pub struct BusinessRecordBuilder {
    record_id: Option<String>,
    dog_id: Option<String>,
    business_type: Option<BusinessType>,
    timestamp: Option<i64>,
    location: Option<LonLat<i64>>,
}

impl View for BusinessRecordBuilder {
    type V = BusinessRecordBuilderView;

    closed spec fn view(&self) -> BusinessRecordBuilderView {
        BusinessRecordBuilderView {
            record_id: match self.record_id {
                Some(record_id) => Some(record_id@),
                None => None,
            },
            dog_id: match self.dog_id {
                Some(dog_id) => Some(dog_id@),
                None => None,
            },
            business_type: self.business_type,
            timestamp: self.timestamp,
            location: self.location,
        }
    }
}

impl Default for BusinessRecordBuilder {
    /// Creates a builder in which no field has a value.
    fn default() -> (builder: Self)
        ensures
            builder@ == (BusinessRecordBuilderView {
                record_id: None,
                dog_id: None,
                business_type: None,
                timestamp: None,
                location: None,
            }),
    {
        Self { record_id: None, dog_id: None, business_type: None, timestamp: None, location: None }
    }
}

impl BusinessRecordBuilder {
    /// Sets the unique ID of the record.
    pub fn record_id(self, value: &str) -> (builder: Self)
        ensures
            builder@ == (BusinessRecordBuilderView { record_id: Some(value@), ..self@ }),
    {
        Self {
            record_id: Some(value.to_string()),
            dog_id: self.dog_id,
            business_type: self.business_type,
            timestamp: self.timestamp,
            location: self.location,
        }
    }

    /// Sets the ID of the dog who carried out the business.
    pub fn dog_id(self, value: &str) -> (builder: Self)
        ensures
            builder@ == (BusinessRecordBuilderView { dog_id: Some(value@), ..self@ }),
    {
        Self {
            record_id: self.record_id,
            dog_id: Some(value.to_string()),
            business_type: self.business_type,
            timestamp: self.timestamp,
            location: self.location,
        }
    }

    /// Sets the business type.
    pub fn business_type(self, value: BusinessType) -> (builder: Self)
        ensures
            builder@ == (BusinessRecordBuilderView { business_type: Some(value), ..self@ }),
    {
        Self {
            record_id: self.record_id,
            dog_id: self.dog_id,
            business_type: Some(value),
            timestamp: self.timestamp,
            location: self.location,
        }
    }

    /// Sets the timestamp when the business was carried out.
    pub fn timestamp(self, value: i64) -> (builder: Self)
        ensures
            builder@ == (BusinessRecordBuilderView { timestamp: Some(value), ..self@ }),
    {
        Self {
            record_id: self.record_id,
            dog_id: self.dog_id,
            business_type: self.business_type,
            timestamp: Some(value),
            location: self.location,
        }
    }

    /// Sets the location of the business.
    pub fn location(self, value: LonLat<i64>) -> (builder: Self)
        ensures
            builder@ == (BusinessRecordBuilderView { location: Some(value), ..self@ }),
    {
        Self {
            record_id: self.record_id,
            dog_id: self.dog_id,
            business_type: self.business_type,
            timestamp: self.timestamp,
            location: Some(value),
        }
    }

    /// Builds the record.
    ///
    /// Fails if the record ID, the business type, the timestamp or the
    /// location has no value, and names the first of them that has none.
    pub fn build(self) -> (result: Result<BusinessRecord, BusinessRecordBuilderError>)
        ensures
            match result {
                Ok(record) => {
                    &&& self@.missing_field() is None
                    &&& Some(record@.record_id) == self@.record_id
                    &&& record@.dog_id == self@.dog_id
                    &&& Some(record@.business_type) == self@.business_type
                    &&& Some(record@.timestamp) == self@.timestamp
                    &&& Some(record@.location) == self@.location
                },
                Err(BusinessRecordBuilderError::UninitializedField(name)) => {
                    self@.missing_field() == Some(name@)
                },
            },
    {
        let record_id = match self.record_id {
            Some(record_id) => record_id,
            None => {
                return Err(BusinessRecordBuilderError::UninitializedField("record_id"));
            },
        };
        let business_type = match self.business_type {
            Some(business_type) => business_type,
            None => {
                return Err(BusinessRecordBuilderError::UninitializedField("business_type"));
            },
        };
        let timestamp = match self.timestamp {
            Some(timestamp) => timestamp,
            None => {
                return Err(BusinessRecordBuilderError::UninitializedField("timestamp"));
            },
        };
        let location = match self.location {
            Some(location) => location,
            None => {
                return Err(BusinessRecordBuilderError::UninitializedField("location"));
            },
        };
        Ok(BusinessRecord { record_id, dog_id: self.dog_id, business_type, timestamp, location })
    }
}

/// Longitude and latitude coordinates.
///
/// The unit is the caller's choice. Inside this library both axes are
/// measured in cells of the world grid (see [`web_mercator::GRID_BITS`]):
/// the longitude grows eastwards from the antimeridian, the latitude grows
/// southwards from the northern cut-off of the projection.
#[derive(Clone, Copy, Debug)]
pub struct LonLat<T>(pub T, pub T);

impl<T> LonLat<T> {
    /// Returns the longitude.
    #[inline]
    pub fn longitude(&self) -> (longitude: &T)
        ensures
            *longitude == self.0,
    {
        &self.0
    }

    /// Returns the latitude.
    #[inline]
    pub fn latitude(&self) -> (latitude: &T)
        ensures
            *latitude == self.1,
    {
        &self.1
    }
}

/// Business type.
#[derive(Clone, Copy, Debug, PartialEq, Eq, Structural)]
pub enum BusinessType {
    /// Pee.
    Pee,
    /// Poo.
    Poo,
}

impl BusinessType {
    /// Token that stands for the business type in tiles and tables.
    pub open spec fn token(self) -> Seq<char> {
        match self {
            BusinessType::Pee => "pee"@,
            BusinessType::Poo => "poo"@,
        }
    }

    /// Returns the token of the business type: `"pee"` or `"poo"`.
    pub fn to_string(&self) -> (token: String)
        ensures
            token@ == self.token(),
    {
        match self {
            BusinessType::Pee => "pee".to_string(),
            BusinessType::Poo => "poo".to_string(),
        }
    }
}

} // verus!
