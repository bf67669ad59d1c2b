//! MVT for symbols.
//!
//! A business record is a symbol on the map: a point with properties. The
//! records of a tile are collected in a [`BusinessRecordBuffer`], which
//! turns them away if they are outside of the tile or come twice, and
//! counts how often each value of a property is in use. The buffer then
//! becomes a tile of one layer: a dictionary of the values, the most used
//! first, and a feature for each record.

use std::collections::HashMap;
use std::ops::Range;
use vstd::arithmetic::div_mod::{lemma_fundamental_div_mod, lemma_mod_bound};
use vstd::arithmetic::power2::pow2;
use vstd::hash_map::StringHashMap;
use vstd::hash_set::StringHashSet;
use vstd::prelude::*;

use crate::mvt::dictionary::{
    index_integers,
    index_strings,
    indexes_integers,
    indexes_strings,
    integers_in_use,
    is_dictionary,
    is_ranking,
    last_index_of,
    lemma_value_has_index,
    rank_by_frequency,
    strings_in_use,
    value_uses,
    values_in_use,
    values_view,
};
use crate::mvt::feature_id::{
    feature_id,
    index_bits,
    index_limit,
    lemma_feature_id_fields,
    pack_feature_id,
};
use crate::mvt::frequency::{
    bumped,
    distinct_keys,
    i64_uses,
    keys_of,
    lemma_bumped_keys,
    lemma_bumped_tallies,
    lemma_i64_uses_bound,
    lemma_string_uses_bound,
    lemma_tallies_same_uses,
    lemma_uses_of_record,
    position_of_i64,
    position_of_string,
    string_uses,
    tallies,
};
use crate::mvt::{zigzag, zigzag_code, MvtError, TileCoordinates};
use crate::protos::vector_tile::{Feature, FeatureView, GeomType, Layer, Tile, TileView};
use crate::protos::{PropertyValue, PropertyValueView};
use crate::web_mercator::{
    cell_at_zoom,
    cell_span,
    lemma_spans,
    tile_edge_at_zoom,
    tile_span,
    MAX_ZOOM,
    TILE_EXTENT,
};
use crate::{BusinessRecord, BusinessRecordView, LonLat};

verus! {

/// Vector tile version.
pub const VECTOR_TILE_VERSION: u32 = 2;

/// Layer name.
pub const LAYER_NAME: &'static str = "business_records";

/// Number of records that a buffer holds at most: a record has up to four
/// properties, and the values of properties are found by indices of 32 bits.
pub const MAX_RECORDS: usize = 0x3FFF_FFFF;

/// First number of the geometry of a point: the command to move to (1),
/// and above its three bits the number of points to move to (1).
pub const MOVE_TO_ONE_POINT: u32 = 9;

/// Index of the key of the record ID.
pub const PROPERTY_KEY_RECORD_ID: u32 = 0;

/// Index of the key of the dog ID.
pub const PROPERTY_KEY_DOG_ID: u32 = 1;

/// Index of the key of the business type.
pub const PROPERTY_KEY_BUSINESS_TYPE: u32 = 2;

/// Index of the key of the timestamp.
pub const PROPERTY_KEY_TIMESTAMP: u32 = 3;

/// The keys of the properties of a record, each at its index.
pub open spec fn property_keys() -> Seq<Seq<char>> {
    seq!["recordId"@, "dogId"@, "businessType"@, "timestamp"@]
}

/// The index by which a feature refers to a value of a dictionary.
pub open spec fn value_index(values: Seq<PropertyValueView>, value: PropertyValueView) -> u32 {
    last_index_of(values, value) as u32
}

/// The tags of the feature of a record: for each property of the record the
/// index of its key and the index of its value. A record without a dog has
/// no tag for the dog ID.
pub open spec fn tags_of(record: BusinessRecordView, values: Seq<PropertyValueView>) -> Seq<u32> {
    seq![
        PROPERTY_KEY_RECORD_ID,
        value_index(values, PropertyValueView::String(record.record_id)),
    ] + (match record.dog_id {
        Some(dog_id) => seq![
            PROPERTY_KEY_DOG_ID,
            value_index(values, PropertyValueView::String(dog_id)),
        ],
        None => Seq::<u32>::empty(),
    }) + seq![
        PROPERTY_KEY_BUSINESS_TYPE,
        value_index(values, PropertyValueView::String(record.business_type.token())),
        PROPERTY_KEY_TIMESTAMP,
        value_index(values, PropertyValueView::I64(record.timestamp)),
    ]
}

/// The geometry of a point in a tile: one move from the corner of the tile
/// to the cell of the point.
pub open spec fn geometry_of(location: LonLat<i64>, tile: TileCoordinates) -> Seq<u32> {
    seq![
        MOVE_TO_ONE_POINT,
        zigzag_code(cell_in_tile(location.0, tile.x, tile.zoom) as u32),
        zigzag_code(cell_in_tile(location.1, tile.y, tile.zoom) as u32),
    ]
}

/// The feature of the `index`-th record of a tile.
pub open spec fn feature_of(
    record: BusinessRecordView,
    index: nat,
    tile: TileCoordinates,
    values: Seq<PropertyValueView>,
) -> FeatureView {
    FeatureView {
        id: feature_id(index, tile) as u64,
        tags: tags_of(record, values),
        type_: GeomType::POINT,
        geometry: geometry_of(record.location, tile),
    }
}

/// `tile` is the vector tile of `records` at `coordinates`: one layer, with
/// a dictionary of the properties of the records and one feature for each
/// record, in the order of the records.
pub open spec fn is_tile_of(
    tile: TileView,
    coordinates: TileCoordinates,
    records: Seq<BusinessRecordView>,
) -> bool {
    &&& tile.layers.len() == 1
    &&& tile.layers[0].version == VECTOR_TILE_VERSION
    &&& tile.layers[0].name == LAYER_NAME@
    &&& tile.layers[0].extent == TILE_EXTENT
    &&& tile.layers[0].keys == if records.len() > 0 {
        property_keys()
    } else {
        Seq::<Seq<char>>::empty()
    }
    &&& is_dictionary(tile.layers[0].values, records)
    &&& tile.layers[0].features.len() == records.len()
    &&& forall|i: int|
        0 <= i < records.len() ==> #[trigger] tile.layers[0].features[i] == feature_of(
            records[i],
            i as nat,
            coordinates,
            tile.layers[0].values,
        )
}

/// The IDs of records.
pub open spec fn record_ids_of(records: Seq<BusinessRecordView>) -> Set<Seq<char>> {
    records.map_values(|record: BusinessRecordView| record.record_id).to_set()
}

/// Place of a coordinate within a tile, in cells of the zoom level of the
/// tile: the cell that the coordinate falls on, counted from the edge of the
/// tile in column or row `index`.
pub open spec fn cell_in_tile(coordinate: i64, index: u32, z: u32) -> int {
    coordinate as int / cell_span(z) as int - index * TILE_EXTENT
}

/// A coordinate within a tile falls on one of the cells of the tile.
pub proof fn lemma_cell_in_tile(coordinate: i64, index: u32, z: u32)
    requires
        z <= MAX_ZOOM,
        index * tile_span(z) <= coordinate < (index + 1) * tile_span(z),
    ensures
        0 <= cell_in_tile(coordinate, index, z) < TILE_EXTENT,
{
    lemma_spans(z);
    let cell = cell_span(z) as int;
    let c = coordinate as int;
    let q = c / cell;
    lemma_fundamental_div_mod(c, cell);
    lemma_mod_bound(c, cell);
    assert(index * 4096 <= q < (index + 1) * 4096) by (nonlinear_arith)
        requires
            index * (4096 * cell) <= c < (index + 1) * (4096 * cell),
            c == cell * q + c % cell,
            0 <= c % cell < cell,
    ;
}

/// Number of records that a tile at zoom level `z` has room for:
/// [`MAX_RECORDS`], or fewer where the zoom level leaves fewer feature IDs to
/// a tile.
pub open spec fn record_capacity(z: u32) -> nat
    recommends
        z <= MAX_ZOOM,
{
    if pow2(index_bits(z)) < MAX_RECORDS {
        pow2(index_bits(z))
    } else {
        MAX_RECORDS as nat
    }
}

/// Returns the number of records that a tile at zoom level `z` has room
/// for.
pub fn record_capacity_at_zoom(z: u32) -> (capacity: usize)
    requires
        z <= MAX_ZOOM,
    ensures
        capacity == record_capacity(z),
{
    let limit: u64 = index_limit(z);
    if limit < MAX_RECORDS as u64 {
        limit as usize
    } else {
        MAX_RECORDS
    }
}

/// Buffer for business records in a vector tile.
///
/// Use this buffer to build a vector tile which contains business records.
pub struct BusinessRecordBuffer {
    /// Tile coordinates.
    coordinates: TileCoordinates,
    /// Range of longitudes that the tile covers.
    lon_range: Range<i64>,
    /// Range of latitudes that the tile covers.
    lat_range: Range<i64>,
    /// Records in the buffer.
    records: Vec<BusinessRecord>,
    /// Unique record IDs within the tile.
    record_ids: StringHashSet,
    /// String values and frequencies within the tile, in the order in which
    /// the values were first added.
    string_values: Vec<(String, u64)>,
    /// `i64` values and frequencies within the tile, in the order in which
    /// the values were first added.
    i64_values: Vec<(i64, u64)>,
}

impl BusinessRecordBuffer {
    /// Coordinates of the tile that the buffer is for.
    pub closed spec fn coordinates(&self) -> TileCoordinates {
        self.coordinates
    }

    /// The records in the buffer, in the order in which they were appended.
    pub closed spec fn records(&self) -> Seq<BusinessRecordView> {
        self.records@.map_values(|record: BusinessRecord| record@)
    }

    /// The IDs of the records in the buffer.
    pub closed spec fn record_ids(&self) -> Set<Seq<char>> {
        self.record_ids@
    }

    /// The string values and their frequencies.
    pub closed spec fn string_values(&self) -> Seq<(Seq<char>, u64)> {
        self.string_values@.map_values(|entry: (String, u64)| (entry.0@, entry.1))
    }

    /// The `i64` values and their frequencies.
    pub closed spec fn i64_values(&self) -> Seq<(i64, u64)> {
        self.i64_values@
    }

    /// What holds of every buffer between two calls.
    pub closed spec fn wf(&self) -> bool {
        &&& self.coordinates.valid()
        &&& self.lon_range.start == self.coordinates.x * tile_span(self.coordinates.zoom)
        &&& self.lon_range.end == (self.coordinates.x + 1) * tile_span(self.coordinates.zoom)
        &&& self.lat_range.start == self.coordinates.y * tile_span(self.coordinates.zoom)
        &&& self.lat_range.end == (self.coordinates.y + 1) * tile_span(self.coordinates.zoom)
        &&& self.invariants()
        &&& self.records@.len() <= MAX_RECORDS
        &&& self.string_values@.len() <= 2 * self.records@.len()
        &&& self.i64_values@.len() <= self.records@.len()
    }

    /// What a buffer maintains across
    /// [`append_business_record`](Self::append_business_record):
    ///
    /// - every record is in the tile;
    /// - no two records share a record ID, so that there are as many record
    ///   IDs as records;
    /// - the frequency of a value is the number of properties of records
    ///   that have the value;
    /// - the values stand in the order of their first use.
    pub open spec fn invariants(&self) -> bool {
        &&& forall|i: int|
            0 <= i < self.records().len() ==> self.coordinates().contains(
                (#[trigger] self.records()[i]).location,
            )
        &&& forall|i: int, j: int|
            0 <= i < j < self.records().len() ==> (#[trigger] self.records()[i]).record_id != (
            #[trigger] self.records()[j]).record_id
        &&& self.record_ids() == record_ids_of(self.records())
        &&& self.record_ids().finite()
        &&& self.record_ids().len() == self.records().len()
        &&& tallies(self.string_values(), |value: Seq<char>| string_uses(self.records(), value))
        &&& tallies(self.i64_values(), |value: i64| i64_uses(self.records(), value))
        &&& keys_of(self.string_values()) == strings_in_use(self.records())
        &&& keys_of(self.i64_values()) == integers_in_use(self.records())
    }

    /// A buffer maintains its invariants.
    pub proof fn lemma_invariants(&self)
        requires
            self.wf(),
        ensures
            self.coordinates().valid(),
            self.invariants(),
            self.records().len() <= MAX_RECORDS,
    {
    }

    /// Creates a new [`BusinessRecordBuffer`] for given tile coordinates.
    pub fn new(coordinates: TileCoordinates) -> (buffer: Self)
        requires
            coordinates.valid(),
        ensures
            buffer.wf(),
            buffer.coordinates() == coordinates,
            buffer.records() == Seq::<BusinessRecordView>::empty(),
    {
        proof {
            lemma_spans(coordinates.zoom);
        }
        let min_longitude = tile_edge_at_zoom(coordinates.x, coordinates.zoom);
        let max_longitude = tile_edge_at_zoom(coordinates.x + 1, coordinates.zoom);
        let min_latitude = tile_edge_at_zoom(coordinates.y, coordinates.zoom);
        let max_latitude = tile_edge_at_zoom(coordinates.y + 1, coordinates.zoom);
        let buffer = Self {
            coordinates,
            lon_range: min_longitude..max_longitude,
            lat_range: min_latitude..max_latitude,
            records: Vec::new(),
            record_ids: StringHashSet::new(),
            string_values: Vec::new(),
            i64_values: Vec::new(),
        };
        proof {
            assert(buffer.records() =~= Seq::<BusinessRecordView>::empty());
            assert(record_ids_of(buffer.records()) =~= Set::<Seq<char>>::empty());
            assert(keys_of(buffer.string_values()) =~= strings_in_use(buffer.records()));
            assert(keys_of(buffer.i64_values()) =~= integers_in_use(buffer.records()));
        }
        buffer
    }

    /// Returns the number of records in the buffer.
    pub fn len(&self) -> (len: usize)
        ensures
            len == self.records().len(),
    {
        self.records.len()
    }

    /// Returns the number of distinct string values of properties in the
    /// buffer.
    pub fn string_values_len(&self) -> (len: usize)
        ensures
            len == self.string_values().len(),
    {
        self.string_values.len()
    }

    /// Returns the number of distinct `i64` values of properties in the
    /// buffer.
    pub fn i64_values_len(&self) -> (len: usize)
        ensures
            len == self.i64_values().len(),
    {
        self.i64_values.len()
    }

    /// Returns the frequency of a string value: the number of properties of
    /// records in the buffer that have the value, or `None` if there is
    /// none.
    pub fn string_frequency(&self, value: &str) -> (frequency: Option<u64>)
        requires
            self.wf(),
        ensures
            match frequency {
                Some(frequency) => frequency > 0 && frequency == string_uses(
                    self.records(),
                    value@,
                ),
                None => string_uses(self.records(), value@) == 0,
            },
    {
        let i: usize = position_of_string(&self.string_values, &value.to_string());
        let ghost uses = |value: Seq<char>| string_uses(self.records(), value);
        if i < self.string_values.len() {
            assert(self.string_values()[i as int].1 == uses(self.string_values()[i as int].0));
            Some(self.string_values[i].1)
        } else {
            proof {
                if uses(value@) > 0 {
                    let at = choose|at: int|
                        0 <= at < self.string_values().len() && (
                        #[trigger] self.string_values()[at]).0 == value@;
                    assert(self.string_values@[at].0@ != value@);
                }
            }
            None
        }
    }

    /// Returns the frequency of an `i64` value: the number of properties of
    /// records in the buffer that have the value, or `None` if there is
    /// none.
    pub fn i64_frequency(&self, value: i64) -> (frequency: Option<u64>)
        requires
            self.wf(),
        ensures
            match frequency {
                Some(frequency) => frequency > 0 && frequency == i64_uses(self.records(), value),
                None => i64_uses(self.records(), value) == 0,
            },
    {
        let i: usize = position_of_i64(&self.i64_values, value);
        let ghost uses = |value: i64| i64_uses(self.records(), value);
        if i < self.i64_values.len() {
            assert(self.i64_values()[i as int].1 == uses(self.i64_values()[i as int].0));
            Some(self.i64_values[i].1)
        } else {
            proof {
                if uses(value) > 0 {
                    let at = choose|at: int|
                        0 <= at < self.i64_values().len() && (#[trigger] self.i64_values()[at]).0
                            == value;
                    assert(self.i64_values@[at].0 != value);
                }
            }
            None
        }
    }

    /// Returns if the tile contains a given location.
    #[inline]
    pub fn contains_location(&self, location: &LonLat<i64>) -> (contained: bool)
        requires
            self.wf(),
        ensures
            contained == self.coordinates().contains(*location),
    {
        let longitude: i64 = *location.longitude();
        let latitude: i64 = *location.latitude();
        self.lon_range.start <= longitude && longitude < self.lon_range.end
            && self.lat_range.start <= latitude && latitude < self.lat_range.end
    }

    /// Appends a given business record to the buffer.
    ///
    /// May return the following error:
    /// - [`MvtError::OutsideOfTile`]: if the tile does not contain the
    ///   record's location
    /// - [`MvtError::DuplicateRecordId`]: if the record's ID is already in the
    ///   buffer
    ///
    /// A record that is both outside of the tile and a duplicate is reported
    /// as outside of the tile. The buffer does not change if the record is
    /// not appended.
    pub fn append_business_record(&mut self, record: BusinessRecord) -> (result: Result<
        (),
        MvtError,
    >)
        requires
            old(self).wf(),
            old(self).records().len() < MAX_RECORDS,
        ensures
            final(self).wf(),
            final(self).coordinates() == old(self).coordinates(),
            match result {
                Ok(()) => {
                    &&& old(self).coordinates().contains(record@.location)
                    &&& !old(self).record_ids().contains(record@.record_id)
                    &&& final(self).records() == old(self).records().push(record@)
                    &&& final(self).records().len() == old(self).records().len() + 1
                    &&& final(self).record_ids() == old(self).record_ids().insert(
                        record@.record_id,
                    )
                    &&& final(self).record_ids().len() == old(self).record_ids().len() + 1
                },
                Err(MvtError::OutsideOfTile) => {
                    &&& !old(self).coordinates().contains(record@.location)
                    &&& *final(self) == *old(self)
                },
                Err(MvtError::DuplicateRecordId(id)) => {
                    &&& old(self).coordinates().contains(record@.location)
                    &&& old(self).record_ids().contains(record@.record_id)
                    &&& id@ == record@.record_id
                    &&& *final(self) == *old(self)
                },
            },
    {
        if self.contains_location(&record.location) {
            let ghost records = self.records();
            let ghost strings = self.string_values();
            let ghost after = records.push(record@);
            match self.add_record_id(record.record_id.clone()) {
                Ok(()) => {},
                Err(error) => {
                    return Err(error);
                },
            }
            proof {
                assert(after.drop_last() =~= records);
                assert forall|value: Seq<char>| #[trigger]
                    string_uses(records, value) < u64::MAX - 2 by {
                    lemma_string_uses_bound(records, value);
                }
                assert forall|value: i64| #[trigger] i64_uses(records, value) < u64::MAX by {
                    lemma_i64_uses_bound(records, value);
                }
            }
            let ghost uses = |value: Seq<char>| string_uses(records, value);
            let ghost uses_with_dog = |value: Seq<char>|
                (string_uses(records, value) + (if record@.dog_id == Some(value) {
                    1nat
                } else {
                    0nat
                })) as nat;
            match &record.dog_id {
                Some(dog_id) => {
                    self.add_string_value(dog_id.clone());
                    proof {
                        lemma_bumped_tallies(strings, dog_id@, uses, uses_with_dog);
                        lemma_bumped_keys(strings, dog_id@);
                    }
                },
                None => {
                    proof {
                        lemma_tallies_same_uses(strings, uses, uses_with_dog);
                    }
                },
            }
            let ghost strings_with_dog = self.string_values();
            self.add_string_value(record.business_type.to_string());
            self.add_i64_value(record.timestamp);
            self.records.push(record);
            proof {
                assert(self.records() =~= after);
                lemma_bumped_tallies(
                    strings_with_dog,
                    record@.business_type.token(),
                    uses_with_dog,
                    |value: Seq<char>| string_uses(after, value),
                );
                lemma_bumped_tallies(
                    old(self).i64_values(),
                    record@.timestamp,
                    |value: i64| i64_uses(records, value),
                    |value: i64| i64_uses(after, value),
                );
                lemma_bumped_keys(strings_with_dog, record@.business_type.token());
                lemma_bumped_keys(old(self).i64_values(), record@.timestamp);
                assert(keys_of(self.string_values()) == strings_in_use(after));
                assert(keys_of(self.i64_values()) == integers_in_use(after));
                // the record IDs
                let ids = records.map_values(|record: BusinessRecordView| record.record_id);
                let ids_after = after.map_values(|record: BusinessRecordView| record.record_id);
                assert(ids_after =~= ids.push(record@.record_id));
                assert forall|id: Seq<char>| #[trigger]
                    ids_after.to_set().contains(id) <==> ids.to_set().insert(
                        record@.record_id,
                    ).contains(id) by {
                    if ids_after.contains(id) {
                        let i = choose|i: int| 0 <= i < ids_after.len() && ids_after[i] == id;
                        if i < ids.len() {
                            assert(ids[i] == id);
                        }
                    }
                    if ids.contains(id) {
                        let i = choose|i: int| 0 <= i < ids.len() && ids[i] == id;
                        assert(ids_after[i] == id);
                    }
                    assert(ids_after[ids.len() as int] == record@.record_id);
                }
                assert(record_ids_of(after) =~= record_ids_of(records).insert(record@.record_id));
                assert forall|i: int, j: int| 0 <= i < j < after.len() implies (
                #[trigger] after[i]).record_id != (#[trigger] after[j]).record_id by {
                    if j == records.len() {
                        assert(ids[i] == records[i].record_id);
                        assert(ids.contains(records[i].record_id));
                    }
                }
            }
            Ok(())
        } else {
            Err(MvtError::OutsideOfTile)
        }
    }

    /// Adds a record ID to the buffer.
    ///
    /// Record IDs must be unique within the tile.
    #[inline]
    fn add_record_id(&mut self, record_id: String) -> (result: Result<(), MvtError>)
        ensures
            final(self).coordinates == old(self).coordinates,
            final(self).lon_range == old(self).lon_range,
            final(self).lat_range == old(self).lat_range,
            final(self).records == old(self).records,
            final(self).string_values == old(self).string_values,
            final(self).i64_values == old(self).i64_values,
            match result {
                Ok(()) => {
                    &&& !old(self).record_ids@.contains(record_id@)
                    &&& final(self).record_ids@ == old(self).record_ids@.insert(record_id@)
                },
                Err(MvtError::DuplicateRecordId(id)) => {
                    &&& old(self).record_ids@.contains(record_id@)
                    &&& id@ == record_id@
                    &&& *final(self) == *old(self)
                },
                Err(MvtError::OutsideOfTile) => false,
            },
    {
        // the set is asked before the ID is given to it, so that the ID is
        // still there to be returned in case of a duplication error
        if self.record_ids.contains(record_id.as_str()) {
            Err(MvtError::DuplicateRecordId(record_id))
        } else {
            self.record_ids.insert(record_id);
            Ok(())
        }
    }

    /// Adds a string value.
    ///
    /// More frequent values shall be assigned lower value indices.
    #[inline]
    fn add_string_value(&mut self, value: String)
        requires
            distinct_keys(old(self).string_values()),
            forall|i: int|
                0 <= i < old(self).string_values().len() ==> (
                #[trigger] old(self).string_values()[i]).1 < u64::MAX,
        ensures
            final(self).coordinates == old(self).coordinates,
            final(self).lon_range == old(self).lon_range,
            final(self).lat_range == old(self).lat_range,
            final(self).records == old(self).records,
            final(self).record_ids == old(self).record_ids,
            final(self).i64_values == old(self).i64_values,
            final(self).string_values() == bumped(old(self).string_values(), value@),
    {
        let ghost table = self.string_values();
        let i: usize = position_of_string(&self.string_values, &value);
        if i < self.string_values.len() {
            proof {
                assert(table[i as int].0 == value@);
                assert(table[i as int].1 < u64::MAX);
                let at = choose|at: int| 0 <= at < table.len() && (#[trigger] table[at]).0 == value@;
                assert(at == i);
            }
            self.string_values[i].1 = self.string_values[i].1 + 1;
            assert(self.string_values() =~= bumped(table, value@));
        } else {
            proof {
                assert forall|j: int| 0 <= j < table.len() implies (#[trigger] table[j]).0
                    != value@ by {
                    assert(self.string_values@[j].0@ != value@);
                }
            }
            self.string_values.push((value, 1));
            assert(self.string_values() =~= bumped(table, value@));
        }
    }

    /// Adds an `i64` value to the buffer.
    ///
    /// More frequent values shall be assigned lower value indices.
    #[inline]
    fn add_i64_value(&mut self, value: i64)
        requires
            distinct_keys(old(self).i64_values()),
            forall|i: int|
                0 <= i < old(self).i64_values().len() ==> (
                #[trigger] old(self).i64_values()[i]).1 < u64::MAX,
        ensures
            final(self).coordinates == old(self).coordinates,
            final(self).lon_range == old(self).lon_range,
            final(self).lat_range == old(self).lat_range,
            final(self).records == old(self).records,
            final(self).record_ids == old(self).record_ids,
            final(self).string_values == old(self).string_values,
            final(self).i64_values() == bumped(old(self).i64_values(), value),
    {
        let ghost table = self.i64_values();
        let i: usize = position_of_i64(&self.i64_values, value);
        if i < self.i64_values.len() {
            proof {
                assert(table[i as int].0 == value);
                assert(table[i as int].1 < u64::MAX);
                let at = choose|at: int| 0 <= at < table.len() && (#[trigger] table[at]).0 == value;
                assert(at == i);
            }
            self.i64_values[i].1 = self.i64_values[i].1 + 1;
            assert(self.i64_values() =~= bumped(table, value));
        } else {
            self.i64_values.push((value, 1));
            assert(self.i64_values() =~= bumped(table, value));
        }
    }

    /// Returns the number of records that the buffer has room for in all.
    pub fn capacity(&self) -> (capacity: usize)
        requires
            self.wf(),
        ensures
            capacity == record_capacity(self.coordinates().zoom),
    {
        record_capacity_at_zoom(self.coordinates.zoom)
    }

    /// Calculates the feature ID for a business record at a given index.
    ///
    /// A feature ID does not identify a business record but it guarantees
    /// - no two business records within a tile have the same feature ID
    /// - no two tiles have features with the same feature ID
    ///
    /// So you should not depend on feature IDs to identify business records,
    /// but use the `recordId` property instead.
    ///
    /// The index must be one that the zoom level leaves bits for.
    #[inline]
    pub fn make_feature_id(&self, i: usize) -> (id: u64)
        requires
            self.wf(),
            i < pow2(index_bits(self.coordinates().zoom)),
        ensures
            id == feature_id(i as nat, self.coordinates()),
    {
        pack_feature_id(i as u64, &self.coordinates)
    }

    /// Calculates the u coordinate from longitude.
    ///
    /// There is no "u" coordinate in the Mapbox vector tile specification.
    /// In this program:
    /// - x coordinate is a result of applying the web mercator projection to
    ///   longitude, in cells of the zoom level
    /// - u coordinate is the local coordinate in the tile represented as
    ///   an integer in the range `[0, TILE_EXTENT)`
    ///
    /// `longitude` must be in the tile.
    #[inline]
    pub fn u_from_longitude(&self, longitude: i64) -> (u: u32)
        requires
            self.wf(),
            self.coordinates().x * tile_span(self.coordinates().zoom) <= longitude < (
            self.coordinates().x + 1) * tile_span(self.coordinates().zoom),
        ensures
            u == cell_in_tile(longitude, self.coordinates().x, self.coordinates().zoom),
            u < TILE_EXTENT,
    {
        proof {
            lemma_cell_in_tile(longitude, self.coordinates.x, self.coordinates.zoom);
        }
        let x: i64 = cell_at_zoom(longitude, self.coordinates.zoom);
        let u: i64 = x - (self.coordinates.x as i64) * (TILE_EXTENT as i64);
        u as u32
    }

    /// Calculates the v coordinate from latitude.
    ///
    /// There is no "v" coordinate in the Mapbox vector tile specification.
    /// In this program:
    /// - y coordinate is a result of applying the web mercator projection to
    ///   latitude, in cells of the zoom level
    /// - v coordinate is the local coordinate in the tile represented as
    ///   an integer in the range `[0, TILE_EXTENT)`
    ///
    /// `latitude` must be in the tile.
    #[inline]
    pub fn v_from_latitude(&self, latitude: i64) -> (v: u32)
        requires
            self.wf(),
            self.coordinates().y * tile_span(self.coordinates().zoom) <= latitude < (
            self.coordinates().y + 1) * tile_span(self.coordinates().zoom),
        ensures
            v == cell_in_tile(latitude, self.coordinates().y, self.coordinates().zoom),
            v < TILE_EXTENT,
    {
        proof {
            lemma_cell_in_tile(latitude, self.coordinates.y, self.coordinates.zoom);
        }
        let y: i64 = cell_at_zoom(latitude, self.coordinates.zoom);
        let v: i64 = y - (self.coordinates.y as i64) * (TILE_EXTENT as i64);
        v as u32
    }

    /// The value at a given place among all values in use: the string
    /// values come first, the `i64` values follow.
    spec fn value_in_use(&self, k: int) -> PropertyValueView {
        if k < self.string_values().len() {
            PropertyValueView::String(self.string_values()[k].0)
        } else {
            PropertyValueView::I64(self.i64_values()[k - self.string_values().len()].0)
        }
    }

    /// Collects the frequencies of all values in use: those of the string
    /// values first, those of the `i64` values after them.
    fn collect_frequencies(&self) -> (counts: Vec<u64>)
        requires
            self.wf(),
        ensures
            counts.len() == self.string_values().len() + self.i64_values().len(),
            forall|k: int|
                0 <= k < counts.len() ==> #[trigger] counts[k] == value_uses(
                    self.records(),
                    self.value_in_use(k),
                ) && counts[k] > 0,
    {
        let mut counts: Vec<u64> = Vec::new();
        let mut i: usize = 0;
        while i < self.string_values.len()
            invariant
                self.wf(),
                i <= self.string_values.len(),
                counts.len() == i,
                forall|k: int|
                    0 <= k < i ==> #[trigger] counts[k] == value_uses(
                        self.records(),
                        self.value_in_use(k),
                    ) && counts[k] > 0,
            decreases self.string_values.len() - i,
        {
            assert(self.string_values()[i as int].1 == self.string_values@[i as int].1);
            counts.push(self.string_values[i].1);
            i = i + 1;
        }
        let mut j: usize = 0;
        while j < self.i64_values.len()
            invariant
                self.wf(),
                j <= self.i64_values.len(),
                counts.len() == self.string_values().len() + j,
                forall|k: int|
                    0 <= k < counts.len() ==> #[trigger] counts[k] == value_uses(
                        self.records(),
                        self.value_in_use(k),
                    ) && counts[k] > 0,
            decreases self.i64_values.len() - j,
        {
            assert(self.i64_values()[j as int].1 == self.i64_values@[j as int].1);
            counts.push(self.i64_values[j].1);
            j = j + 1;
        }
        counts
    }

    /// Builds the dictionary: the values in use sorted by frequency in
    /// descending order, and the record IDs after them.
    fn collect_values(&self) -> (values: Vec<PropertyValue>)
        requires
            self.wf(),
        ensures
            is_dictionary(values_view(values@), self.records()),
            values.len() <= 4 * self.records().len(),
    {
        let counts = self.collect_frequencies();
        let order = rank_by_frequency(&counts);
        let string_count: usize = self.string_values.len();
        let mut values: Vec<PropertyValue> = Vec::new();
        let mut q: usize = 0;
        while q < order.len()
            invariant
                self.wf(),
                q <= order.len(),
                is_ranking(order@, counts@),
                counts.len() == self.string_values().len() + self.i64_values().len(),
                string_count == self.string_values().len(),
                values.len() == q,
                forall|p: int|
                    0 <= p < q ==> (#[trigger] values@[p])@ == self.value_in_use(order@[p] as int),
            decreases order.len() - q,
        {
            let k: usize = order[q];
            if k < string_count {
                assert(self.string_values()[k as int].0 == self.string_values@[k as int].0@);
                values.push(PropertyValue::String(self.string_values[k].0.clone()));
            } else {
                values.push(PropertyValue::I64(self.i64_values[k - string_count].0));
            }
            q = q + 1;
        }
        let ghost ranked = values@;
        let mut i: usize = 0;
        while i < self.records.len()
            invariant
                i <= self.records.len(),
                values.len() == ranked.len() + i,
                forall|p: int| 0 <= p < ranked.len() ==> #[trigger] values@[p] == ranked[p],
                forall|p: int|
                    0 <= p < i ==> (#[trigger] values@[ranked.len() + p])@
                        == PropertyValueView::String(self.records()[p].record_id),
            decreases self.records.len() - i,
        {
            assert(self.records()[i as int].record_id == self.records@[i as int].record_id@);
            values.push(PropertyValue::String(self.records[i].record_id.clone()));
            i = i + 1;
        }
        proof {
            let records = self.records();
            let view = values_view(values@);
            let n = ranked.len() as int;
            assert(view.len() - records.len() == n);
            assert forall|p: int| 0 <= p < n implies #[trigger] view[p] == self.value_in_use(
                order@[p] as int,
            ) && value_uses(records, view[p]) == counts[order@[p] as int] && value_uses(
                records,
                view[p],
            ) > 0 by {
                assert(values@[p] == ranked[p]);
                assert(order@[p] < counts.len());
            }
            assert forall|a: int, b: int| 0 <= a < b < n implies #[trigger] view[a]
                != #[trigger] view[b] by {
                let ka = order@[a] as int;
                let kb = order@[b] as int;
                assert(ka != kb);
                assert(view[a] == self.value_in_use(ka));
                assert(view[b] == self.value_in_use(kb));
                if ka < string_count && kb < string_count {
                    if ka < kb {
                        assert(self.string_values()[ka].0 != self.string_values()[kb].0);
                    } else {
                        assert(self.string_values()[kb].0 != self.string_values()[ka].0);
                    }
                } else if ka >= string_count && kb >= string_count {
                    if ka < kb {
                        assert(self.i64_values()[ka - string_count].0 != self.i64_values()[kb
                            - string_count].0);
                    } else {
                        assert(self.i64_values()[kb - string_count].0 != self.i64_values()[ka
                            - string_count].0);
                    }
                }
            }
            assert forall|value: PropertyValueView| #[trigger]
                value_uses(records, value) > 0 implies exists|p: int|
                0 <= p < n && #[trigger] view[p] == value by {
                let k: int = match value {
                    PropertyValueView::String(string) => {
                        let uses = |value: Seq<char>| string_uses(records, value);
                        assert(uses(string) > 0);
                        choose|k: int|
                            0 <= k < self.string_values().len() && (
                            #[trigger] self.string_values()[k]).0 == string
                    },
                    PropertyValueView::I64(integer) => {
                        let uses = |value: i64| i64_uses(records, value);
                        assert(uses(integer) > 0);
                        string_count + (choose|k: int|
                            0 <= k < self.i64_values().len() && (
                            #[trigger] self.i64_values()[k]).0 == integer)
                    },
                };
                assert(self.value_in_use(k) == value);
                assert(order@.contains(k as usize));
                let p = choose|p: int| 0 <= p < order@.len() && order@[p] == k as usize;
                assert(view[p] == value);
            }
            assert forall|a: int, b: int| 0 <= a < b < n implies value_uses(
                records,
                #[trigger] view[a],
            ) >= value_uses(records, #[trigger] view[b]) by {
                assert(counts[order@[a] as int] >= counts[order@[b] as int]);
            }
            let in_use = values_in_use(records);
            assert(in_use.len() == counts.len());
            assert forall|k: int| 0 <= k < in_use.len() implies #[trigger] in_use[k]
                == self.value_in_use(k) by {
                if k < string_count {
                    assert(keys_of(self.string_values())[k] == self.string_values()[k].0);
                } else {
                    assert(keys_of(self.i64_values())[k - string_count]
                        == self.i64_values()[k - string_count].0);
                }
            }
            assert forall|a: int, b: int|
                0 <= a < b < n && value_uses(records, #[trigger] view[a]) == value_uses(
                    records,
                    #[trigger] view[b],
                ) implies exists|c: int, d: int|
                0 <= c < d < in_use.len() && #[trigger] in_use[c] == view[a]
                    && #[trigger] in_use[d] == view[b] by {
                let c = order@[a] as int;
                let d = order@[b] as int;
                assert(counts[c] == counts[d]);
                assert(c < d);
                assert(in_use[c] == view[a] && in_use[d] == view[b]);
            }
            assert forall|p: int| 0 <= p < records.len() implies view[n + p]
                == PropertyValueView::String((#[trigger] records[p]).record_id) by {
                assert(values@[ranked.len() + p]@ == PropertyValueView::String(
                    records[p].record_id,
                ));
            }
        }
        values
    }

    /// Builds the feature of the record at a given index. `values` is the
    /// dictionary that the maps are of.
    fn make_feature(
        &self,
        i: usize,
        Ghost(values): Ghost<Seq<PropertyValueView>>,
        string_value_to_index: &StringHashMap<u32>,
        i64_value_to_index: &HashMap<i64, u32>,
    ) -> (feature: Feature)
        requires
            self.wf(),
            i < self.records().len() <= pow2(index_bits(self.coordinates().zoom)),
            is_dictionary(values, self.records()),
            indexes_strings(string_value_to_index@, values),
            indexes_integers(i64_value_to_index@, values),
        ensures
            feature@ == feature_of(
                self.records()[i as int],
                i as nat,
                self.coordinates(),
                values,
            ),
    {
        let record = &self.records[i];
        let ghost records = self.records();
        let ghost view = values;
        proof {
            assert(records[i as int] == record@);
            assert(self.coordinates().contains(records[i as int].location));
            // each property of the record has its value in the dictionary
            let ranked = view.len() - records.len();
            assert(view[ranked + i] == PropertyValueView::String(records[i as int].record_id));
            lemma_value_has_index(view, PropertyValueView::String(record@.record_id), ranked + i);
            lemma_uses_of_record(records, i as int);
            let token = PropertyValueView::String(record@.business_type.token());
            assert(value_uses(records, token) > 0);
            let at = choose|at: int| 0 <= at < ranked && #[trigger] view[at] == token;
            lemma_value_has_index(view, token, at);
            let timestamp = PropertyValueView::I64(record@.timestamp);
            assert(value_uses(records, timestamp) > 0);
            let at = choose|at: int| 0 <= at < ranked && #[trigger] view[at] == timestamp;
            lemma_value_has_index(view, timestamp, at);
            if let Some(dog_id) = record@.dog_id {
                let dog = PropertyValueView::String(dog_id);
                assert(value_uses(records, dog) > 0);
                let at = choose|at: int| 0 <= at < ranked && #[trigger] view[at] == dog;
                lemma_value_has_index(view, dog, at);
            }
            assert(string_value_to_index@.contains_key(record@.record_id));
            assert(string_value_to_index@.contains_key(record@.business_type.token()));
            assert(i64_value_to_index@.contains_key(record@.timestamp));
        }
        let mut tags: Vec<u32> = Vec::new();
        tags.push(PROPERTY_KEY_RECORD_ID);
        tags.push(*string_value_to_index.get(record.record_id.as_str()).unwrap());
        match &record.dog_id {
            Some(dog_id) => {
                assert(string_value_to_index@.contains_key(dog_id@));
                tags.push(PROPERTY_KEY_DOG_ID);
                tags.push(*string_value_to_index.get(dog_id.as_str()).unwrap());
            },
            None => {},
        }
        tags.push(PROPERTY_KEY_BUSINESS_TYPE);
        tags.push(*string_value_to_index.get(record.business_type.to_string().as_str()).unwrap());
        tags.push(PROPERTY_KEY_TIMESTAMP);
        tags.push(*i64_value_to_index.get(&record.timestamp).unwrap());
        let mut geometry: Vec<u32> = Vec::new();
        geometry.push(MOVE_TO_ONE_POINT);
        geometry.push(zigzag(self.u_from_longitude(*record.location.longitude())));
        geometry.push(zigzag(self.v_from_latitude(*record.location.latitude())));
        let feature = Feature {
            id: self.make_feature_id(i),
            tags,
            type_: GeomType::POINT,
            geometry,
        };
        proof {
            let expected = feature_of(records[i as int], i as nat, self.coordinates(), view);
            lemma_feature_id_fields(i as nat, self.coordinates());
            assert(feature@.tags =~= expected.tags);
            assert(feature@.geometry =~= expected.geometry);
        }
        feature
    }

    /// Builds the vector tile of the records in the buffer.
    ///
    /// The buffer must not hold more records than the zoom level leaves
    /// feature IDs to a tile.
    pub fn into_tile(self) -> (tile: Tile)
        requires
            self.wf(),
            self.records().len() <= pow2(index_bits(self.coordinates().zoom)),
        ensures
            is_tile_of(tile@, self.coordinates(), self.records()),
    {
        // collects the values in use, sorted by frequency in descending
        // order, and the record IDs after them
        let values = self.collect_values();
        // builds value → index maps per type
        let string_value_to_index = index_strings(&values);
        let i64_value_to_index = index_integers(&values);
        // builds features
        let mut features: Vec<Feature> = Vec::new();
        let mut i: usize = 0;
        while i < self.records.len()
            invariant
                self.wf(),
                i <= self.records().len() <= pow2(index_bits(self.coordinates().zoom)),
                self.records().len() == self.records.len(),
                is_dictionary(values_view(values@), self.records()),
                indexes_strings(string_value_to_index@, values_view(values@)),
                indexes_integers(i64_value_to_index@, values_view(values@)),
                features.len() == i,
                forall|p: int|
                    0 <= p < i ==> (#[trigger] features@[p])@ == feature_of(
                        self.records()[p],
                        p as nat,
                        self.coordinates(),
                        values_view(values@),
                    ),
            decreases self.records.len() - i,
        {
            let feature = self.make_feature(
                i,
                Ghost(values_view(values@)),
                &string_value_to_index,
                &i64_value_to_index,
            );
            features.push(feature);
            i = i + 1;
        }
        // copies the keys. but no keys if there are no features
        let mut keys: Vec<String> = Vec::new();
        if features.len() > 0 {
            keys.push("recordId".to_string());
            keys.push("dogId".to_string());
            keys.push("businessType".to_string());
            keys.push("timestamp".to_string());
        }
        let layer = Layer {
            version: VECTOR_TILE_VERSION,
            name: LAYER_NAME.to_string(),
            features,
            keys,
            values,
            extent: TILE_EXTENT,
        };
        proof {
            assert(layer@.keys =~= if self.records().len() > 0 {
                property_keys()
            } else {
                Seq::<Seq<char>>::empty()
            });
        }
        // wraps the layer in a tile
        let mut layers: Vec<Layer> = Vec::new();
        layers.push(layer);
        Tile { layers }
    }
}

} // verus!
