//! Vector tile: layers of features, with the keys and values of their
//! properties interned per layer.

use vstd::prelude::*;

use crate::protos::wire::{
    bytes_field,
    lemma_repeated_push,
    packed_field,
    repeated,
    string_field,
    twos_complement,
    varint_field,
    write_bytes_field,
    write_packed_field,
    write_string_field,
    write_varint_field,
};
use crate::protos::{PropertyValue, PropertyValueView};

verus! {

/// Number of the field of a tile that holds a layer.
pub const TILE_LAYERS_FIELD: u32 = 3;

/// Number of the field of a layer that holds the version.
pub const LAYER_VERSION_FIELD: u32 = 15;

/// Number of the field of a layer that holds the name.
pub const LAYER_NAME_FIELD: u32 = 1;

/// Number of the field of a layer that holds a feature.
pub const LAYER_FEATURES_FIELD: u32 = 2;

/// Number of the field of a layer that holds a key.
pub const LAYER_KEYS_FIELD: u32 = 3;

/// Number of the field of a layer that holds a value.
pub const LAYER_VALUES_FIELD: u32 = 4;

/// Number of the field of a layer that holds the extent.
pub const LAYER_EXTENT_FIELD: u32 = 5;

/// Number of the field of a feature that holds the ID.
pub const FEATURE_ID_FIELD: u32 = 1;

/// Number of the field of a feature that holds the tags.
pub const FEATURE_TAGS_FIELD: u32 = 2;

/// Number of the field of a feature that holds the kind of geometry.
pub const FEATURE_TYPE_FIELD: u32 = 3;

/// Number of the field of a feature that holds the geometry.
pub const FEATURE_GEOMETRY_FIELD: u32 = 4;

/// Number of the field of a value that holds a string.
pub const VALUE_STRING_FIELD: u32 = 1;

/// Number of the field of a value that holds a signed integer.
pub const VALUE_INT_FIELD: u32 = 4;

/// A value as a message: the one field that holds it.
pub open spec fn value_bytes(value: PropertyValueView) -> Seq<u8> {
    match value {
        PropertyValueView::String(string) => string_field(VALUE_STRING_FIELD, string),
        PropertyValueView::I64(integer) => varint_field(VALUE_INT_FIELD, twos_complement(integer)),
    }
}

/// A feature as a message: the ID, the tags, the kind of geometry and the
/// geometry.
pub open spec fn feature_bytes(feature: FeatureView) -> Seq<u8> {
    varint_field(FEATURE_ID_FIELD, feature.id as nat) + packed_field(FEATURE_TAGS_FIELD, feature.tags)
        + varint_field(FEATURE_TYPE_FIELD, feature.type_.number()) + packed_field(
        FEATURE_GEOMETRY_FIELD,
        feature.geometry,
    )
}

/// A layer as a message: the version, the name, the features, the keys,
/// the values and the extent.
pub open spec fn layer_bytes(layer: LayerView) -> Seq<u8> {
    varint_field(LAYER_VERSION_FIELD, layer.version as nat) + string_field(LAYER_NAME_FIELD, layer.name)
        + repeated(
        layer.features,
        |feature: FeatureView| bytes_field(LAYER_FEATURES_FIELD, feature_bytes(feature)),
    ) + repeated(layer.keys, |key: Seq<char>| string_field(LAYER_KEYS_FIELD, key)) + repeated(
        layer.values,
        |value: PropertyValueView| bytes_field(LAYER_VALUES_FIELD, value_bytes(value)),
    ) + varint_field(LAYER_EXTENT_FIELD, layer.extent as nat)
}

/// A tile as a message: the layers.
pub open spec fn tile_bytes(tile: TileView) -> Seq<u8> {
    repeated(tile.layers, |layer: LayerView| bytes_field(TILE_LAYERS_FIELD, layer_bytes(layer)))
}

/// Writes a value as a message.
pub fn write_value(out: &mut Vec<u8>, value: &PropertyValue)
    ensures
        final(out)@ == old(out)@ + value_bytes(value@),
{
    match value {
        PropertyValue::String(string) => {
            write_string_field(out, VALUE_STRING_FIELD, string.as_str());
        },
        PropertyValue::I64(integer) => {
            let integer: i64 = *integer;
            let pattern: u64 = #[verifier::truncate]
            (integer as u64);
            assert(pattern == twos_complement(integer)) by {
                assert(integer >= 0 ==> integer as u64 == integer) by (bit_vector);
                assert(integer < 0 ==> integer as u64 == integer + 0x1_0000_0000_0000_0000)
                    by (bit_vector);
            }
            write_varint_field(out, VALUE_INT_FIELD, pattern);
        },
    }
}

/// Kind of geometry of a feature.
#[allow(non_camel_case_types)]
#[derive(Clone, Copy, Debug, PartialEq, Eq, Structural)]
pub enum GeomType {
    UNKNOWN,
    POINT,
    LINESTRING,
    POLYGON,
}

impl GeomType {
    /// Number that stands for the kind on the wire.
    pub open spec fn number(self) -> nat {
        match self {
            GeomType::UNKNOWN => 0,
            GeomType::POINT => 1,
            GeomType::LINESTRING => 2,
            GeomType::POLYGON => 3,
        }
    }

    /// Returns the number that stands for the kind on the wire.
    pub fn value(&self) -> (number: u32)
        ensures
            number == self.number(),
    {
        match self {
            GeomType::UNKNOWN => 0,
            GeomType::POINT => 1,
            GeomType::LINESTRING => 2,
            GeomType::POLYGON => 3,
        }
    }
}

/// Feature: a geometry with tags.
#[derive(Debug)]
pub struct Feature {
    /// ID of the feature, unique within the layer.
    pub id: u64,
    /// Pairs of an index into the keys and an index into the values of the
    /// layer, flattened.
    pub tags: Vec<u32>,
    /// Kind of the geometry.
    pub type_: GeomType,
    /// Commands and parameters that draw the geometry.
    pub geometry: Vec<u32>,
}

/// What a [`Feature`] holds, as mathematical values.
pub struct FeatureView {
    pub id: u64,
    pub tags: Seq<u32>,
    pub type_: GeomType,
    pub geometry: Seq<u32>,
}

impl View for Feature {
    type V = FeatureView;

    open spec fn view(&self) -> FeatureView {
        FeatureView {
            id: self.id,
            tags: self.tags@,
            type_: self.type_,
            geometry: self.geometry@,
        }
    }
}

impl Feature {
    /// Writes the feature as a message.
    pub fn write_to(&self, out: &mut Vec<u8>)
        ensures
            final(out)@ == old(out)@ + feature_bytes(self@),
    {
        write_varint_field(out, FEATURE_ID_FIELD, self.id);
        write_packed_field(out, FEATURE_TAGS_FIELD, &self.tags);
        write_varint_field(out, FEATURE_TYPE_FIELD, self.type_.value() as u64);
        write_packed_field(out, FEATURE_GEOMETRY_FIELD, &self.geometry);
        proof {
            assert(out@ =~= old(out)@ + feature_bytes(self@));
        }
    }
}

/// Layer of a tile.
#[derive(Debug)]
pub struct Layer {
    /// Version of the vector tile specification that the layer follows.
    pub version: u32,
    /// Name of the layer.
    pub name: String,
    /// Features of the layer.
    pub features: Vec<Feature>,
    /// Keys of the properties of the features.
    pub keys: Vec<String>,
    /// Values of the properties of the features.
    pub values: Vec<PropertyValue>,
    /// Edge length of the tile in cells.
    pub extent: u32,
}

/// What a [`Layer`] holds, as mathematical values.
pub struct LayerView {
    pub version: u32,
    pub name: Seq<char>,
    pub features: Seq<FeatureView>,
    pub keys: Seq<Seq<char>>,
    pub values: Seq<PropertyValueView>,
    pub extent: u32,
}

impl View for Layer {
    type V = LayerView;

    open spec fn view(&self) -> LayerView {
        LayerView {
            version: self.version,
            name: self.name@,
            features: self.features@.map_values(|f: Feature| f@),
            keys: self.keys@.map_values(|k: String| k@),
            values: self.values@.map_values(|v: PropertyValue| v@),
            extent: self.extent,
        }
    }
}

impl Layer {
    /// Writes the layer as a message.
    pub fn write_to(&self, out: &mut Vec<u8>)
        ensures
            final(out)@ == old(out)@ + layer_bytes(self@),
    {
        write_varint_field(out, LAYER_VERSION_FIELD, self.version as u64);
        write_string_field(out, LAYER_NAME_FIELD, self.name.as_str());
        let ghost head = out@;
        let ghost feature_field = |feature: FeatureView|
            bytes_field(LAYER_FEATURES_FIELD, feature_bytes(feature));
        let mut i: usize = 0;
        while i < self.features.len()
            invariant
                i <= self.features.len(),
                feature_field == |feature: FeatureView|
                    bytes_field(LAYER_FEATURES_FIELD, feature_bytes(feature)),
                out@ == head + repeated(self@.features.take(i as int), feature_field),
            decreases self.features.len() - i,
        {
            proof {
                lemma_repeated_push(
                    self@.features.take(i as int),
                    self@.features[i as int],
                    feature_field,
                );
                assert(self@.features.take(i as int).push(self@.features[i as int])
                    =~= self@.features.take(i + 1));
            }
            let ghost before = out@;
            let mut message: Vec<u8> = Vec::new();
            self.features[i].write_to(&mut message);
            write_bytes_field(out, LAYER_FEATURES_FIELD, message);
            assert(out@ =~= head + repeated(self@.features.take(i + 1), feature_field));
            i = i + 1;
        }
        assert(self@.features.take(i as int) =~= self@.features);
        let ghost head = out@;
        let ghost key_field = |key: Seq<char>| string_field(LAYER_KEYS_FIELD, key);
        let mut i: usize = 0;
        while i < self.keys.len()
            invariant
                i <= self.keys.len(),
                key_field == |key: Seq<char>| string_field(LAYER_KEYS_FIELD, key),
                out@ == head + repeated(self@.keys.take(i as int), key_field),
            decreases self.keys.len() - i,
        {
            proof {
                lemma_repeated_push(self@.keys.take(i as int), self@.keys[i as int], key_field);
                assert(self@.keys.take(i as int).push(self@.keys[i as int]) =~= self@.keys.take(
                    i + 1,
                ));
            }
            write_string_field(out, LAYER_KEYS_FIELD, self.keys[i].as_str());
            assert(out@ =~= head + repeated(self@.keys.take(i + 1), key_field));
            i = i + 1;
        }
        assert(self@.keys.take(i as int) =~= self@.keys);
        let ghost head = out@;
        let ghost value_field = |value: PropertyValueView|
            bytes_field(LAYER_VALUES_FIELD, value_bytes(value));
        let mut i: usize = 0;
        while i < self.values.len()
            invariant
                i <= self.values.len(),
                value_field == |value: PropertyValueView|
                    bytes_field(LAYER_VALUES_FIELD, value_bytes(value)),
                out@ == head + repeated(self@.values.take(i as int), value_field),
            decreases self.values.len() - i,
        {
            proof {
                lemma_repeated_push(
                    self@.values.take(i as int),
                    self@.values[i as int],
                    value_field,
                );
                assert(self@.values.take(i as int).push(self@.values[i as int])
                    =~= self@.values.take(i + 1));
            }
            let mut message: Vec<u8> = Vec::new();
            write_value(&mut message, &self.values[i]);
            write_bytes_field(out, LAYER_VALUES_FIELD, message);
            assert(out@ =~= head + repeated(self@.values.take(i + 1), value_field));
            i = i + 1;
        }
        assert(self@.values.take(i as int) =~= self@.values);
        write_varint_field(out, LAYER_EXTENT_FIELD, self.extent as u64);
        proof {
            assert(out@ =~= old(out)@ + layer_bytes(self@));
        }
    }
}

/// Vector tile.
#[derive(Debug)]
pub struct Tile {
    /// Layers of the tile.
    pub layers: Vec<Layer>,
}

/// What a [`Tile`] holds, as mathematical values.
pub struct TileView {
    pub layers: Seq<LayerView>,
}

impl View for Tile {
    type V = TileView;

    open spec fn view(&self) -> TileView {
        TileView { layers: self.layers@.map_values(|l: Layer| l@) }
    }
}

impl Tile {
    /// Writes the tile as a message.
    pub fn write_to_bytes(&self) -> (bytes: Vec<u8>)
        ensures
            bytes@ == tile_bytes(self@),
    {
        let mut bytes: Vec<u8> = Vec::new();
        let ghost layer_field = |layer: LayerView| bytes_field(TILE_LAYERS_FIELD, layer_bytes(layer));
        let mut i: usize = 0;
        while i < self.layers.len()
            invariant
                i <= self.layers.len(),
                layer_field == |layer: LayerView| bytes_field(TILE_LAYERS_FIELD, layer_bytes(layer)),
                bytes@ == repeated(self@.layers.take(i as int), layer_field),
            decreases self.layers.len() - i,
        {
            proof {
                lemma_repeated_push(
                    self@.layers.take(i as int),
                    self@.layers[i as int],
                    layer_field,
                );
                assert(self@.layers.take(i as int).push(self@.layers[i as int])
                    =~= self@.layers.take(i + 1));
            }
            let mut message: Vec<u8> = Vec::new();
            self.layers[i].write_to(&mut message);
            write_bytes_field(&mut bytes, TILE_LAYERS_FIELD, message);
            i = i + 1;
        }
        assert(self@.layers.take(i as int) =~= self@.layers);
        bytes
    }
}

} // verus!
