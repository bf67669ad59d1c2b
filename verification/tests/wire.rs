use map_api::mvt::symbol::BusinessRecordBuffer;
use map_api::mvt::TileCoordinates;
use map_api::protos::vector_tile::{write_value, Feature, GeomType, Layer, Tile};
use map_api::protos::wire::{
    write_bytes_field,
    write_key,
    write_packed_field,
    write_string_field,
    write_varint,
    write_varint_field,
};
use map_api::protos::PropertyValue;
use map_api::{BusinessRecordBuilder, BusinessType, LonLat};
use protobuf::rt::WireType;
use protobuf::{CodedInputStream, CodedOutputStream};

/// Runs a writer of the `protobuf` crate and returns what it wrote.
fn written(write: impl FnOnce(&mut CodedOutputStream) -> protobuf::Result<()>) -> Vec<u8> {
    let mut bytes = Vec::new();
    {
        let mut os = CodedOutputStream::vec(&mut bytes);
        write(&mut os).unwrap();
        os.flush().unwrap();
    }
    bytes
}

fn feature_written(feature: &Feature) -> Vec<u8> {
    written(|os| {
        os.write_uint64(1, feature.id)?;
        os.write_repeated_packed_uint32(2, &feature.tags)?;
        os.write_enum(3, feature.type_.value() as i32)?;
        os.write_repeated_packed_uint32(4, &feature.geometry)
    })
}

fn value_written(value: &PropertyValue) -> Vec<u8> {
    written(|os| match value {
        PropertyValue::String(s) => os.write_string(1, s),
        PropertyValue::I64(n) => os.write_int64(4, *n),
    })
}

fn layer_written(layer: &Layer) -> Vec<u8> {
    written(|os| {
        os.write_uint32(15, layer.version)?;
        os.write_string(1, &layer.name)?;
        for feature in &layer.features {
            os.write_bytes(2, &feature_written(feature))?;
        }
        for key in &layer.keys {
            os.write_string(3, key)?;
        }
        for value in &layer.values {
            os.write_bytes(4, &value_written(value))?;
        }
        os.write_uint32(5, layer.extent)
    })
}

fn tile_written(tile: &Tile) -> Vec<u8> {
    written(|os| {
        for layer in &tile.layers {
            os.write_bytes(3, &layer_written(layer))?;
        }
        Ok(())
    })
}

const NUMBERS: [u64; 16] = [
    0,
    1,
    127,
    128,
    129,
    255,
    300,
    16383,
    16384,
    0x1F_FFFF,
    0x20_0000,
    0xFFFF_FFFF,
    0x1_0000_0000,
    0x7FFF_FFFF_FFFF_FFFF,
    0x8000_0000_0000_0000,
    u64::MAX,
];

#[test]
fn test_write_varint() {
    let mut bytes = vec![0xAB];
    write_varint(&mut bytes, 0);
    assert_eq!(bytes, vec![0xAB, 0x00]);
    write_varint(&mut bytes, 127);
    assert_eq!(bytes, vec![0xAB, 0x00, 0x7F]);
    write_varint(&mut bytes, 128);
    assert_eq!(bytes, vec![0xAB, 0x00, 0x7F, 0x80, 0x01]);
    let mut bytes = Vec::new();
    write_varint(&mut bytes, 300);
    assert_eq!(bytes, vec![0xAC, 0x02]);
    let mut bytes = Vec::new();
    write_varint(&mut bytes, u64::MAX);
    assert_eq!(bytes, vec![0xFF, 0xFF, 0xFF, 0xFF, 0xFF, 0xFF, 0xFF, 0xFF, 0xFF, 0x01]);
}

#[test]
fn test_write_varint_as_protobuf_does() {
    for n in NUMBERS {
        let mut bytes = Vec::new();
        write_varint(&mut bytes, n);
        assert_eq!(bytes, written(|os| os.write_raw_varint64(n)));
        let mut is = CodedInputStream::from_bytes(&bytes);
        assert_eq!(is.read_raw_varint64().unwrap(), n);
        assert!(is.eof().unwrap());
    }
}

#[test]
fn test_write_key_as_protobuf_does() {
    for field in [1u32, 2, 3, 4, 5, 15, 16, 2047, 2048, 0x1FFF_FFFF] {
        let mut bytes = Vec::new();
        write_key(&mut bytes, field, 0);
        assert_eq!(bytes, written(|os| os.write_tag(field, WireType::Varint)));
        let mut bytes = Vec::new();
        write_key(&mut bytes, field, 2);
        assert_eq!(bytes, written(|os| os.write_tag(field, WireType::LengthDelimited)));
    }
    let mut bytes = Vec::new();
    write_key(&mut bytes, 15, 0);
    assert_eq!(bytes, vec![0x78]);
    let mut bytes = Vec::new();
    write_key(&mut bytes, 3, 2);
    assert_eq!(bytes, vec![0x1A]);
}

#[test]
fn test_write_fields_as_protobuf_does() {
    for n in NUMBERS {
        let mut bytes = Vec::new();
        write_varint_field(&mut bytes, 1, n);
        assert_eq!(bytes, written(|os| os.write_uint64(1, n)));
    }
    for s in ["", "a", "business_records", "犬のお仕事 🐕", "\u{7f}\u{80}\u{7ff}\u{800}\u{ffff}\u{10000}"] {
        let mut bytes = Vec::new();
        write_string_field(&mut bytes, 3, s);
        assert_eq!(bytes, written(|os| os.write_string(3, s)));
    }
    let long = "x".repeat(200);
    let mut bytes = Vec::new();
    write_string_field(&mut bytes, 1, &long);
    assert_eq!(bytes, written(|os| os.write_string(1, &long)));
    assert_eq!(&bytes[..3], &[0x0A, 0xC8, 0x01]);
    let mut bytes = vec![1, 2];
    write_bytes_field(&mut bytes, 4, vec![9, 8, 7]);
    assert_eq!(bytes, vec![1, 2, 0x22, 3, 9, 8, 7]);
    for numbers in [vec![], vec![0u32], vec![9, 7276, 3224], vec![u32::MAX, 0, 128, 127]] {
        let mut bytes = Vec::new();
        write_packed_field(&mut bytes, 4, &numbers);
        assert_eq!(bytes, written(|os| os.write_repeated_packed_uint32(4, &numbers)));
    }
    // a field without numbers is left out
    let mut bytes = Vec::new();
    write_packed_field(&mut bytes, 2, &Vec::new());
    assert!(bytes.is_empty());
    let mut bytes = Vec::new();
    write_packed_field(&mut bytes, 4, &vec![9, 7276, 3224]);
    assert_eq!(bytes, vec![0x22, 5, 9, 0xEC, 0x38, 0x98, 0x19]);
}

#[test]
fn test_write_value_as_protobuf_does() {
    for n in [0i64, 1, -1, 1_755_317_141, i64::MAX, i64::MIN, -1_755_317_141] {
        let value = PropertyValue::I64(n);
        let mut bytes = Vec::new();
        write_value(&mut bytes, &value);
        assert_eq!(bytes, value_written(&value));
        let mut is = CodedInputStream::from_bytes(&bytes);
        assert_eq!(is.read_raw_tag_or_eof().unwrap(), Some(4 << 3));
        assert_eq!(is.read_int64().unwrap(), n);
        assert!(is.eof().unwrap());
    }
    let value = PropertyValue::I64(-1);
    let mut bytes = Vec::new();
    write_value(&mut bytes, &value);
    assert_eq!(bytes, vec![0x20, 0xFF, 0xFF, 0xFF, 0xFF, 0xFF, 0xFF, 0xFF, 0xFF, 0xFF, 0x01]);
    let value = PropertyValue::String("pee".to_string());
    let mut bytes = Vec::new();
    write_value(&mut bytes, &value);
    assert_eq!(bytes, value_written(&value));
    assert_eq!(bytes, vec![0x0A, 3, b'p', b'e', b'e']);
}

#[test]
fn test_write_feature_as_protobuf_does() {
    let feature = Feature {
        id: 0,
        tags: vec![0, 8, 1, 4, 2, 3, 3, 5],
        type_: GeomType::POINT,
        geometry: vec![9, 7276, 3224],
    };
    let mut bytes = Vec::new();
    feature.write_to(&mut bytes);
    assert_eq!(bytes, feature_written(&feature));
    assert_eq!(
        bytes,
        vec![
            0x08, 0, // id
            0x12, 8, 0, 8, 1, 4, 2, 3, 3, 5, // tags
            0x18, 1, // type
            0x22, 5, 9, 0xEC, 0x38, 0x98, 0x19, // geometry
        ],
    );
    let feature = Feature {
        id: 0xFFFFFFFFFFFFFFF6,
        tags: vec![],
        type_: GeomType::POLYGON,
        geometry: vec![],
    };
    let mut bytes = Vec::new();
    feature.write_to(&mut bytes);
    assert_eq!(bytes, feature_written(&feature));
    assert_eq!(GeomType::UNKNOWN.value(), 0);
    assert_eq!(GeomType::POINT.value(), 1);
    assert_eq!(GeomType::LINESTRING.value(), 2);
    assert_eq!(GeomType::POLYGON.value(), 3);
}

#[test]
fn test_write_empty_tile() {
    let buffer = BusinessRecordBuffer::new(TileCoordinates { zoom: 16, x: 58138, y: 25860 });
    let tile = buffer.into_tile();
    let bytes = tile.write_to_bytes();
    assert_eq!(bytes, tile_written(&tile));
    let mut expected = vec![0x1A, 23, 0x78, 2, 0x0A, 16];
    expected.extend_from_slice(b"business_records");
    expected.extend_from_slice(&[0x28, 0x80, 0x20]);
    assert_eq!(bytes, expected);
    // a tile without layers is no bytes
    assert!(Tile { layers: Vec::new() }.write_to_bytes().is_empty());
}

#[test]
fn test_write_tile_as_protobuf_does() {
    let mut buffer = BusinessRecordBuffer::new(TileCoordinates { zoom: 10, x: 909, y: 403 });
    for (record_id, dog_id, business_type, location, timestamp) in [
        ("tokyo_station", Some("dog_1"), BusinessType::Pee, (0x3_8DA1_7C55i64, 0x1_9312_0F0Ai64), 1_755_317_141i64),
        ("shinjuku_station", None, BusinessType::Pee, (0x3_8D00_0000, 0x1_9300_0000), -1),
        ("鎌田", Some("犬"), BusinessType::Poo, (0x3_8DFF_FFFF, 0x1_93FF_FFFF), 1_755_317_141),
    ] {
        let builder = BusinessRecordBuilder::default()
            .record_id(record_id)
            .business_type(business_type)
            .location(LonLat(location.0, location.1))
            .timestamp(timestamp);
        let builder = match dog_id {
            Some(dog_id) => builder.dog_id(dog_id),
            None => builder,
        };
        assert!(buffer.append_business_record(builder.build().unwrap()).is_ok());
    }
    let tile = buffer.into_tile();
    let bytes = tile.write_to_bytes();
    assert_eq!(bytes, tile_written(&tile));

    // reads the tile back, field by field
    let mut is = CodedInputStream::from_bytes(&bytes);
    assert_eq!(is.read_raw_tag_or_eof().unwrap(), Some((3 << 3) | 2));
    let layer_bytes = is.read_bytes().unwrap();
    assert!(is.eof().unwrap());
    let mut is = CodedInputStream::from_bytes(&layer_bytes);
    assert_eq!(is.read_raw_tag_or_eof().unwrap(), Some(15 << 3));
    assert_eq!(is.read_uint32().unwrap(), 2);
    assert_eq!(is.read_raw_tag_or_eof().unwrap(), Some((1 << 3) | 2));
    assert_eq!(is.read_string().unwrap(), "business_records");
    let layer = &tile.layers[0];
    for (i, feature) in layer.features.iter().enumerate() {
        assert_eq!(is.read_raw_tag_or_eof().unwrap(), Some((2 << 3) | 2));
        let feature_bytes = is.read_bytes().unwrap();
        let mut is = CodedInputStream::from_bytes(&feature_bytes);
        assert_eq!(is.read_raw_tag_or_eof().unwrap(), Some(1 << 3));
        assert_eq!(is.read_uint64().unwrap(), ((i as u64) << 25) | (909 << 15) | (403 << 5) | 10);
        assert_eq!(is.read_raw_tag_or_eof().unwrap(), Some((2 << 3) | 2));
        let mut tags = Vec::new();
        is.read_repeated_packed_uint32_into(&mut tags).unwrap();
        assert_eq!(tags, feature.tags);
        assert_eq!(tags.len(), if i == 1 { 6 } else { 8 });
        assert_eq!(is.read_raw_tag_or_eof().unwrap(), Some(3 << 3));
        assert_eq!(is.read_int32().unwrap(), 1);
        assert_eq!(is.read_raw_tag_or_eof().unwrap(), Some((4 << 3) | 2));
        let mut geometry = Vec::new();
        is.read_repeated_packed_uint32_into(&mut geometry).unwrap();
        assert_eq!(geometry, feature.geometry);
        assert_eq!(geometry[0], 9);
        assert!(is.eof().unwrap());
    }
    for key in ["recordId", "dogId", "businessType", "timestamp"] {
        assert_eq!(is.read_raw_tag_or_eof().unwrap(), Some((3 << 3) | 2));
        assert_eq!(is.read_string().unwrap(), key);
    }
    let mut strings = Vec::new();
    let mut integers = Vec::new();
    for _ in 0..layer.values.len() {
        assert_eq!(is.read_raw_tag_or_eof().unwrap(), Some((4 << 3) | 2));
        let value_bytes = is.read_bytes().unwrap();
        let mut is = CodedInputStream::from_bytes(&value_bytes);
        match is.read_raw_tag_or_eof().unwrap() {
            Some(0x0A) => strings.push(is.read_string().unwrap()),
            Some(0x20) => integers.push(is.read_int64().unwrap()),
            other => panic!("a value with the tag {other:?}"),
        }
        assert!(is.eof().unwrap());
    }
    assert_eq!(integers, vec![1_755_317_141, -1]);
    assert_eq!(
        strings,
        vec!["pee", "dog_1", "犬", "poo", "tokyo_station", "shinjuku_station", "鎌田"],
    );
    assert_eq!(is.read_raw_tag_or_eof().unwrap(), Some(5 << 3));
    assert_eq!(is.read_uint32().unwrap(), 4096);
    assert!(is.eof().unwrap());
}
