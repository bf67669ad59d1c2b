use map_api::mvt::dictionary::{index_integers, index_strings, rank_by_frequency};
use map_api::mvt::feature_id::{index_limit, pack_feature_id, ZOOM_BITS};
use map_api::mvt::TileCoordinates;
use map_api::protos::PropertyValue;
use std::collections::HashSet;

#[test]
fn test_pack_feature_id() {
    let world = TileCoordinates { zoom: 0, x: 0, y: 0 };
    assert_eq!(pack_feature_id(0, &world), 0);
    assert_eq!(pack_feature_id(1, &world), 0x20);
    assert_eq!(pack_feature_id(2, &world), 0x40);
    assert_eq!(pack_feature_id(3, &world), 0x60);
    assert_eq!(pack_feature_id((1 << 59) - 1, &world), 0xFFFF_FFFF_FFFF_FFE0);
    let tile = TileCoordinates { zoom: 10, x: 909, y: 403 };
    assert_eq!(pack_feature_id(0, &tile), (909 << 15) | (403 << 5) | 10);
    assert_eq!(pack_feature_id(2, &tile), (2 << 25) | (909 << 15) | (403 << 5) | 10);
    let deepest = TileCoordinates { zoom: 22, x: 0x3FFFFF, y: 0x3FFFFF };
    assert_eq!(pack_feature_id(0x7FFF, &deepest), 0xFFFFFFFFFFFFFFF6);
    // x stands above y
    assert_eq!(pack_feature_id(0, &TileCoordinates { zoom: 3, x: 1, y: 0 }), (1 << 8) | 3);
    assert_eq!(pack_feature_id(0, &TileCoordinates { zoom: 3, x: 0, y: 1 }), (1 << 5) | 3);
    assert_eq!(pack_feature_id(1, &TileCoordinates { zoom: 3, x: 0, y: 0 }), (1 << 11) | 3);
}

#[test]
fn test_index_limit() {
    assert_eq!(ZOOM_BITS, 5);
    assert_eq!(index_limit(0), 1 << 59);
    assert_eq!(index_limit(1), 1 << 57);
    assert_eq!(index_limit(10), 1 << 39);
    assert_eq!(index_limit(21), 1 << 17);
    // 0x7FFF is the last index at zoom level 22, 0x8000 is out of range
    assert_eq!(index_limit(22), 0x8000);
}

#[test]
fn test_feature_ids_are_unique() {
    let mut ids = HashSet::new();
    let mut count = 0;
    for zoom in 0..=4u32 {
        for x in 0..(1u32 << zoom) {
            for y in 0..(1u32 << zoom) {
                for index in [0, 1, 2, 1000, index_limit(zoom) - 1] {
                    ids.insert(pack_feature_id(index, &TileCoordinates { zoom, x, y }));
                    count += 1;
                }
            }
        }
    }
    for zoom in [21u32, 22] {
        let last = (1u32 << zoom) - 1;
        for (x, y) in [(0, 0), (0, last), (last, 0), (last, last), (1, 2), (2, 1)] {
            for index in [0, 1, index_limit(zoom) - 1] {
                ids.insert(pack_feature_id(index, &TileCoordinates { zoom, x, y }));
                count += 1;
            }
        }
    }
    assert_eq!(ids.len(), count);
}

#[test]
fn test_feature_id_fields_can_be_read_back() {
    for (index, zoom, x, y) in [(0u64, 0u32, 0u32, 0u32), (7, 3, 5, 2), (0x7FFF, 22, 0x3FFFFF, 0), (12345, 16, 58138, 25860)] {
        let id = pack_feature_id(index, &TileCoordinates { zoom, x, y });
        let mask = (1u64 << zoom) - 1;
        assert_eq!(id & 31, zoom as u64);
        assert_eq!((id >> 5) & mask, y as u64);
        assert_eq!((id >> (5 + zoom)) & mask, x as u64);
        assert_eq!(id >> (5 + 2 * zoom), index);
    }
}

#[test]
fn test_rank_by_frequency() {
    assert_eq!(rank_by_frequency(&vec![]), Vec::<usize>::new());
    assert_eq!(rank_by_frequency(&vec![5]), vec![0]);
    assert_eq!(rank_by_frequency(&vec![1, 2, 3]), vec![2, 1, 0]);
    assert_eq!(rank_by_frequency(&vec![3, 2, 1]), vec![0, 1, 2]);
    // equal frequencies keep their order
    assert_eq!(rank_by_frequency(&vec![1, 1, 1]), vec![0, 1, 2]);
    assert_eq!(rank_by_frequency(&vec![1, 3, 1, 2, 3, 2, u64::MAX, 0]), vec![6, 1, 4, 3, 5, 0, 2, 7]);
}

#[test]
fn test_rank_by_frequency_as_sort_by_key_does() {
    let counts: Vec<u64> = (0..200u64).map(|i| (i * 7919 + 13) % 17).collect();
    let mut expected: Vec<usize> = (0..counts.len()).collect();
    expected.sort_by_key(|&i| std::cmp::Reverse(counts[i]));
    assert_eq!(rank_by_frequency(&counts), expected);
}

#[test]
fn test_index_values() {
    let values = vec![
        PropertyValue::I64(7),
        PropertyValue::String("pee".to_string()),
        PropertyValue::String("7".to_string()),
        PropertyValue::I64(-1),
        PropertyValue::String("pee".to_string()),
        PropertyValue::I64(7),
    ];
    let strings = index_strings(&values);
    assert_eq!(strings.len(), 2);
    // the last place counts
    assert_eq!(strings.get("pee"), Some(&4));
    assert_eq!(strings.get("7"), Some(&2));
    assert_eq!(strings.get("poo"), None);
    let integers = index_integers(&values);
    assert_eq!(integers.len(), 2);
    assert_eq!(integers.get(&7), Some(&5));
    assert_eq!(integers.get(&-1), Some(&3));
    assert_eq!(integers.get(&0), None);
    assert_eq!(index_strings(&Vec::new()).len(), 0);
    assert_eq!(index_integers(&Vec::new()).len(), 0);
}
