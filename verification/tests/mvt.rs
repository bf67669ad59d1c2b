use map_api::mvt::{zigzag, MvtError, TileCoordinates};
use map_api::LonLat;

#[test]
fn test_zoom_out() {
    // z = 1 → 0
    let coords = TileCoordinates { zoom: 1, x: 1, y: 1 };
    let new_coords = coords.zoom_out_to(0).unwrap();
    assert_eq!(new_coords.zoom, 0);
    assert_eq!(new_coords.x, 0);
    assert_eq!(new_coords.y, 0);

    // z = 12 → 10
    let coords = TileCoordinates { zoom: 12, x: 1234, y: 3333 };
    let new_coords = coords.zoom_out_to(10).unwrap();
    assert_eq!(new_coords.zoom, 10);
    assert_eq!(new_coords.x, 308);
    assert_eq!(new_coords.y, 833);

    // z = 16 → 16
    let coords = TileCoordinates { zoom: 16, x: 58138, y: 25860 };
    let new_coords = coords.zoom_out_to(16).unwrap();
    assert_eq!(new_coords.zoom, 16);
    assert_eq!(new_coords.x, 58138);
    assert_eq!(new_coords.y, 25860);

    // z = 0 → 1
    let coords = TileCoordinates { zoom: 0, x: 0, y: 0 };
    assert!(coords.zoom_out_to(1).is_none());
}

#[test]
fn test_zigzag() {
    assert_eq!(zigzag(0), 0);
    assert_eq!(zigzag(1), 2);
    assert_eq!(zigzag(2), 4);
    assert_eq!(zigzag(4095), 8190);
    assert_eq!(zigzag(0xFFFFFFFE), 0xFFFFFFFD);
    assert_eq!(zigzag(0xFFFFFFFF), 0xFFFFFFFF);
}

#[test]
fn test_zoom_out_beyond_the_bits_of_a_coordinate() {
    let coords = TileCoordinates { zoom: 40, x: u32::MAX, y: 1 };
    let new_coords = coords.zoom_out_to(7).unwrap();
    assert_eq!(new_coords, TileCoordinates { zoom: 7, x: 0, y: 0 });
    let new_coords = coords.zoom_out_to(9).unwrap();
    assert_eq!(new_coords, TileCoordinates { zoom: 9, x: 1, y: 0 });
}

#[test]
fn test_tile_coordinates_is_valid() {
    assert!(TileCoordinates { zoom: 0, x: 0, y: 0 }.is_valid());
    assert!(!TileCoordinates { zoom: 0, x: 1, y: 0 }.is_valid());
    assert!(!TileCoordinates { zoom: 0, x: 0, y: 1 }.is_valid());
    assert!(TileCoordinates { zoom: 22, x: 0x3FFFFF, y: 0x3FFFFF }.is_valid());
    assert!(!TileCoordinates { zoom: 22, x: 0x400000, y: 0 }.is_valid());
    assert!(!TileCoordinates { zoom: 23, x: 0, y: 0 }.is_valid());
    assert!(!TileCoordinates { zoom: u32::MAX, x: 0, y: 0 }.is_valid());
}

#[test]
fn test_tile_coordinates_containing() {
    // the corners of the world
    let north_west = LonLat(0i64, 0i64);
    let south_east = LonLat(0x3_FFFF_FFFFi64, 0x3_FFFF_FFFFi64);
    assert_eq!(
        TileCoordinates::containing(&north_west, 0),
        Some(TileCoordinates { zoom: 0, x: 0, y: 0 }),
    );
    assert_eq!(
        TileCoordinates::containing(&south_east, 0),
        Some(TileCoordinates { zoom: 0, x: 0, y: 0 }),
    );
    assert_eq!(
        TileCoordinates::containing(&north_west, 22),
        Some(TileCoordinates { zoom: 22, x: 0, y: 0 }),
    );
    assert_eq!(
        TileCoordinates::containing(&south_east, 22),
        Some(TileCoordinates { zoom: 22, x: 0x3FFFFF, y: 0x3FFFFF }),
    );
    // the first cell of a tile and the last cell of the tile before it
    assert_eq!(
        TileCoordinates::containing(&LonLat(0x2_0000_0000, 0x1_FFFF_FFFF), 1),
        Some(TileCoordinates { zoom: 1, x: 1, y: 0 }),
    );
    assert_eq!(
        TileCoordinates::containing(&LonLat(4096 * 5, 4096 * 5 - 1), 22),
        Some(TileCoordinates { zoom: 22, x: 5, y: 4 }),
    );
    // outside the world
    assert_eq!(TileCoordinates::containing(&LonLat(-1, 0), 3), None);
    assert_eq!(TileCoordinates::containing(&LonLat(0, -1), 3), None);
    assert_eq!(TileCoordinates::containing(&LonLat(0x4_0000_0000, 0), 3), None);
    assert_eq!(TileCoordinates::containing(&LonLat(0, 0x4_0000_0000), 3), None);
    assert_eq!(TileCoordinates::containing(&LonLat(i64::MIN, i64::MAX), 3), None);
}

#[test]
fn test_containing_tile_zooms_out_to_containing_tile() {
    let location = LonLat(0x3_8DA1_7C55i64, 0x1_9312_0F0Ai64);
    let finest = TileCoordinates::containing(&location, 22).unwrap();
    for zoom in 0..=22 {
        assert_eq!(
            finest.zoom_out_to(zoom),
            TileCoordinates::containing(&location, zoom),
        );
    }
}

#[test]
fn test_mvt_error_to_string() {
    assert_eq!(
        MvtError::OutsideOfTile.to_string(),
        "business record is outside of the tile",
    );
    assert_eq!(
        MvtError::DuplicateRecordId("abc".to_string()).to_string(),
        "duplicate business record ID: abc",
    );
}
