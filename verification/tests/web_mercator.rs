use map_api::web_mercator::{
    cell_at_zoom,
    power_of_two,
    tile_edge_at_zoom,
    tiles_per_edge_at_zoom,
    GRID_BITS,
    GRID_EXTENT,
    MAX_ZOOM,
    TILE_EXTENT,
    TILE_EXTENT_BITS,
};

#[test]
fn test_tiles_per_edge_at_zoom() {
    // should exactly match because they are integers
    assert_eq!(tiles_per_edge_at_zoom(0) as f64, 1.0);
    assert_eq!(tiles_per_edge_at_zoom(1) as f64, 2.0);
    assert_eq!(tiles_per_edge_at_zoom(2) as f64, 4.0);
    assert_eq!(tiles_per_edge_at_zoom(3) as f64, 8.0);
    assert_eq!(tiles_per_edge_at_zoom(4) as f64, 16.0);
    assert_eq!(tiles_per_edge_at_zoom(5) as f64, 32.0);
    assert_eq!(tiles_per_edge_at_zoom(6) as f64, 64.0);
    assert_eq!(tiles_per_edge_at_zoom(7) as f64, 128.0);
    assert_eq!(tiles_per_edge_at_zoom(8) as f64, 256.0);
    assert_eq!(tiles_per_edge_at_zoom(9) as f64, 512.0);
    assert_eq!(tiles_per_edge_at_zoom(10) as f64, 1024.0);
    assert_eq!(tiles_per_edge_at_zoom(11) as f64, 2048.0);
    assert_eq!(tiles_per_edge_at_zoom(12) as f64, 4096.0);
    assert_eq!(tiles_per_edge_at_zoom(13) as f64, 8192.0);
    assert_eq!(tiles_per_edge_at_zoom(14) as f64, 16384.0);
    assert_eq!(tiles_per_edge_at_zoom(15) as f64, 32768.0);
    assert_eq!(tiles_per_edge_at_zoom(16) as f64, 65536.0);
    assert_eq!(tiles_per_edge_at_zoom(17) as f64, 131072.0);
    assert_eq!(tiles_per_edge_at_zoom(18) as f64, 262144.0);
    assert_eq!(tiles_per_edge_at_zoom(19) as f64, 524288.0);
    assert_eq!(tiles_per_edge_at_zoom(20) as f64, 1048576.0);
    assert_eq!(tiles_per_edge_at_zoom(21) as f64, 2097152.0);
    assert_eq!(tiles_per_edge_at_zoom(22) as f64, 4194304.0);
}

#[test]
fn test_tiles_per_edge_at_zoom_is_power_of_two() {
    let mut expected: u64 = 1;
    for z in 0..=MAX_ZOOM {
        assert_eq!(tiles_per_edge_at_zoom(z), expected);
        expected *= 2;
    }
}

#[test]
fn test_power_of_two() {
    assert_eq!(power_of_two(0), 1);
    assert_eq!(power_of_two(1), 2);
    assert_eq!(power_of_two(31), 0x8000_0000);
    assert_eq!(power_of_two(32), 0x1_0000_0000);
    assert_eq!(power_of_two(51), 0x8_0000_0000_0000);
    // still exact as a double-precision number
    assert_eq!(power_of_two(51) as f64 as u64, 0x8_0000_0000_0000);
}

#[test]
fn test_grid_constants() {
    assert_eq!(TILE_EXTENT, 1 << TILE_EXTENT_BITS);
    assert_eq!(GRID_BITS, MAX_ZOOM + TILE_EXTENT_BITS);
    assert_eq!(GRID_EXTENT, 1 << GRID_BITS);
}

#[test]
fn test_cell_at_zoom() {
    // at the maximum zoom level the cells are those of the world grid
    assert_eq!(cell_at_zoom(0, 22), 0);
    assert_eq!(cell_at_zoom(12345, 22), 12345);
    assert_eq!(cell_at_zoom(-12345, 22), -12345);
    // at zoom level 0 a cell is 2^22 cells of the world grid wide
    assert_eq!(cell_at_zoom(0, 0), 0);
    assert_eq!(cell_at_zoom(0x3F_FFFF, 0), 0);
    assert_eq!(cell_at_zoom(0x40_0000, 0), 1);
    assert_eq!(cell_at_zoom(GRID_EXTENT - 1, 0), 4095);
    assert_eq!(cell_at_zoom(GRID_EXTENT, 0), 4096);
    // rounds towards negative infinity
    assert_eq!(cell_at_zoom(-1, 0), -1);
    assert_eq!(cell_at_zoom(-0x40_0000, 0), -1);
    assert_eq!(cell_at_zoom(-0x40_0001, 0), -2);
    assert_eq!(cell_at_zoom(-1, 21), -1);
    assert_eq!(cell_at_zoom(-2, 21), -1);
    assert_eq!(cell_at_zoom(-3, 21), -2);
    assert_eq!(cell_at_zoom(3, 21), 1);
    assert_eq!(cell_at_zoom(i64::MAX, 0), i64::MAX >> 22);
    assert_eq!(cell_at_zoom(i64::MIN, 0), i64::MIN >> 22);
    assert_eq!(cell_at_zoom(i64::MIN, 22), i64::MIN);
}

#[test]
fn test_tile_edge_at_zoom() {
    assert_eq!(tile_edge_at_zoom(0, 0), 0);
    assert_eq!(tile_edge_at_zoom(1, 0), GRID_EXTENT);
    assert_eq!(tile_edge_at_zoom(1, 1), GRID_EXTENT / 2);
    assert_eq!(tile_edge_at_zoom(2, 1), GRID_EXTENT);
    assert_eq!(tile_edge_at_zoom(909, 10), 909 << 24);
    assert_eq!(tile_edge_at_zoom(0x3FFFFF, 22), 0x3FFFFF << 12);
    assert_eq!(tile_edge_at_zoom(0x400000, 22), GRID_EXTENT);
}
