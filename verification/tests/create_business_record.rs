use map_api::create_business_record::{
    dog_tile_key,
    masked_dog_id,
    public_tile_key,
    public_timestamp,
    tile_attribute_name,
    tile_key,
    tile_keys,
};
use map_api::mvt::TileCoordinates;
use map_api::LonLat;

#[test]
fn test_tile_key() {
    assert_eq!(tile_key(&TileCoordinates { zoom: 0, x: 0, y: 0 }), "0/0");
    assert_eq!(tile_key(&TileCoordinates { zoom: 10, x: 909, y: 403 }), "909/403");
    assert_eq!(
        tile_key(&TileCoordinates { zoom: 22, x: 0x3FFFFF, y: 0x3FFFFF }),
        "4194303/4194303",
    );
}

#[test]
fn test_tile_keys() {
    // in Tokyo
    let location = LonLat(0x3_8DA1_7C55i64, 0x1_9312_0F0Ai64);
    let keys = tile_keys(&location).unwrap();
    assert_eq!(keys.len(), 23);
    assert_eq!(keys[0], "0/0");
    assert_eq!(keys[1], "1/0");
    assert_eq!(keys[2], "3/1");
    assert_eq!(keys[10], "909/403");
    assert_eq!(keys[16], "58216/25796");
    assert_eq!(keys[22], format!("{}/{}", 0x38DA17, 0x193120));
    for (z, key) in keys.iter().enumerate() {
        let tile = TileCoordinates::containing(&location, z as u32).unwrap();
        assert_eq!(*key, format!("{}/{}", tile.x, tile.y));
    }
}

#[test]
fn test_tile_keys_outside_the_world() {
    assert_eq!(tile_keys(&LonLat(-1, 0)), None);
    assert_eq!(tile_keys(&LonLat(0, 0x4_0000_0000)), None);
    assert_eq!(tile_keys(&LonLat(0, 0)).unwrap()[22], "0/0");
    assert_eq!(
        tile_keys(&LonLat(0x3_FFFF_FFFF, 0x3_FFFF_FFFF)).unwrap()[22],
        "4194303/4194303",
    );
}

#[test]
fn test_index_keys() {
    assert_eq!(tile_attribute_name(0), "tileAtZ0");
    assert_eq!(tile_attribute_name(22), "tileAtZ22");
    assert_eq!(dog_tile_key("abc", "909/403"), "dog#abc#909/403");
    assert_eq!(public_tile_key("909/403"), "public#909/403");
}

#[test]
fn test_masked_dog_id() {
    assert_eq!(masked_dog_id("0123456789abcdefghijkl"), Some("bcdefghijkl"));
    assert_eq!(masked_dog_id("abcde"), Some("cde"));
    assert_eq!(masked_dog_id("a"), Some("a"));
    assert_eq!(masked_dog_id(""), Some(""));
    assert_eq!(masked_dog_id("犬猫"), Some("猫"));
    // the half would begin within a character
    assert_eq!(masked_dog_id("犬"), None);
    assert_eq!(masked_dog_id("éa"), None);
    assert_eq!(masked_dog_id("aé"), Some("é"));
    for dog_id in ["0123456789abcdefghijkl", "abcde", "犬猫", "x"] {
        assert_eq!(masked_dog_id(dog_id), Some(dog_id.split_at(dog_id.len() / 2).1));
    }
}

#[test]
fn test_public_timestamp() {
    assert_eq!(public_timestamp(0), 0);
    assert_eq!(public_timestamp(3599), 0);
    assert_eq!(public_timestamp(3600), 1);
    assert_eq!(public_timestamp(1_755_317_141), 487_588);
    assert_eq!(public_timestamp(u64::MAX), u64::MAX / 3600);
}
