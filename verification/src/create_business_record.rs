//! Writing down a business record.
//!
//! A record is kept twice: in private with the dog who carried out the
//! business, and in public with half of the ID of the dog and the hour of
//! the business only. Both are indexed by the tile that the location of the
//! business falls on at each zoom level.

use vstd::prelude::*;
use vstd::string::StringExecFns;
use vstd::string::StringSliceAdditionalSpecFns;
use vstd::utf8::is_char_boundary;

use crate::mvt::TileCoordinates;
use crate::text::{decimal, to_decimal};
use crate::web_mercator::{in_world, MAX_ZOOM};
use crate::LonLat;

verus! {

/// Number of seconds of an hour.
pub const SECONDS_PER_HOUR: u64 = 3600;

/// The coordinates of a tile as a key of an index: the column, a slash, and
/// the row.
pub open spec fn tile_key_of(tile: TileCoordinates) -> Seq<char> {
    decimal(tile.x as nat) + "/"@ + decimal(tile.y as nat)
}

/// Returns the coordinates of a tile as a key of an index.
pub fn tile_key(tile: &TileCoordinates) -> (key: String)
    ensures
        key@ == tile_key_of(*tile),
{
    let mut key = to_decimal(tile.x as u64);
    key.append("/");
    key.append(to_decimal(tile.y as u64).as_str());
    key
}

/// Calculates the keys of the tiles that a location falls on, one for each
/// zoom level from 0 to [`MAX_ZOOM`].
///
/// Returns `None` if the location is outside the world.
pub fn tile_keys(location: &LonLat<i64>) -> (keys: Option<Vec<String>>)
    ensures
        match keys {
            Some(keys) => {
                &&& in_world(*location)
                &&& keys.len() == MAX_ZOOM + 1
                &&& forall|z: int|
                    0 <= z <= MAX_ZOOM ==> (#[trigger] keys[z])@ == tile_key_of(
                        TileCoordinates::at(*location, z as u32),
                    )
            },
            None => !in_world(*location),
        },
{
    let mut keys: Vec<String> = Vec::new();
    let mut z: u32 = 0;
    while z <= MAX_ZOOM
        invariant
            z <= MAX_ZOOM + 1,
            keys.len() == z,
            z > 0 ==> in_world(*location),
            forall|level: int|
                0 <= level < z ==> (#[trigger] keys[level])@ == tile_key_of(
                    TileCoordinates::at(*location, level as u32),
                ),
        decreases MAX_ZOOM + 1 - z,
    {
        match TileCoordinates::containing(location, z) {
            Some(tile) => {
                keys.push(tile_key(&tile));
            },
            None => {
                return None;
            },
        }
        z = z + 1;
    }
    Some(keys)
}

/// The name of the attribute that holds the key of the tile at a zoom
/// level.
pub open spec fn tile_attribute_name_of(z: u32) -> Seq<char> {
    "tileAtZ"@ + decimal(z as nat)
}

/// Returns the name of the attribute that holds the key of the tile at a
/// zoom level.
pub fn tile_attribute_name(z: u32) -> (name: String)
    ensures
        name@ == tile_attribute_name_of(z),
{
    "tileAtZ".to_string().concat(to_decimal(z as u64).as_str())
}

/// The key of a tile in the index of the records of a dog.
pub open spec fn dog_tile_key_of(dog_id: Seq<char>, tile_key: Seq<char>) -> Seq<char> {
    "dog#"@ + dog_id + "#"@ + tile_key
}

/// Returns the key of a tile in the index of the records of a dog.
pub fn dog_tile_key(dog_id: &str, tile_key: &str) -> (key: String)
    ensures
        key@ == dog_tile_key_of(dog_id@, tile_key@),
{
    "dog#".to_string().concat(dog_id).concat("#").concat(tile_key)
}

/// The key of a tile in the index of the public records.
pub open spec fn public_tile_key_of(tile_key: Seq<char>) -> Seq<char> {
    "public#"@ + tile_key
}

/// Returns the key of a tile in the index of the public records.
pub fn public_tile_key(tile_key: &str) -> (key: String)
    ensures
        key@ == public_tile_key_of(tile_key@),
{
    "public#".to_string().concat(tile_key)
}

/// The place at which the latter half of the bytes of a text begins.
pub open spec fn middle_of(text: &str) -> int {
    (text.len() / 2) as int
}

/// Masks the ID of a dog: leaves the latter half of its bytes.
///
/// Returns `None` if the half does not begin with a character, which cannot
/// happen where the ID is made of letters and digits of ASCII.
pub fn masked_dog_id(dog_id: &str) -> (masked: Option<&str>)
    ensures
        match masked {
            Some(masked) => {
                &&& is_char_boundary(dog_id.spec_bytes(), middle_of(dog_id))
                &&& masked.spec_bytes() == dog_id.spec_bytes().skip(middle_of(dog_id))
            },
            None => !is_char_boundary(dog_id.spec_bytes(), middle_of(dog_id)),
        },
{
    let middle: usize = dog_id.len() / 2;
    if dog_id.is_char_boundary(middle) {
        let (_, masked) = dog_id.split_at(middle);
        proof {
            let bytes = dog_id.spec_bytes();
            assert(bytes.subrange(middle as int, bytes.len() as int) =~= bytes.skip(middle as int));
        }
        Some(masked)
    } else {
        None
    }
}

/// Returns the timestamp of a public record: the hours since the epoch that
/// the seconds of a timestamp come to.
pub fn public_timestamp(timestamp: u64) -> (hours: u64)
    ensures
        hours == timestamp / SECONDS_PER_HOUR,
{
    timestamp / SECONDS_PER_HOUR
}

} // verus!
