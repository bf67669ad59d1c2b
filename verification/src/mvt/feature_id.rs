//! Feature IDs.
//!
//! A feature ID packs the tile of a feature and the place of the feature in
//! the tile into 64 bits, from the lowest bit up:
//!
//! - 5 bits: the zoom level `z`
//! - `z` bits: the row `y` of the tile
//! - `z` bits: the column `x` of the tile
//! - the other `59 - 2z` bits: the index `i` of the feature in the tile
//!
//! The larger the zoom level, the fewer bits are left for the index: 59 at
//! zoom level 0, 15 at zoom level 22.
//!
//! No two features of a tile and no two tiles share a feature ID
//! ([`lemma_feature_id_is_unique`]).

use vstd::arithmetic::div_mod::lemma_fundamental_div_mod_converse;
use vstd::arithmetic::power2::{
    lemma2_to64,
    lemma2_to64_rest,
    lemma_pow2_adds,
    lemma_pow2_pos,
    lemma_pow2_strictly_increases,
    pow2,
};
use vstd::bits::lemma_u64_shl_is_mul;
use vstd::prelude::*;

use crate::mvt::TileCoordinates;
use crate::web_mercator::MAX_ZOOM;

verus! {

/// Number of bits of the zoom level in a feature ID.
pub const ZOOM_BITS: u32 = 5;

/// Number of bits of the index in a feature ID of a tile at zoom level `z`.
pub open spec fn index_bits(z: u32) -> nat
    recommends
        z <= MAX_ZOOM,
{
    (64 - ZOOM_BITS - 2 * z) as nat
}

/// The feature ID of the `index`-th feature of a tile.
pub open spec fn feature_id(index: nat, tile: TileCoordinates) -> nat {
    (index * pow2((ZOOM_BITS + 2 * tile.zoom) as nat) + tile.x * pow2(
        (ZOOM_BITS + tile.zoom) as nat,
    ) + tile.y * pow2(ZOOM_BITS as nat) + tile.zoom) as nat
}

/// The powers of two that place the fields of a feature ID.
proof fn lemma_places(z: u32)
    requires
        z <= MAX_ZOOM,
    ensures
        pow2(ZOOM_BITS as nat) == 32,
        0 < pow2(z as nat),
        pow2((ZOOM_BITS + z) as nat) == 32 * pow2(z as nat),
        pow2((ZOOM_BITS + 2 * z) as nat) == 32 * (pow2(z as nat) * pow2(z as nat)),
        pow2(index_bits(z)) * pow2((ZOOM_BITS + 2 * z) as nat) == 0x1_0000_0000_0000_0000,
        0 < pow2(index_bits(z)),
{
    lemma2_to64();
    lemma2_to64_rest();
    lemma_pow2_pos(z as nat);
    lemma_pow2_pos(index_bits(z));
    lemma_pow2_adds(5, z as nat);
    lemma_pow2_adds(z as nat, z as nat);
    lemma_pow2_adds(5, (2 * z) as nat);
    lemma_pow2_adds(index_bits(z), (ZOOM_BITS + 2 * z) as nat);
}

/// A feature ID fits in 64 bits, and each field can be read back from it.
pub proof fn lemma_feature_id_fields(index: nat, tile: TileCoordinates)
    requires
        tile.valid(),
        index < pow2(index_bits(tile.zoom)),
    ensures
        feature_id(index, tile) < 0x1_0000_0000_0000_0000,
        feature_id(index, tile) % 32 == tile.zoom,
        (feature_id(index, tile) / 32) % pow2(tile.zoom as nat) == tile.y,
        ((feature_id(index, tile) / 32) / pow2(tile.zoom as nat)) % pow2(tile.zoom as nat)
            == tile.x,
        ((feature_id(index, tile) / 32) / pow2(tile.zoom as nat)) / pow2(tile.zoom as nat)
            == index,
{
    lemma_places(tile.zoom);
    let n = pow2(tile.zoom as nat) as int;
    let i = index as int;
    let x = tile.x as int;
    let y = tile.y as int;
    let z = tile.zoom as int;
    let id = feature_id(index, tile) as int;
    let upper = i * n + x;
    let rest = upper * n + y;
    assert(id == 32 * rest + z) by (nonlinear_arith)
        requires
            id == i * (32 * (n * n)) + x * (32 * n) + y * 32 + z,
            rest == (i * n + x) * n + y,
    ;
    lemma_fundamental_div_mod_converse(id, 32, rest, z);
    lemma_fundamental_div_mod_converse(rest, n, upper, y);
    lemma_fundamental_div_mod_converse(upper, n, i, x);
    let limit = pow2(index_bits(tile.zoom)) as int;
    assert(id < 0x1_0000_0000_0000_0000) by (nonlinear_arith)
        requires
            id == i * (32 * (n * n)) + x * (32 * n) + y * 32 + z,
            0 <= i < limit,
            limit * (32 * (n * n)) == 0x1_0000_0000_0000_0000,
            0 <= x < n,
            0 <= y < n,
            0 <= z < 32,
    ;
}

/// Feature IDs are unique: two of them are equal only if they belong to the
/// same tile and the same index.
pub proof fn lemma_feature_id_is_unique(
    index1: nat,
    tile1: TileCoordinates,
    index2: nat,
    tile2: TileCoordinates,
)
    requires
        tile1.valid(),
        tile2.valid(),
        index1 < pow2(index_bits(tile1.zoom)),
        index2 < pow2(index_bits(tile2.zoom)),
        feature_id(index1, tile1) == feature_id(index2, tile2),
    ensures
        index1 == index2,
        tile1 == tile2,
{
    lemma_feature_id_fields(index1, tile1);
    lemma_feature_id_fields(index2, tile2);
}

/// Puts a field above the fields that are already in place.
proof fn lemma_place_field(field: u64, below: u64, bits: u64)
    by (bit_vector)
    requires
        bits < 64,
        below < (1u64 << bits),
    ensures
        ((field << bits) | below) == (field << bits) + below,
{
}

/// Returns the number of features that a tile at zoom level `z` has feature
/// IDs for: `2^(59 - 2z)`.
pub fn index_limit(z: u32) -> (limit: u64)
    requires
        z <= MAX_ZOOM,
    ensures
        limit == pow2(index_bits(z)),
{
    proof {
        lemma2_to64_rest();
        if index_bits(z) < 59 {
            lemma_pow2_strictly_increases(index_bits(z), 59);
        }
        lemma_u64_shl_is_mul(1, (64 - ZOOM_BITS - 2 * z) as u64);
    }
    1u64 << (64 - ZOOM_BITS - 2 * z)
}

/// Calculates the feature ID of the `index`-th feature of a tile.
///
/// The tile must exist, and the index must be below [`index_limit`] of its
/// zoom level.
pub fn pack_feature_id(index: u64, tile: &TileCoordinates) -> (id: u64)
    requires
        tile.valid(),
        index < pow2(index_bits(tile.zoom)),
    ensures
        id == feature_id(index as nat, *tile),
{
    let x_bits: u32 = tile.zoom;
    let y_bits: u32 = tile.zoom;
    let x: u64 = tile.x as u64;
    let y: u64 = tile.y as u64;
    let z: u64 = tile.zoom as u64;
    proof {
        lemma_places(tile.zoom);
        lemma_feature_id_fields(index as nat, *tile);
        let n = pow2(tile.zoom as nat) as int;
        let x_place: u64 = (y_bits + ZOOM_BITS) as u64;
        let i_place: u64 = (x_bits + y_bits + ZOOM_BITS) as u64;
        // the fields as products
        assert(y * 32 < 32 * n && x * (32 * n) < 32 * (n * n)) by (nonlinear_arith)
            requires
                0 <= x < n,
                0 <= y < n,
        ;
        assert(32 * (n * n) <= 0x1_0000_0000_0000_0000) by (nonlinear_arith)
            requires
                pow2(index_bits(tile.zoom)) * (32 * (n * n)) == 0x1_0000_0000_0000_0000,
                pow2(index_bits(tile.zoom)) >= 1,
                n >= 1,
        ;
        assert(index * (32 * (n * n)) < 0x1_0000_0000_0000_0000) by (nonlinear_arith)
            requires
                pow2(index_bits(tile.zoom)) * (32 * (n * n)) == 0x1_0000_0000_0000_0000,
                0 <= index < pow2(index_bits(tile.zoom)),
                n >= 1,
        ;
        lemma2_to64_rest();
        lemma_pow2_strictly_increases(x_place as nat, 63);
        lemma_pow2_strictly_increases(i_place as nat, 63);
        lemma_u64_shl_is_mul(y, ZOOM_BITS as u64);
        lemma_u64_shl_is_mul(x, x_place);
        lemma_u64_shl_is_mul(index, i_place);
        lemma_u64_shl_is_mul(1, ZOOM_BITS as u64);
        lemma_u64_shl_is_mul(1, x_place);
        lemma_u64_shl_is_mul(1, i_place);
        // the fields do not overlap
        let low: u64 = (y << ZOOM_BITS) | z;
        lemma_place_field(y, z, ZOOM_BITS as u64);
        assert(low == y * 32 + z);
        let middle: u64 = (x << x_place) | low;
        lemma_place_field(x, low, x_place);
        assert(middle == x * (32 * n) + y * 32 + z);
        assert(middle < 32 * (n * n)) by (nonlinear_arith)
            requires
                middle == x * (32 * n) + y * 32 + z,
                0 <= x < n,
                0 <= y < n,
                0 <= z < 32,
        ;
        lemma_place_field(index, middle, i_place);
        let a: u64 = index << i_place;
        let b: u64 = x << x_place;
        let c: u64 = y << ZOOM_BITS;
        assert((((a | b) | c) | z) == (a | (b | (c | z)))) by (bit_vector);
    }
    (index << (x_bits + y_bits + ZOOM_BITS)) | (x << (y_bits + ZOOM_BITS)) | (y << ZOOM_BITS) | z
}

} // verus!
