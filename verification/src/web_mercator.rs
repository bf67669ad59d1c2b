//! Integer side of the Web Mercator projection.
//!
//! At zoom level `z` the world is a square of `2^z` by `2^z` tiles, and a
//! tile is a square of [`TILE_EXTENT`] by [`TILE_EXTENT`] cells. The finest
//! grid is the one of [`MAX_ZOOM`]: `2^GRID_BITS` cells per edge of the
//! world. A location is a cell of that grid, counted eastwards from the
//! antimeridian and southwards from the northern cut-off; coarser zoom
//! levels see it by dropping low bits. A location with a negative
//! coordinate, or one of `2^GRID_BITS` or more, lies outside the world.
//!
//! The cell of a longitude `λ` and a latitude `φ` in radians is the
//! column `2^GRID_BITS * (λ + π) / 2π` and the row
//! `2^GRID_BITS * (π - ln(tan(π/4 + φ/2))) / 2π`, both rounded down.
//! Turning degrees into cells takes the logarithm and the tangent, and is
//! left to the caller.

use vstd::arithmetic::div_mod::{
    lemma_fundamental_div_mod,
    lemma_fundamental_div_mod_converse,
    lemma_mod_bound,
};
use vstd::arithmetic::mul::lemma_mul_inequality;
use vstd::arithmetic::power2::{
    lemma2_to64,
    lemma2_to64_rest,
    lemma_pow2_adds,
    lemma_pow2_pos,
    lemma_pow2_strictly_increases,
    pow2,
};
use vstd::bits::{lemma_u64_shl_is_mul, lemma_u64_shr_is_div};
use vstd::prelude::*;

use crate::LonLat;

verus! {

/// Maximum zoom level.
pub const MAX_ZOOM: u32 = 22;

/// Number of bits of a cell's index within a tile, per axis.
pub const TILE_EXTENT_BITS: u32 = 12;

/// Edge length of a tile in cells.
pub const TILE_EXTENT: u32 = 4096;

/// Number of bits of a cell's index within the world grid, per axis.
pub const GRID_BITS: u32 = 34;

/// Edge length of the world in cells of the world grid.
pub const GRID_EXTENT: i64 = 0x4_0000_0000;

/// Number of mantissa digits of a double-precision number.
pub const MANTISSA_DIGITS: u32 = 53;

/// A location is in the world if both its coordinates are cells of the
/// world grid.
pub open spec fn in_world(location: LonLat<i64>) -> bool {
    &&& 0 <= location.0 < GRID_EXTENT
    &&& 0 <= location.1 < GRID_EXTENT
}

/// Edge length of a tile at zoom level `z`, in cells of the world grid.
pub open spec fn tile_span(z: u32) -> nat
    recommends
        z <= MAX_ZOOM,
{
    pow2((GRID_BITS - z) as nat)
}

/// Edge length of a cell at zoom level `z`, in cells of the world grid.
pub open spec fn cell_span(z: u32) -> nat
    recommends
        z <= MAX_ZOOM,
{
    pow2((MAX_ZOOM - z) as nat)
}

/// A tile is [`TILE_EXTENT`] cells wide at every zoom level, and the world
/// is `2^z` tiles wide.
pub proof fn lemma_spans(z: u32)
    requires
        z <= MAX_ZOOM,
    ensures
        0 < cell_span(z) <= 0x40_0000,
        tile_span(z) == TILE_EXTENT * cell_span(z),
        pow2(z as nat) * tile_span(z) == 0x4_0000_0000,
        0 < pow2(z as nat) <= 0x40_0000,
{
    lemma2_to64();
    lemma2_to64_rest();
    lemma_pow2_pos((MAX_ZOOM - z) as nat);
    lemma_pow2_pos(z as nat);
    lemma_pow2_adds(12, (MAX_ZOOM - z) as nat);
    lemma_pow2_adds(z as nat, (GRID_BITS - z) as nat);
    lemma_pow2_adds(z as nat, (MAX_ZOOM - z) as nat);
    assert(pow2(z as nat) * cell_span(z) == 0x40_0000);
    assert(cell_span(z) <= 0x40_0000) by (nonlinear_arith)
        requires
            pow2(z as nat) * cell_span(z) == 0x40_0000,
            0 < pow2(z as nat),
            0 < cell_span(z),
    ;
    assert(pow2(z as nat) <= 0x40_0000) by (nonlinear_arith)
        requires
            pow2(z as nat) * cell_span(z) == 0x40_0000,
            0 < pow2(z as nat),
            0 < cell_span(z),
    ;
}

/// The edges of tiles are cells: the tiles of column or row `index` begin
/// at the cell `index * TILE_EXTENT` of their zoom level. The first tile
/// begins at the edge of the world, and the last tile ends at the other.
pub proof fn lemma_tile_edges(index: u32, z: u32)
    requires
        z <= MAX_ZOOM,
        index <= pow2(z as nat),
    ensures
        (index * tile_span(z)) as int / cell_span(z) as int == index * TILE_EXTENT,
        0 * tile_span(z) == 0,
        pow2(z as nat) * tile_span(z) == GRID_EXTENT,
{
    lemma_spans(z);
    let cell = cell_span(z) as int;
    assert(index * tile_span(z) == cell * (index * TILE_EXTENT) + 0) by (nonlinear_arith)
        requires
            tile_span(z) == TILE_EXTENT * cell,
    ;
    lemma_fundamental_div_mod_converse(
        (index * tile_span(z)) as int,
        cell,
        index * TILE_EXTENT,
        0,
    );
}

/// Edge length in tiles at given zoom level: `2^z`.
pub fn tiles_per_edge_at_zoom(z: u32) -> (n: u64)
    requires
        z <= MAX_ZOOM,
    ensures
        n == pow2(z as nat),
{
    power_of_two(z)
}

/// Power of two.
///
/// The exponent is limited so that the result is also exact as a
/// double-precision number.
pub fn power_of_two(n: u32) -> (p: u64)
    requires
        n + 1 < MANTISSA_DIGITS,
    ensures
        p == pow2(n as nat),
{
    proof {
        lemma_pow2_strictly_increases(n as nat, 63);
        lemma2_to64_rest();
        lemma_u64_shl_is_mul(1, n as u64);
    }
    1u64 << n
}

/// Divides by a power of two, rounding towards negative infinity.
fn floor_div_pow2(value: i64, bits: u32) -> (quotient: i64)
    requires
        bits < 63,
    ensures
        quotient == value as int / pow2(bits as nat) as int,
{
    proof {
        lemma_pow2_pos(bits as nat);
    }
    if value >= 0 {
        let magnitude: u64 = value as u64;
        proof {
            lemma_u64_shr_is_div(magnitude, bits as u64);
        }
        (magnitude >> bits) as i64
    } else {
        let below: u64 = (-(value + 1)) as u64;
        let q: u64 = below >> bits;
        proof {
            let d = pow2(bits as nat) as int;
            lemma_u64_shr_is_div(below, bits as u64);
            lemma_fundamental_div_mod(below as int, d);
            lemma_mod_bound(below as int, d);
            let r = below as int % d;
            assert(value as int == (-(q as int) - 1) * d + (d - 1 - r)) by (nonlinear_arith)
                requires
                    below as int == d * (q as int) + r,
                    value as int == -(below as int) - 1,
            ;
            lemma_fundamental_div_mod_converse(value as int, d, -(q as int) - 1, d - 1 - r);
        }
        -(q as i64) - 1
    }
}

/// Calculates the coordinate at a given zoom level of a coordinate of the
/// world grid: the cell of the zoom level that the coordinate falls on.
///
/// The result counts cells, not tiles: the tile is the result divided by
/// [`TILE_EXTENT`], the place within the tile is the remainder.
pub fn cell_at_zoom(coordinate: i64, z: u32) -> (cell: i64)
    requires
        z <= MAX_ZOOM,
    ensures
        cell == coordinate as int / cell_span(z) as int,
{
    floor_div_pow2(coordinate, MAX_ZOOM - z)
}

/// Calculates the coordinate of the world grid at which the tiles of a
/// given column or row begin at a given zoom level: their western or
/// northern edge.
///
/// `index` may be the number of tiles per edge, for the eastern or southern
/// edge of the world.
pub fn tile_edge_at_zoom(index: u32, z: u32) -> (edge: i64)
    requires
        z <= MAX_ZOOM,
        index <= pow2(z as nat),
    ensures
        edge == index * tile_span(z),
{
    proof {
        lemma_spans(z);
        lemma_mul_inequality(index as int, pow2(z as nat) as int, tile_span(z) as int);
        lemma_u64_shl_is_mul(index as u64, (GRID_BITS - z) as u64);
    }
    ((index as u64) << (GRID_BITS - z)) as i64
}

} // verus!
