//! Mapbox Vector Tile (MVT).

use vstd::arithmetic::div_mod::{
    lemma_div_denominator,
    lemma_fundamental_div_mod,
    lemma_fundamental_div_mod_converse,
    lemma_mod_bound,
};
use vstd::arithmetic::mul::lemma_mul_inequality;
use vstd::arithmetic::power2::{lemma2_to64, lemma_pow2_adds, lemma_pow2_pos, pow2};
use vstd::bits::lemma_u64_shr_is_div;
use vstd::prelude::*;
use vstd::string::StringExecFns;

use crate::web_mercator::{
    in_world,
    lemma_spans,
    tile_span,
    tiles_per_edge_at_zoom,
    GRID_BITS,
    GRID_EXTENT,
    MAX_ZOOM,
};
use crate::LonLat;

pub mod dictionary;
pub mod feature_id;
pub mod frequency;
pub mod symbol;

verus! {

/// Tile coordinates.
#[derive(Clone, Copy, Debug, PartialEq, Eq, Structural)]
pub struct TileCoordinates {
    /// Zoom level of the tile.
    pub zoom: u32,
    /// X coordinate of the tile.
    pub x: u32,
    /// Y coordinate of the tile.
    pub y: u32,
}

impl TileCoordinates {
    /// A tile exists at zoom levels up to [`MAX_ZOOM`], in column and row
    /// `0` to `2^zoom - 1`.
    pub open spec fn valid(self) -> bool {
        &&& self.zoom <= MAX_ZOOM
        &&& self.x < pow2(self.zoom as nat)
        &&& self.y < pow2(self.zoom as nat)
    }

    /// The tile at zoom level `new_zoom` that covers this one: each zoom
    /// level dropped halves the column and the row, rounding down.
    pub open spec fn zoomed_out(self, new_zoom: u32) -> TileCoordinates
        recommends
            new_zoom <= self.zoom,
    {
        TileCoordinates {
            zoom: new_zoom,
            x: (self.x as nat / pow2((self.zoom - new_zoom) as nat)) as u32,
            y: (self.y as nat / pow2((self.zoom - new_zoom) as nat)) as u32,
        }
    }

    /// A tile contains the locations from its western edge up to, but not
    /// including, its eastern edge, and from its northern edge up to, but
    /// not including, its southern edge. The edges that it does not contain
    /// belong to its neighbors.
    pub open spec fn contains(self, location: LonLat<i64>) -> bool {
        &&& self.x * tile_span(self.zoom) <= location.0 < (self.x + 1) * tile_span(self.zoom)
        &&& self.y * tile_span(self.zoom) <= location.1 < (self.y + 1) * tile_span(self.zoom)
    }

    /// The coordinates at zoom level `zoom` that a location falls on.
    pub open spec fn at(location: LonLat<i64>, zoom: u32) -> TileCoordinates
        recommends
            in_world(location),
            zoom <= MAX_ZOOM,
    {
        TileCoordinates {
            zoom,
            x: (location.0 as int / tile_span(zoom) as int) as u32,
            y: (location.1 as int / tile_span(zoom) as int) as u32,
        }
    }

    /// At every zoom level exactly one tile contains a given location of
    /// the world, and no tile contains a location outside the world.
    pub proof fn lemma_one_tile_contains(self, location: LonLat<i64>)
        requires
            self.valid(),
        ensures
            self.contains(location) <==> in_world(location) && self == Self::at(
                location,
                self.zoom,
            ),
    {
        lemma_spans(self.zoom);
        let span = tile_span(self.zoom) as int;
        let n = pow2(self.zoom as nat) as int;
        if self.contains(location) {
            lemma_mul_inequality(self.x + 1, n, span);
            lemma_mul_inequality(self.y + 1, n, span);
            assert(self.x * span >= 0 && self.y * span >= 0) by (nonlinear_arith)
                requires
                    self.x >= 0,
                    self.y >= 0,
                    span > 0,
            ;
            assert((self.x + 1) * span == self.x * span + span && (self.y + 1) * span == self.y
                * span + span) by (nonlinear_arith);
            lemma_fundamental_div_mod_converse(
                location.0 as int,
                span,
                self.x as int,
                location.0 - self.x * span,
            );
            lemma_fundamental_div_mod_converse(
                location.1 as int,
                span,
                self.y as int,
                location.1 - self.y * span,
            );
        }
        if in_world(location) && self == Self::at(location, self.zoom) {
            Self::lemma_at_contains(location, self.zoom);
        }
    }

    /// The coordinates that a location of the world falls on name a tile
    /// that exists and contains the location.
    pub proof fn lemma_at_contains(location: LonLat<i64>, zoom: u32)
        requires
            in_world(location),
            zoom <= MAX_ZOOM,
        ensures
            Self::at(location, zoom).valid(),
            Self::at(location, zoom).contains(location),
            location.0 as int / tile_span(zoom) as int == Self::at(location, zoom).x,
            location.1 as int / tile_span(zoom) as int == Self::at(location, zoom).y,
    {
        lemma_spans(zoom);
        Self::lemma_cell(location.0 as int, zoom);
        Self::lemma_cell(location.1 as int, zoom);
    }

    /// The tile that a tile zooms out to exists, and contains what the tile
    /// contains: it is the tile that the locations in the tile fall on at
    /// the smaller zoom level.
    pub proof fn lemma_zoomed_out_contains(self, new_zoom: u32, location: LonLat<i64>)
        requires
            self.valid(),
            new_zoom <= self.zoom,
            self.contains(location),
        ensures
            self.zoomed_out(new_zoom) == Self::at(location, new_zoom),
            self.zoomed_out(new_zoom).valid(),
            self.zoomed_out(new_zoom).contains(location),
    {
        self.lemma_one_tile_contains(location);
        Self::lemma_at_contains(location, self.zoom);
        Self::lemma_at_contains(location, new_zoom);
        let dropped = (self.zoom - new_zoom) as nat;
        lemma_pow2_pos(dropped);
        lemma_pow2_pos((GRID_BITS - self.zoom) as nat);
        lemma_pow2_adds((GRID_BITS - self.zoom) as nat, dropped);
        assert(tile_span(new_zoom) == tile_span(self.zoom) * pow2(dropped));
        lemma_div_denominator(
            location.0 as int,
            tile_span(self.zoom) as int,
            pow2(dropped) as int,
        );
        lemma_div_denominator(
            location.1 as int,
            tile_span(self.zoom) as int,
            pow2(dropped) as int,
        );
    }

    /// A coordinate of the world grid lies in the column or row that its
    /// quotient by the span of a tile names.
    proof fn lemma_cell(coordinate: int, zoom: u32)
        requires
            0 <= coordinate < GRID_EXTENT,
            zoom <= MAX_ZOOM,
        ensures
            0 <= (coordinate / (tile_span(zoom) as int)) < pow2(zoom as nat),
            (coordinate / (tile_span(zoom) as int)) * tile_span(zoom) <= coordinate,
            coordinate < (coordinate / (tile_span(zoom) as int) + 1) * tile_span(zoom),
    {
        lemma_spans(zoom);
        let span = tile_span(zoom) as int;
        let n = pow2(zoom as nat) as int;
        let q = coordinate / span;
        lemma_fundamental_div_mod(coordinate, span);
        lemma_mod_bound(coordinate, span);
        assert((q + 1) * span == span * q + span) by (nonlinear_arith);
        assert(q * span == span * q) by (nonlinear_arith);
        assert(0 <= q < n) by (nonlinear_arith)
            requires
                span * q <= coordinate,
                coordinate < span * q + span,
                0 <= coordinate < n * span,
                span > 0,
        ;
    }

    /// Returns the coordinates of the tile at zoom level `zoom` that
    /// contains a location, if the location is in the world.
    pub fn containing(location: &LonLat<i64>, zoom: u32) -> (tile: Option<Self>)
        requires
            zoom <= MAX_ZOOM,
        ensures
            tile == if in_world(*location) {
                Some(Self::at(*location, zoom))
            } else {
                None::<Self>
            },
    {
        let longitude: i64 = location.0;
        let latitude: i64 = location.1;
        if longitude < 0 || longitude >= GRID_EXTENT || latitude < 0 || latitude >= GRID_EXTENT {
            return None;
        }
        let bits: u32 = GRID_BITS - zoom;
        proof {
            lemma2_to64();
            Self::lemma_cell(longitude as int, zoom);
            Self::lemma_cell(latitude as int, zoom);
            lemma_spans(zoom);
            lemma_u64_shr_is_div(longitude as u64, bits as u64);
            lemma_u64_shr_is_div(latitude as u64, bits as u64);
        }
        let x: u32 = ((longitude as u64) >> bits) as u32;
        let y: u32 = ((latitude as u64) >> bits) as u32;
        Some(Self { zoom, x, y })
    }

    /// Returns if the coordinates name a tile that exists.
    pub fn is_valid(&self) -> (valid: bool)
        ensures
            valid == self.valid(),
    {
        if self.zoom > MAX_ZOOM {
            return false;
        }
        let n: u64 = tiles_per_edge_at_zoom(self.zoom);
        (self.x as u64) < n && (self.y as u64) < n
    }

    /// Creates a new `TileCoordinates` that zooms out to a given level.
    ///
    /// Returns `None` if `new_zoom` is larger than the current zoom level.
    pub fn zoom_out_to(&self, new_zoom: u32) -> (coarser: Option<Self>)
        ensures
            new_zoom > self.zoom ==> coarser is None,
            new_zoom <= self.zoom ==> coarser == Some(self.zoomed_out(new_zoom)),
    {
        if new_zoom > self.zoom {
            return None;
        }
        let mut x: u32 = self.x;
        let mut y: u32 = self.y;
        let mut zoom: u32 = self.zoom;
        proof {
            lemma2_to64();
            assert(pow2((self.zoom - zoom) as nat) == 1);
        }
        while zoom > new_zoom
            invariant
                new_zoom <= zoom <= self.zoom,
                x == self.x as nat / pow2((self.zoom - zoom) as nat),
                y == self.y as nat / pow2((self.zoom - zoom) as nat),
            decreases zoom - new_zoom,
        {
            proof {
                let dropped = (self.zoom - zoom) as nat;
                lemma2_to64();
                lemma_pow2_pos(dropped);
                lemma_pow2_adds(dropped, 1);
                assert(pow2((self.zoom - (zoom - 1)) as nat) == pow2(dropped) * 2);
                lemma_div_denominator(self.x as int, pow2(dropped) as int, 2);
                lemma_div_denominator(self.y as int, pow2(dropped) as int, 2);
            }
            x = x / 2;
            y = y / 2;
            zoom = zoom - 1;
        }
        Some(Self { zoom, x, y })
    }
}

/// Error related to Mapbox vector tile (mvt) processing.
#[derive(Debug)]
pub enum MvtError {
    /// Business record is outside of the tile.
    OutsideOfTile,
    /// Duplicate record ID.
    DuplicateRecordId(String),
}

impl MvtError {
    /// What the error says, in words.
    pub open spec fn message(&self) -> Seq<char> {
        match self {
            MvtError::OutsideOfTile => "business record is outside of the tile"@,
            MvtError::DuplicateRecordId(id) => "duplicate business record ID: "@ + id@,
        }
    }

    /// Returns the error message.
    pub fn to_string(&self) -> (message: String)
        ensures
            message@ == self.message(),
    {
        match self {
            MvtError::OutsideOfTile => "business record is outside of the tile".to_string(),
            MvtError::DuplicateRecordId(id) => {
                "duplicate business record ID: ".to_string().concat(id.as_str())
            },
        }
    }
}

/// The zigzag code of a number.
///
/// The operand is the 32-bit two's complement pattern of a signed number;
/// its sign bit moves to the lowest place and the other bits move up by one.
/// For a number below `2^31` the code is twice the number.
pub open spec fn zigzag_code(n: u32) -> u32 {
    ((n * 2) % 0x1_0000_0000 + n / 0x8000_0000) as u32
}

/// Zigzag-encodes a given number.
#[inline]
pub fn zigzag(n: u32) -> (code: u32)
    ensures
        code == zigzag_code(n),
{
    assert(((n << 1) ^ (n >> 31)) == (n * 2) % 0x1_0000_0000 + n / 0x8000_0000) by (bit_vector);
    (n << 1) ^ (n >> 31)
}

} // verus!
