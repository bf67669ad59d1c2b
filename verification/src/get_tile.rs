//! Answering a request for the map tile at given coordinates.
//!
//! The records of a tile are kept per tile at some zoom levels only, the
//! indexed ones. A request is answered from the records of the tile at the
//! largest indexed zoom level that covers the requested tile. Of those
//! records the ones outside of the requested tile are left out. The answer
//! is the vector tile in Base64.

use base64::Engine;
use vstd::prelude::*;
use vstd::seq_lib::{to_multiset_build, to_multiset_remove};

use crate::mvt::symbol::{
    is_tile_of,
    record_capacity,
    record_ids_of,
    BusinessRecordBuffer,
};
use crate::mvt::{MvtError, TileCoordinates};
use crate::protos::vector_tile::{tile_bytes, Tile};
use crate::text::{
    chars_of,
    lemma_pieces_len,
    parse_u32,
    parsed_u32,
    pieces,
    pieces_view,
    split,
    trim,
    trimmed,
};
use crate::{BusinessRecord, BusinessRecordView};

verus! {

/// Maximum number of business records per tile.
pub const MAX_RECORDS_PER_TILE: usize = 200;

/// The indexed zoom levels are in ascending order and begin with zoom level
/// 0, which covers every tile.
pub open spec fn are_indexed_zoom_levels(levels: Seq<u32>) -> bool {
    &&& levels.len() > 0
    &&& levels[0] == 0
    &&& forall|i: int, j: int| 0 <= i <= j < levels.len() ==> levels[i] <= levels[j]
}

/// Error of reading the indexed zoom levels.
#[derive(Clone, Copy, Debug, PartialEq, Eq, Structural)]
pub enum ZoomLevelsError {
    /// One of the zoom levels is not a number of 32 bits.
    InvalidZoomLevel,
    /// Zoom level 0 is not among the indexed zoom levels.
    ZoomLevelZeroNotIndexed,
}

impl ZoomLevelsError {
    /// What the error says, in words.
    pub open spec fn message(self) -> Seq<char> {
        match self {
            ZoomLevelsError::InvalidZoomLevel => "invalid zoom level"@,
            ZoomLevelsError::ZoomLevelZeroNotIndexed => "zoom level 0 must be indexed"@,
        }
    }

    /// Returns the error message.
    pub fn to_string(&self) -> (message: String)
        ensures
            message@ == self.message(),
    {
        match self {
            ZoomLevelsError::InvalidZoomLevel => "invalid zoom level".to_string(),
            ZoomLevelsError::ZoomLevelZeroNotIndexed => "zoom level 0 must be indexed".to_string(),
        }
    }
}

/// The zoom levels of a comma-separated list, as they are written: the
/// pieces between the commas without the white space around them.
pub open spec fn zoom_level_texts(text: Seq<char>) -> Seq<Seq<char>> {
    pieces(text, ',').map_values(|piece: Seq<char>| trimmed(piece))
}

/// Every zoom level of a comma-separated list is a number of 32 bits.
pub open spec fn zoom_levels_are_numbers(text: Seq<char>) -> bool {
    forall|i: int|
        0 <= i < zoom_level_texts(text).len() ==> parsed_u32(
            #[trigger] zoom_level_texts(text)[i],
        ) is Some
}

/// The zoom levels of a comma-separated list, in the order in which they
/// are written.
pub open spec fn written_zoom_levels(text: Seq<char>) -> Seq<u32> {
    zoom_level_texts(text).map_values(|level: Seq<char>| parsed_u32(level).unwrap())
}

/// Inserting an item into a sequence adds the item to what the sequence
/// holds.
proof fn lemma_insert_to_multiset(levels: Seq<u32>, at: int, level: u32)
    requires
        0 <= at <= levels.len(),
    ensures
        levels.insert(at, level).to_multiset() == levels.to_multiset().insert(level),
{
    let longer = levels.insert(at, level);
    assert(longer.remove(at) =~= levels);
    assert(longer[at] == level);
    to_multiset_remove(longer, at);
    longer.to_multiset_ensures();
    assert(longer.contains(level));
    assert(longer.to_multiset() =~= levels.to_multiset().insert(level));
}

/// Sorts zoom levels in ascending order.
fn sort_zoom_levels(levels: &Vec<u32>) -> (sorted: Vec<u32>)
    ensures
        sorted@.to_multiset() == levels@.to_multiset(),
        forall|i: int, j: int| 0 <= i <= j < sorted.len() ==> sorted[i] <= sorted[j],
{
    let mut sorted: Vec<u32> = Vec::new();
    let mut k: usize = 0;
    proof {
        assert(levels@.take(0) =~= Seq::<u32>::empty());
    }
    while k < levels.len()
        invariant
            k <= levels.len(),
            sorted@.to_multiset() == levels@.take(k as int).to_multiset(),
            forall|i: int, j: int| 0 <= i <= j < sorted.len() ==> sorted[i] <= sorted[j],
        decreases levels.len() - k,
    {
        let level: u32 = levels[k];
        let mut at: usize = sorted.len();
        while at > 0 && sorted[at - 1] > level
            invariant
                at <= sorted.len(),
                forall|i: int| at <= i < sorted.len() ==> sorted[i] > level,
            decreases at,
        {
            at = at - 1;
        }
        proof {
            lemma_insert_to_multiset(sorted@, at as int, level);
            to_multiset_build(levels@.take(k as int), level);
            assert(levels@.take(k + 1) =~= levels@.take(k as int).push(level));
        }
        let ghost before = sorted@;
        sorted.insert(at, level);
        proof {
            assert forall|i: int, j: int| 0 <= i <= j < sorted.len() implies sorted[i]
                <= sorted[j] by {
                let a = if i < at { i } else { i - 1 };
                let b = if j < at { j } else { j - 1 };
                if i != at && j != at {
                    assert(before[a] <= before[b]);
                } else if i == at && j != at {
                    assert(before[b] > level);
                } else if j == at && i != at {
                    if at > 0 {
                        assert(before[a] <= before[at - 1]);
                    }
                }
            }
        }
        k = k + 1;
    }
    proof {
        assert(levels@.take(k as int) =~= levels@);
    }
    sorted
}

/// Parses the indexed zoom levels: a comma-separated list of zoom levels in
/// decimal digits, which may have white space around them. Returns them in
/// ascending order.
///
/// Fails if a zoom level is not a number of 32 bits, and otherwise if zoom
/// level 0 is not among the zoom levels.
pub fn parse_indexed_zoom_levels(text: &str) -> (result: Result<Vec<u32>, ZoomLevelsError>)
    ensures
        match result {
            Ok(levels) => {
                &&& zoom_levels_are_numbers(text@)
                &&& are_indexed_zoom_levels(levels@)
                &&& levels@.to_multiset() == written_zoom_levels(text@).to_multiset()
            },
            Err(ZoomLevelsError::InvalidZoomLevel) => !zoom_levels_are_numbers(text@),
            Err(ZoomLevelsError::ZoomLevelZeroNotIndexed) => {
                &&& zoom_levels_are_numbers(text@)
                &&& !written_zoom_levels(text@).contains(0)
            },
        },
{
    let chars = chars_of(text);
    let parts = split(&chars, ',');
    let ghost texts = zoom_level_texts(text@);
    let mut levels: Vec<u32> = Vec::new();
    let mut i: usize = 0;
    proof {
        lemma_pieces_len(text@, ',');
    }
    while i < parts.len()
        invariant
            i <= parts.len(),
            pieces_view(parts@) == pieces(text@, ','),
            texts == zoom_level_texts(text@),
            texts.len() == parts.len(),
            levels.len() == i,
            forall|j: int|
                0 <= j < i ==> parsed_u32(#[trigger] texts[j]) == Some(levels[j]),
        decreases parts.len() - i,
    {
        let level_text = trim(&parts[i]);
        proof {
            assert(pieces_view(parts@)[i as int] == parts@[i as int]@);
            assert(texts[i as int] == level_text@);
        }
        match parse_u32(&level_text) {
            Some(level) => {
                levels.push(level);
            },
            None => {
                return Err(ZoomLevelsError::InvalidZoomLevel);
            },
        }
        i = i + 1;
    }
    proof {
        assert(levels@ =~= written_zoom_levels(text@));
    }
    let sorted = sort_zoom_levels(&levels);
    proof {
        sorted@.to_multiset_ensures();
        levels@.to_multiset_ensures();
        assert(sorted.len() == levels.len());
    }
    if sorted[0] == 0 {
        Ok(sorted)
    } else {
        proof {
            if levels@.contains(0) {
                assert(levels@.to_multiset().count(0u32) > 0);
                assert(sorted@.to_multiset().count(0u32) > 0);
                assert(sorted@.contains(0u32));
                let at = choose|at: int| 0 <= at < sorted.len() && sorted[at] == 0u32;
                assert(sorted[0] <= sorted[at]);
            }
        }
        Err(ZoomLevelsError::ZoomLevelZeroNotIndexed)
    }
}

/// Finds the largest indexed zoom level that covers the requested zoom
/// level.
pub fn indexed_zoom_level(indexed_zoom_levels: &Vec<u32>, zoom: u32) -> (level: u32)
    requires
        are_indexed_zoom_levels(indexed_zoom_levels@),
    ensures
        indexed_zoom_levels@.contains(level),
        level <= zoom,
        forall|i: int|
            0 <= i < indexed_zoom_levels.len() && indexed_zoom_levels[i] <= zoom
                ==> indexed_zoom_levels[i] <= level,
{
    // finds the first zoom level that is larger than the requested one;
    // the one before it is the answer
    let mut low: usize = 1;
    let mut high: usize = indexed_zoom_levels.len();
    while low < high
        invariant
            are_indexed_zoom_levels(indexed_zoom_levels@),
            1 <= low <= high <= indexed_zoom_levels.len(),
            forall|i: int| 0 <= i < low ==> indexed_zoom_levels[i] <= zoom,
            forall|i: int| high <= i < indexed_zoom_levels.len() ==> indexed_zoom_levels[i] > zoom,
        decreases high - low,
    {
        let middle: usize = low + (high - low) / 2;
        if indexed_zoom_levels[middle] <= zoom {
            low = middle + 1;
        } else {
            high = middle;
        }
    }
    indexed_zoom_levels[low - 1]
}

/// Finds the tile whose records answer a request for the tile at given
/// coordinates: the tile at the largest indexed zoom level that covers it.
pub fn indexed_tile(indexed_zoom_levels: &Vec<u32>, coordinates: &TileCoordinates) -> (tile:
    TileCoordinates)
    requires
        are_indexed_zoom_levels(indexed_zoom_levels@),
    ensures
        indexed_zoom_levels@.contains(tile.zoom),
        tile.zoom <= coordinates.zoom,
        forall|i: int|
            0 <= i < indexed_zoom_levels.len() && indexed_zoom_levels[i] <= coordinates.zoom
                ==> indexed_zoom_levels[i] <= tile.zoom,
        tile == coordinates.zoomed_out(tile.zoom),
{
    let level: u32 = indexed_zoom_level(indexed_zoom_levels, coordinates.zoom);
    match coordinates.zoom_out_to(level) {
        Some(tile) => tile,
        None => *coordinates,
    }
}

/// The records that are in the tile, in their order.
pub open spec fn records_in_tile(
    coordinates: TileCoordinates,
    records: Seq<BusinessRecordView>,
) -> Seq<BusinessRecordView> {
    records.filter(|record: BusinessRecordView| coordinates.contains(record.location))
}

/// No two records share a record ID.
pub open spec fn distinct_record_ids(records: Seq<BusinessRecordView>) -> bool {
    forall|i: int, j: int|
        0 <= i < j < records.len() ==> (#[trigger] records[i]).record_id != (
        #[trigger] records[j]).record_id
}

/// Builds the vector tile of the records that are in the tile at given
/// coordinates. Records outside of the tile are left out.
///
/// Fails with [`MvtError::DuplicateRecordId`] at the first record in the
/// tile that has the ID of an earlier record in the tile.
///
/// There must not be more records than the tile has room for.
pub fn compile_tile(coordinates: TileCoordinates, records: Vec<BusinessRecord>) -> (result: Result<
    Tile,
    MvtError,
>)
    requires
        coordinates.valid(),
        records.len() <= record_capacity(coordinates.zoom),
    ensures
        match result {
            Ok(tile) => {
                let all = records@.map_values(|record: BusinessRecord| record@);
                &&& distinct_record_ids(records_in_tile(coordinates, all))
                &&& is_tile_of(tile@, coordinates, records_in_tile(coordinates, all))
            },
            Err(MvtError::DuplicateRecordId(id)) => {
                let all = records@.map_values(|record: BusinessRecord| record@);
                exists|i: int|
                    {
                        &&& 0 <= i < all.len()
                        &&& coordinates.contains((#[trigger] all[i]).location)
                        &&& all[i].record_id == id@
                        &&& distinct_record_ids(records_in_tile(coordinates, all.take(i)))
                        &&& record_ids_of(records_in_tile(coordinates, all.take(i))).contains(
                            id@,
                        )
                    }
            },
            Err(MvtError::OutsideOfTile) => false,
        },
{
    let ghost all = records@.map_values(|record: BusinessRecord| record@);
    let ghost in_tile = |record: BusinessRecordView| coordinates.contains(record.location);
    let mut buffer = BusinessRecordBuffer::new(coordinates);
    proof {
        assert(all.take(0) =~= Seq::<BusinessRecordView>::empty());
    }
    for record in iter: records
        invariant
            iter.seq() == records@,
            all == records@.map_values(|record: BusinessRecord| record@),
            in_tile == |record: BusinessRecordView| coordinates.contains(record.location),
            records.len() <= record_capacity(coordinates.zoom),
            buffer.wf(),
            buffer.coordinates() == coordinates,
            buffer.records() == records_in_tile(coordinates, all.take(iter.index() as int)),
            buffer.records().len() <= iter.index(),
    {
        let ghost i = iter.index() as int;
        let ghost before = buffer.records();
        proof {
            buffer.lemma_invariants();
            assert(all.take(i + 1) =~= all.take(i).push(all[i]));
            all.take(i).lemma_filter_push(all[i], in_tile);
            assert(record@ == all[i]);
        }
        match buffer.append_business_record(record) {
            Ok(()) => {},
            Err(MvtError::OutsideOfTile) => {},
            Err(MvtError::DuplicateRecordId(id)) => {
                return Err(MvtError::DuplicateRecordId(id));
            },
        }
    }
    proof {
        buffer.lemma_invariants();
        assert(all.take(records.len() as int) =~= all);
    }
    Ok(buffer.into_tile())
}

/// The character that stands for six bits in Base64 with the standard
/// alphabet: the capital letters, the small letters, the digits, `+` and
/// `/`.
pub open spec fn base64_digit(bits: int) -> char
    recommends
        0 <= bits < 64,
{
    if bits < 26 {
        (0x41 + bits) as char
    } else if bits < 52 {
        (0x61 + bits - 26) as char
    } else if bits < 62 {
        (0x30 + bits - 52) as char
    } else if bits == 62 {
        '+'
    } else {
        '/'
    }
}

/// The text that stands for given bytes in Base64 with the standard
/// alphabet and padding: four characters for every three bytes, each for
/// six of their bits from the highest down, and `=` in place of a character
/// that has no bits of a byte.
pub open spec fn base64_standard(bytes: Seq<u8>) -> Seq<char>
    decreases bytes.len(),
{
    if bytes.len() == 0 {
        Seq::<char>::empty()
    } else {
        let bits = bytes[0] * 0x1_0000 + (if bytes.len() > 1 {
            bytes[1] * 0x100
        } else {
            0
        }) + (if bytes.len() > 2 {
            bytes[2] as int
        } else {
            0
        });
        let four = seq![
            base64_digit(bits / 0x4_0000),
            base64_digit(bits / 0x1000 % 64),
            if bytes.len() > 1 {
                base64_digit(bits / 64 % 64)
            } else {
                '='
            },
            if bytes.len() > 2 {
                base64_digit(bits % 64)
            } else {
                '='
            },
        ];
        if bytes.len() <= 3 {
            four
        } else {
            four + base64_standard(bytes.skip(3))
        }
    }
}

/// Bytes in Base64 are four characters for every three bytes or fewer.
pub proof fn lemma_base64_len(bytes: Seq<u8>)
    ensures
        base64_standard(bytes).len() == (bytes.len() + 2) / 3 * 4,
    decreases bytes.len(),
{
    if bytes.len() > 3 {
        lemma_base64_len(bytes.skip(3));
    }
}

/// The length of bytes in Base64 can be calculated in the machine.
pub open spec fn base64_fits(len: nat) -> bool {
    (len / 3) * 4 + 4 <= usize::MAX
}

/// Encodes bytes in Base64 with the standard alphabet and padding.
///
/// Calls `base64::Engine::encode` on
/// `base64::engine::general_purpose::STANDARD`. The contract claims that the
/// call returns the Base64 of its input with the standard alphabet and
/// padding, and that it panics only if the length of the Base64 does not
/// fit in `usize`.
#[verifier::external_body]
fn base64_encode(bytes: &Vec<u8>) -> (text: String)
    requires
        base64_fits(bytes@.len()),
    ensures
        text@ == base64_standard(bytes@),
{
    base64::engine::general_purpose::STANDARD.encode(bytes)
}

/// Encodes a tile for the answer: the bytes of the tile in Base64.
///
/// Returns `None` if the tile has too many bytes for the machine to
/// calculate the length of their Base64.
pub fn encode_tile(tile: &Tile) -> (text: Option<String>)
    ensures
        match text {
            Some(text) => {
                &&& base64_fits(tile_bytes(tile@).len())
                &&& text@ == base64_standard(tile_bytes(tile@))
            },
            None => !base64_fits(tile_bytes(tile@).len()),
        },
{
    let bytes = tile.write_to_bytes();
    if bytes.len() / 3 > (usize::MAX - 4) / 4 {
        None
    } else {
        Some(base64_encode(&bytes))
    }
}

} // verus!
