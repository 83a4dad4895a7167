//! Chunk generation: the art of every tile of a chunk, on both layers.

use vstd::prelude::*;
use crate::error::TileError;
use crate::mask::{adjust_to_water_level, toward_water};
use crate::noise::{Terrain, TiledNoise};
use crate::position::{lemma_extent_is_i32, ChunkLayout, GridPos};
use crate::tile::{get_random_tile_id, mask_to_id, TileSet, DRAW_MAX};

verus! {

/// The art of one tile: its terrain level, its tile on the base layer, and
/// its tile on the border layer where it has one.
#[derive(Clone, Copy, Debug, PartialEq, Eq)]
pub struct TileArt {
    pub level: u32,
    pub base: u32,
    pub border: Option<u32>,
}

/// A generated chunk: the art of its tiles, column by column. The tile at
/// the offset `(x, y)` is `columns[x][y]`.
#[derive(Debug)]
pub struct ChunkData {
    pub coord: GridPos,
    pub columns: Vec<Vec<TileArt>>,
}

/// The level whose flat art lies on the base layer: the tile's own level in
/// the interior, and the level one step toward the water under a border.
pub open spec fn base_level(level: u32, mask: u32, water: u32) -> u32 {
    if mask == 0 {
        level
    } else {
        toward_water(level, water) as u32
    }
}

/// The table entry that a tile of this level and mask lacks, if it lacks
/// one: the art of its base level, then the corner of its mask, then the
/// art of its own level.
pub open spec fn tile_fault(tiles: &TileSet, level: u32, mask: u32, water: u32) -> Option<
    TileError,
> {
    if !tiles.has_level(base_level(level, mask, water)) {
        Some(TileError::MissingLevel(base_level(level, mask, water)))
    } else if mask != 0 && !tiles.has_mask(mask) {
        Some(TileError::MissingMask(mask))
    } else if mask != 0 && !tiles.has_level(level) {
        Some(TileError::MissingLevel(level))
    } else {
        None
    }
}

/// `art` is art of a tile of this level and mask: a flat tile of the base
/// level on the base layer, for some draw, and on the border layer the
/// border tile of the mask where the mask is not zero, nothing where it is.
pub open spec fn is_tile_art(tiles: &TileSet, level: u32, mask: u32, water: u32, art: TileArt) -> bool {
    &&& art.level == level
    &&& exists|draw: u32|
        draw <= DRAW_MAX && art.base == tiles.flat_tile(base_level(level, mask, water), draw)
    &&& art.border == (if mask != 0 {
        Some(tiles.border_tile(mask, level) as u32)
    } else {
        None
    })
}

/// The art of a tile whose level and edge mask are known.
pub fn tile_art(tiles: &TileSet, level: u32, mask: u32, water: u32) -> (r: Result<TileArt, TileError>)
    requires
        tiles.wf(),
    ensures
        match r {
            Ok(art) => tile_fault(tiles, level, mask, water) is None && is_tile_art(
                tiles,
                level,
                mask,
                water,
                art,
            ),
            Err(e) => tile_fault(tiles, level, mask, water) == Some(e),
        },
{
    let base_of: u32 = if mask == 0 {
        level
    } else {
        adjust_to_water_level(level, water)
    };
    if !tiles.knows_level(base_of) {
        return Err(TileError::MissingLevel(base_of));
    }
    let base: u32 = get_random_tile_id(tiles, base_of);
    if mask == 0 {
        return Ok(TileArt { level, base, border: None });
    }
    if tiles.corner(mask).is_none() {
        return Err(TileError::MissingMask(mask));
    }
    if !tiles.knows_level(level) {
        return Err(TileError::MissingLevel(level));
    }
    let border: u32 = mask_to_id(tiles, mask, level);
    Ok(TileArt { level, base, border: Some(border) })
}

/// What the terrain lacks in the tables at `(x, y)`, if anything.
#[verifier::opaque]
pub open spec fn fault_at<F: Fn(i32, i32) -> u32>(
    terrain: Terrain<F>,
    tiles: &TileSet,
    x: i32,
    y: i32,
) -> Option<TileError> {
    tile_fault(
        tiles,
        terrain.level_at(x, y),
        terrain.mask_at(terrain.level_at(x, y), x, y),
        terrain.water_level,
    )
}

/// `art` is art of the tile at `(x, y)`.
#[verifier::opaque]
pub open spec fn is_art_at<F: Fn(i32, i32) -> u32>(
    terrain: Terrain<F>,
    tiles: &TileSet,
    x: i32,
    y: i32,
    art: TileArt,
) -> bool {
    is_tile_art(
        tiles,
        terrain.level_at(x, y),
        terrain.mask_at(terrain.level_at(x, y), x, y),
        terrain.water_level,
        art,
    )
}

/// The art of the tile at `(x, y)`: its level from the terrain, its mask from
/// the eight tiles around it, and its tiles from the tables.
pub fn generate_tile<F: Fn(i32, i32) -> u32>(
    noise: &mut TiledNoise<F>,
    tiles: &TileSet,
    x: i32,
    y: i32,
) -> (r: Result<TileArt, TileError>)
    requires
        old(noise).wf(),
        tiles.wf(),
        i32::MIN < x < i32::MAX,
        i32::MIN < y < i32::MAX,
    ensures
        final(noise).wf(),
        final(noise)@ == old(noise)@,
        match r {
            Ok(art) => fault_at(old(noise)@, tiles, x, y) is None && is_art_at(
                old(noise)@,
                tiles,
                x,
                y,
                art,
            ),
            Err(e) => fault_at(old(noise)@, tiles, x, y) == Some(e),
        },
{
    reveal(fault_at);
    reveal(is_art_at);
    let level: u32 = noise.get_value(x, y);
    let mask: u32 = noise.get_mask(level, x, y);
    tile_art(tiles, level, mask, noise.water_level())
}

/// The bottom left tile of a chunk.
pub open spec fn first_tile(layout: &ChunkLayout, chunk: GridPos) -> GridPos {
    GridPos {
        x: (chunk.x * layout.spec_width()) as i32,
        y: (chunk.y * layout.spec_height()) as i32,
    }
}

/// What the terrain lacks in the tables for the tile `(x, y)` steps from
/// `first`.
pub open spec fn fault_from<F: Fn(i32, i32) -> u32>(
    terrain: Terrain<F>,
    tiles: &TileSet,
    first: GridPos,
    x: int,
    y: int,
) -> Option<TileError> {
    fault_at(terrain, tiles, (first.x + x) as i32, (first.y + y) as i32)
}

/// `art` is art of the tile `(x, y)` steps from `first`.
pub open spec fn is_art_from<F: Fn(i32, i32) -> u32>(
    terrain: Terrain<F>,
    tiles: &TileSet,
    first: GridPos,
    x: int,
    y: int,
    art: TileArt,
) -> bool {
    is_art_at(terrain, tiles, (first.x + x) as i32, (first.y + y) as i32, art)
}

/// Whether the offset `(a, b)` comes before `(x, y)` when a chunk is walked
/// column by column.
pub open spec fn walked_before(a: int, b: int, x: int, y: int) -> bool {
    a < x || (a == x && b < y)
}

/// Computes the bottom left tile of a chunk.
pub fn first_tile_of(layout: &ChunkLayout, chunk: GridPos) -> (first: GridPos)
    requires
        layout.wf(),
        layout.holds(chunk),
    ensures
        first == first_tile(layout, chunk),
        i32::MIN < first.x - 1,
        first.x + layout.spec_width() <= i32::MAX,
        i32::MIN < first.y - 1,
        first.y + layout.spec_height() <= i32::MAX,
{
    proof {
        lemma_extent_is_i32(*layout);
    }
    GridPos { x: chunk.x * (layout.width() as i32), y: chunk.y * (layout.height() as i32) }
}

/// Generates one column of a chunk, from the bottom up: the tiles
/// `(x, first_y)` to `(x, first_y + height - 1)`.
pub fn generate_column<F: Fn(i32, i32) -> u32>(
    noise: &mut TiledNoise<F>,
    tiles: &TileSet,
    x: i32,
    first_y: i32,
    height: u32,
) -> (r: Result<Vec<TileArt>, TileError>)
    requires
        old(noise).wf(),
        tiles.wf(),
        i32::MIN < x < i32::MAX,
        i32::MIN < first_y - 1,
        first_y + height <= i32::MAX,
    ensures
        final(noise).wf(),
        final(noise)@ == old(noise)@,
        match r {
            Ok(column) => {
                &&& column@.len() == height
                &&& forall|b: int|
                    0 <= b < height ==> {
                        &&& fault_at(old(noise)@, tiles, x, (first_y + b) as i32) is None
                        &&& is_art_at(
                            old(noise)@,
                            tiles,
                            x,
                            (first_y + b) as i32,
                            #[trigger] column@[b],
                        )
                    }
            },
            Err(e) => exists|y: int|
                {
                    &&& 0 <= y < height
                    &&& #[trigger] fault_at(old(noise)@, tiles, x, (first_y + y) as i32) == Some(e)
                    &&& forall|b: int|
                        0 <= b < y ==> (#[trigger] fault_at(
                            old(noise)@,
                            tiles,
                            x,
                            (first_y + b) as i32,
                        )) is None
                },
        },
{
    let ghost start = noise@;
    let mut column: Vec<TileArt> = Vec::new();
    let mut y: u32 = 0;
    while y < height
        invariant
            0 <= y <= height,
            tiles.wf(),
            i32::MIN < x < i32::MAX,
            i32::MIN < first_y - 1,
            first_y + height <= i32::MAX,
            noise.wf(),
            noise@ == start,
            start == old(noise)@,
            column@.len() == y,
            forall|b: int|
                0 <= b < y ==> {
                    &&& (#[trigger] fault_at(start, tiles, x, (first_y + b) as i32)) is None
                    &&& is_art_at(start, tiles, x, (first_y + b) as i32, column@[b])
                },
        decreases height - y,
    {
        let tile_y: i32 = (first_y as i64 + y as i64) as i32;
        match generate_tile(noise, tiles, x, tile_y) {
            Ok(art) => {
                column.push(art);
            },
            Err(e) => {
                assert(fault_at(start, tiles, x, (first_y + y) as i32) == Some(e));
                return Err(e);
            },
        }
        y += 1;
    }
    Ok(column)
}

/// Generates a chunk: the art of each of its tiles, walked column by column.
/// The first tile that lacks a table entry stops the walk with its fault.
pub fn generate_chunk<F: Fn(i32, i32) -> u32>(
    noise: &mut TiledNoise<F>,
    tiles: &TileSet,
    layout: &ChunkLayout,
    chunk: GridPos,
) -> (r: Result<ChunkData, TileError>)
    requires
        old(noise).wf(),
        tiles.wf(),
        layout.wf(),
        layout.holds(chunk),
    ensures
        final(noise).wf(),
        final(noise)@ == old(noise)@,
        match r {
            Ok(data) => {
                &&& data.coord == chunk
                &&& data.columns@.len() == layout.spec_width()
                &&& forall|x: int|
                    0 <= x < layout.spec_width() ==> (#[trigger] data.columns@[x])@.len()
                        == layout.spec_height()
                &&& forall|x: int, y: int|
                    0 <= x < layout.spec_width() && 0 <= y < layout.spec_height() ==> {
                        &&& (#[trigger] fault_from(
                            old(noise)@,
                            tiles,
                            first_tile(layout, chunk),
                            x,
                            y,
                        )) is None
                        &&& is_art_from(
                            old(noise)@,
                            tiles,
                            first_tile(layout, chunk),
                            x,
                            y,
                            data.columns@[x]@[y],
                        )
                    }
            },
            Err(e) => exists|x: int, y: int|
                {
                    &&& 0 <= x < layout.spec_width() && 0 <= y < layout.spec_height()
                    &&& #[trigger] fault_from(old(noise)@, tiles, first_tile(layout, chunk), x, y)
                        == Some(e)
                    &&& forall|a: int, b: int|
                        0 <= a < layout.spec_width() && 0 <= b < layout.spec_height()
                            && walked_before(a, b, x, y) ==> (#[trigger] fault_from(
                            old(noise)@,
                            tiles,
                            first_tile(layout, chunk),
                            a,
                            b,
                        )) is None
                },
        },
{
    let width: u32 = layout.width();
    let height: u32 = layout.height();
    let first: GridPos = first_tile_of(layout, chunk);
    let ghost start = noise@;
    let mut columns: Vec<Vec<TileArt>> = Vec::new();
    let mut x: u32 = 0;
    while x < width
        invariant
            0 <= x <= width,
            width == layout.spec_width(),
            height == layout.spec_height(),
            first == first_tile(layout, chunk),
            tiles.wf(),
            i32::MIN < first.x - 1,
            first.x + width <= i32::MAX,
            i32::MIN < first.y - 1,
            first.y + height <= i32::MAX,
            noise.wf(),
            noise@ == start,
            start == old(noise)@,
            columns@.len() == x,
            forall|a: int| 0 <= a < x ==> (#[trigger] columns@[a])@.len() == height,
            forall|a: int, b: int|
                0 <= a < x && 0 <= b < height ==> {
                    &&& (#[trigger] fault_from(start, tiles, first, a, b)) is None
                    &&& is_art_from(start, tiles, first, a, b, columns@[a]@[b])
                },
        decreases width - x,
    {
        let tile_x: i32 = (first.x as i64 + x as i64) as i32;
        match generate_column(noise, tiles, tile_x, first.y, height) {
            Ok(column) => {
                let ghost before = columns@;
                columns.push(column);
                proof {
                    assert forall|a: int, b: int| 0 <= a < x + 1 && 0 <= b < height implies {
                        &&& (#[trigger] fault_from(start, tiles, first, a, b)) is None
                        &&& is_art_from(start, tiles, first, a, b, columns@[a]@[b])
                    } by {
                        if a < x {
                            assert(columns@[a] == before[a]);
                        } else {
                            assert(columns@[a] == column);
                            assert(is_art_at(
                                start,
                                tiles,
                                tile_x,
                                (first.y + b) as i32,
                                column@[b],
                            ));
                        }
                    }
                }
            },
            Err(e) => {
                proof {
                    let y = choose|y: int|
                        {
                            &&& 0 <= y < height
                            &&& #[trigger] fault_at(start, tiles, tile_x, (first.y + y) as i32)
                                == Some(e)
                            &&& forall|b: int|
                                0 <= b < y ==> (#[trigger] fault_at(
                                    start,
                                    tiles,
                                    tile_x,
                                    (first.y + b) as i32,
                                )) is None
                        };
                    assert(fault_from(start, tiles, first, x as int, y) == Some(e));
                    assert forall|a: int, b: int|
                        0 <= a < width && 0 <= b < height && walked_before(
                            a,
                            b,
                            x as int,
                            y,
                        ) implies (#[trigger] fault_from(start, tiles, first, a, b)) is None by {
                        if a == x {
                            assert(fault_at(start, tiles, tile_x, (first.y + b) as i32) is None);
                        }
                    }
                }
                return Err(e);
            },
        }
        x += 1;
    }
    Ok(ChunkData { coord: chunk, columns })
}

impl ChunkData {
    /// The art of the tile at the offset `(x, y)`, if the chunk has such a tile.
    pub fn tile(&self, x: u32, y: u32) -> (art: Option<TileArt>)
        ensures
            art == (if x < self.columns@.len() && y < self.columns@[x as int]@.len() {
                Some(self.columns@[x as int]@[y as int])
            } else {
                None
            }),
    {
        if (x as usize) < self.columns.len() {
            let column = &self.columns[x as usize];
            if (y as usize) < column.len() {
                return Some(column[y as usize]);
            }
        }
        None
    }
}

} // verus!
