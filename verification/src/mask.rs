//! Edge masks: which of a tile's eight neighbours lie lower than the tile,
//! seen from the water line.

use vstd::prelude::*;

verus! {

pub const NORTH_WEST: u32 = 0b100_0_0_000;

pub const NORTH: u32 = 0b010_0_0_000;

pub const NORTH_EAST: u32 = 0b001_0_0_000;

pub const WEST: u32 = 0b000_1_0_000;

pub const EAST: u32 = 0b000_0_1_000;

pub const SOUTH_WEST: u32 = 0b000_0_0_100;

pub const SOUTH: u32 = 0b000_0_0_010;

pub const SOUTH_EAST: u32 = 0b000_0_0_001;

/// One more than the greatest edge mask.
pub const MASK_LIMIT: u32 = 256;

/// The terrain levels of the eight tiles around a tile. North is `y + 1`,
/// east is `x + 1`.
#[derive(Clone, Copy, Debug, PartialEq, Eq, Structural)]
pub struct Neighbors {
    pub north_west: u32,
    pub north: u32,
    pub north_east: u32,
    pub west: u32,
    pub east: u32,
    pub south_west: u32,
    pub south: u32,
    pub south_east: u32,
}

/// The level one step closer to the water line.
pub open spec fn toward_water(level: u32, water: u32) -> int {
    if level < water {
        level + 1
    } else if level > water {
        level - 1
    } else {
        level as int
    }
}

/// Whether a neighbour at level `neighbor` lies on the water side of a tile
/// at `level`: below it where the tile is above the water line, above it
/// where the tile is below, and never where the tile is at the water line.
pub open spec fn water_side(neighbor: u32, level: u32, water: u32) -> bool {
    if toward_water(level, water) < level {
        neighbor < level
    } else if toward_water(level, water) > level {
        neighbor > level
    } else {
        false
    }
}

pub open spec fn flag(set: bool, bit: u32) -> int {
    if set {
        bit as int
    } else {
        0
    }
}

/// The edge mask of a tile at `level` among `around`: one bit for each
/// neighbour on the water side.
pub open spec fn edge_mask(level: u32, water: u32, around: Neighbors) -> int {
    flag(water_side(around.north_west, level, water), NORTH_WEST)
        + flag(water_side(around.north, level, water), NORTH)
        + flag(water_side(around.north_east, level, water), NORTH_EAST)
        + flag(water_side(around.west, level, water), WEST)
        + flag(water_side(around.east, level, water), EAST)
        + flag(water_side(around.south_west, level, water), SOUTH_WEST)
        + flag(water_side(around.south, level, water), SOUTH)
        + flag(water_side(around.south_east, level, water), SOUTH_EAST)
}

/// Each bit of an edge mask is set exactly when its neighbour is on the water
/// side, independently of the seven others, and no other bit is ever set.
pub proof fn lemma_mask_bits(level: u32, water: u32, around: Neighbors)
    ensures
        0 <= edge_mask(level, water, around) < MASK_LIMIT,
        ((edge_mask(level, water, around) as u32) & NORTH_WEST != 0) == water_side(
            around.north_west,
            level,
            water,
        ),
        ((edge_mask(level, water, around) as u32) & NORTH != 0) == water_side(
            around.north,
            level,
            water,
        ),
        ((edge_mask(level, water, around) as u32) & NORTH_EAST != 0) == water_side(
            around.north_east,
            level,
            water,
        ),
        ((edge_mask(level, water, around) as u32) & WEST != 0) == water_side(
            around.west,
            level,
            water,
        ),
        ((edge_mask(level, water, around) as u32) & EAST != 0) == water_side(
            around.east,
            level,
            water,
        ),
        ((edge_mask(level, water, around) as u32) & SOUTH_WEST != 0) == water_side(
            around.south_west,
            level,
            water,
        ),
        ((edge_mask(level, water, around) as u32) & SOUTH != 0) == water_side(
            around.south,
            level,
            water,
        ),
        ((edge_mask(level, water, around) as u32) & SOUTH_EAST != 0) == water_side(
            around.south_east,
            level,
            water,
        ),
        (edge_mask(level, water, around) == 0) == (forall|neighbor: u32|
            around.has(neighbor) ==> !water_side(neighbor, level, water)),
{
    let a: u32 = flag(water_side(around.north_west, level, water), NORTH_WEST) as u32;
    let b: u32 = flag(water_side(around.north, level, water), NORTH) as u32;
    let c: u32 = flag(water_side(around.north_east, level, water), NORTH_EAST) as u32;
    let d: u32 = flag(water_side(around.west, level, water), WEST) as u32;
    let e: u32 = flag(water_side(around.east, level, water), EAST) as u32;
    let f: u32 = flag(water_side(around.south_west, level, water), SOUTH_WEST) as u32;
    let g: u32 = flag(water_side(around.south, level, water), SOUTH) as u32;
    let h: u32 = flag(water_side(around.south_east, level, water), SOUTH_EAST) as u32;
    let m: u32 = (a + b + c + d + e + f + g + h) as u32;
    assert(m == edge_mask(level, water, around));
    assert((m & 0x80 != 0) == (a == 0x80) && (m & 0x40 != 0) == (b == 0x40) && (m & 0x20 != 0) == (c
        == 0x20) && (m & 0x10 != 0) == (d == 0x10) && (m & 0x08 != 0) == (e == 0x08) && (m & 0x04
        != 0) == (f == 0x04) && (m & 0x02 != 0) == (g == 0x02) && (m & 0x01 != 0) == (h == 0x01))
        by (bit_vector)
        requires
            a == 0 || a == 0x80,
            b == 0 || b == 0x40,
            c == 0 || c == 0x20,
            d == 0 || d == 0x10,
            e == 0 || e == 0x08,
            f == 0 || f == 0x04,
            g == 0 || g == 0x02,
            h == 0 || h == 0x01,
            m == a + b + c + d + e + f + g + h,
    ;
    assert(around.has(around.north_west) && around.has(around.north) && around.has(
        around.north_east,
    ) && around.has(around.west) && around.has(around.east) && around.has(around.south_west)
        && around.has(around.south) && around.has(around.south_east));
}

impl Neighbors {
    /// Whether one of the eight neighbours is at `level`.
    pub open spec fn has(&self, level: u32) -> bool {
        ||| self.north_west == level
        ||| self.north == level
        ||| self.north_east == level
        ||| self.west == level
        ||| self.east == level
        ||| self.south_west == level
        ||| self.south == level
        ||| self.south_east == level
    }
}

/// Moves a level one step toward the water line; the water line itself stays.
pub fn adjust_to_water_level(level: u32, water: u32) -> (adjusted: u32)
    ensures
        adjusted == toward_water(level, water),
{
    if level < water {
        level + 1
    } else if level > water {
        level - 1
    } else {
        level
    }
}

/// Decides whether a neighbour lies on the water side of a tile.
pub fn compare_relative_to_water(neighbor: u32, level: u32, water: u32) -> (set: bool)
    ensures
        set == water_side(neighbor, level, water),
{
    let adjusted: u32 = adjust_to_water_level(level, water);
    if adjusted < level {
        neighbor < level
    } else if adjusted > level {
        neighbor > level
    } else {
        false
    }
}

/// Builds the edge mask of a tile from the levels around it.
pub fn compute_mask(level: u32, water: u32, around: &Neighbors) -> (mask: u32)
    ensures
        mask == edge_mask(level, water, *around),
        mask < MASK_LIMIT,
        (mask & NORTH_WEST != 0) == water_side(around.north_west, level, water),
        (mask & NORTH != 0) == water_side(around.north, level, water),
        (mask & NORTH_EAST != 0) == water_side(around.north_east, level, water),
        (mask & WEST != 0) == water_side(around.west, level, water),
        (mask & EAST != 0) == water_side(around.east, level, water),
        (mask & SOUTH_WEST != 0) == water_side(around.south_west, level, water),
        (mask & SOUTH != 0) == water_side(around.south, level, water),
        (mask & SOUTH_EAST != 0) == water_side(around.south_east, level, water),
{
    proof {
        lemma_mask_bits(level, water, *around);
    }
    let mut mask: u32 = 0;
    if compare_relative_to_water(around.north_west, level, water) {
        mask = mask + NORTH_WEST;
    }
    if compare_relative_to_water(around.north, level, water) {
        mask = mask + NORTH;
    }
    if compare_relative_to_water(around.north_east, level, water) {
        mask = mask + NORTH_EAST;
    }
    if compare_relative_to_water(around.west, level, water) {
        mask = mask + WEST;
    }
    if compare_relative_to_water(around.east, level, water) {
        mask = mask + EAST;
    }
    if compare_relative_to_water(around.south_west, level, water) {
        mask = mask + SOUTH_WEST;
    }
    if compare_relative_to_water(around.south, level, water) {
        mask = mask + SOUTH;
    }
    if compare_relative_to_water(around.south_east, level, water) {
        mask = mask + SOUTH_EAST;
    }
    mask
}

} // verus!
