//! Grid coordinates and the conversions between pixels, tiles and chunks.

use vstd::prelude::*;
use crate::error::ConfigError;

verus! {

/// A point of an integer grid: a pixel, a tile or a chunk, as the function says.
#[derive(Clone, Copy, Debug, PartialEq, Eq, Structural, Hash)]
pub struct GridPos {
    pub x: i32,
    pub y: i32,
}

/// The position of a tile inside its chunk.
#[derive(Clone, Copy, Debug, PartialEq, Eq, Structural, Hash)]
pub struct TilePos {
    pub x: u32,
    pub y: u32,
}

/// A pixel position that may lie beyond the range of `i32`.
#[derive(Clone, Copy, Debug, PartialEq, Eq, Structural, Hash)]
pub struct PixelPos {
    pub x: i64,
    pub y: i64,
}

/// Quotient of `a` by a positive `d`, rounded toward zero.
pub open spec fn trunc_div(a: int, d: int) -> int {
    if a >= 0 {
        a / d
    } else {
        -((-a) / d)
    }
}

/// What is left of `a` beside `trunc_div(a, d)` times `d`.
pub open spec fn trunc_rem(a: int, d: int) -> int {
    a - d * trunc_div(a, d)
}

/// How floor division and truncating division relate, for a positive divisor.
pub proof fn lemma_floor_from_trunc(a: int, d: int)
    requires
        d > 0,
    ensures
        -d < trunc_rem(a, d) < d,
        trunc_rem(a, d) < 0 ==> a / d == trunc_div(a, d) - 1 && a % d == trunc_rem(a, d) + d,
        trunc_rem(a, d) >= 0 ==> a / d == trunc_div(a, d) && a % d == trunc_rem(a, d),
        a >= 0 ==> 0 <= trunc_div(a, d) <= a,
        a < 0 ==> a <= trunc_div(a, d) <= 0,
        trunc_rem(a, d) == (if a >= 0 { a % d } else { -((-a) % d) }),
        a < 0 ==> a <= a / d < 0,
        a >= 0 ==> 0 <= a / d <= a,
{
    vstd::arithmetic::div_mod::lemma_fundamental_div_mod(a, d);
    vstd::arithmetic::div_mod::lemma_fundamental_div_mod(-a, d);
    vstd::arithmetic::div_mod::lemma_mod_bound(a, d);
    vstd::arithmetic::div_mod::lemma_mod_bound(-a, d);
    let q = trunc_div(a, d);
    let m = trunc_rem(a, d);
    assert(a == d * q + m) by (nonlinear_arith)
        requires m == a - d * q;
    if a >= 0 {
        assert(q == a / d);
        assert(0 <= q <= a) by (nonlinear_arith)
            requires a == d * q + m, 0 <= m < d, d > 0, a >= 0;
    } else {
        assert(a <= a / d < 0) by (nonlinear_arith)
            requires a == d * (a / d) + a % d, 0 <= a % d < d, d > 0, a < 0;
        let p = (-a) / d;
        let n = (-a) % d;
        assert(q == -p);
        assert(-a == d * p + n);
        assert(m == -n) by (nonlinear_arith)
            requires m == a - d * q, q == -p, -a == d * p + n;
        assert(0 <= p <= -a) by (nonlinear_arith)
            requires -a == d * p + n, 0 <= n < d, d > 0, a < 0;
        if n == 0 {
            vstd::arithmetic::div_mod::lemma_fundamental_div_mod_converse(a, d, q, 0);
        } else {
            assert(a == (q - 1) * d + (d - n)) by (nonlinear_arith)
                requires -a == d * p + n, q == -p;
            vstd::arithmetic::div_mod::lemma_fundamental_div_mod_converse(a, d, q - 1, d - n);
        }
    }
}

/// Floor division by a positive number, and the remainder that goes with it,
/// which is never negative.
pub fn div_rem_floor(a: i32, d: i32) -> (r: (i32, i32))
    requires
        d > 0,
    ensures
        r.0 == a as int / d as int,
        r.1 == a as int % d as int,
        0 <= r.1 < d,
{
    let q: i32 = a / d;
    let m: i32 = a % d;
    proof {
        lemma_floor_from_trunc(a as int, d as int);
    }
    if m < 0 {
        (q - 1, m + d)
    } else {
        (q, m)
    }
}

/// The product of an `i32` or `u32` and a `u32` lies well inside `i64`.
pub proof fn lemma_product_range(a: int, b: int)
    requires
        -0x8000_0000 <= a <= 0xffff_ffff,
        0 <= b <= 0xffff_ffff,
    ensures
        -0x7fff_ffff_8000_0000 <= a * b <= 0xffff_fffe_0000_0001,
        a <= 0x7fff_ffff ==> a * b <= 0x7fff_fffe_8000_0001,
{
    assert(-0x7fff_ffff_8000_0000 <= a * b <= 0xffff_fffe_0000_0001) by (nonlinear_arith)
        requires
            -0x8000_0000 <= a <= 0xffff_ffff,
            0 <= b <= 0xffff_ffff,
    ;
    if a <= 0x7fff_ffff {
        assert(a * b <= 0x7fff_fffe_8000_0001) by (nonlinear_arith)
            requires
                a <= 0x7fff_ffff,
                0 <= b <= 0xffff_ffff,
        ;
    }
}

/// The extent of a chunk in tiles and of a tile in pixels.
#[derive(Clone, Copy, Debug)]
pub struct ChunkLayout {
    width: u32,
    height: u32,
    tile_px: u32,
}

impl ChunkLayout {
    /// The number of tiles in a row of a chunk.
    pub closed spec fn spec_width(&self) -> u32 {
        self.width
    }

    /// The number of tiles in a column of a chunk.
    pub closed spec fn spec_height(&self) -> u32 {
        self.height
    }

    /// The length of a tile's side in pixels.
    pub closed spec fn spec_tile_px(&self) -> u32 {
        self.tile_px
    }

    /// What `new` accepts: no extent is zero, and a chunk's width and
    /// height in pixels are `i32`.
    pub open spec fn valid(width: u32, height: u32, tile_px: u32) -> bool {
        &&& width >= 1
        &&& height >= 1
        &&& tile_px >= 1
        &&& width * tile_px <= i32::MAX
        &&& height * tile_px <= i32::MAX
    }

    pub open spec fn wf(&self) -> bool {
        Self::valid(self.spec_width(), self.spec_height(), self.spec_tile_px())
    }

    /// A layout of `width` by `height` tiles of `tile_px` pixels each.
    pub fn new(width: u32, height: u32, tile_px: u32) -> (r: Result<ChunkLayout, ConfigError>)
        ensures
            match r {
                Ok(layout) => {
                    &&& layout.wf()
                    &&& layout.spec_width() == width
                    &&& layout.spec_height() == height
                    &&& layout.spec_tile_px() == tile_px
                },
                Err(e) => !Self::valid(width, height, tile_px) && e == (if width == 0 || height == 0
                    || tile_px == 0 {
                    ConfigError::EmptyExtent
                } else {
                    ConfigError::ExtentTooLarge
                }),
            },
    {
        if width == 0 || height == 0 || tile_px == 0 {
            return Err(ConfigError::EmptyExtent);
        }
        let limit: u64 = 0x7fff_ffff;
        proof {
            lemma_product_range(width as int, tile_px as int);
            lemma_product_range(height as int, tile_px as int);
        }
        if width as u64 * tile_px as u64 > limit || height as u64 * tile_px as u64 > limit {
            return Err(ConfigError::ExtentTooLarge);
        }
        Ok(ChunkLayout { width, height, tile_px })
    }

    pub fn width(&self) -> (w: u32)
        ensures
            w == self.spec_width(),
    {
        self.width
    }

    pub fn height(&self) -> (h: u32)
        ensures
            h == self.spec_height(),
    {
        self.height
    }

    pub fn tile_px(&self) -> (px: u32)
        ensures
            px == self.spec_tile_px(),
    {
        self.tile_px
    }

    /// Whether every tile of `chunk`, and every neighbour of such a tile, has
    /// `i32` coordinates.
    pub open spec fn holds(&self, chunk: GridPos) -> bool {
        &&& i32::MIN < chunk.x * self.spec_width() - 1
        &&& chunk.x * self.spec_width() + self.spec_width() <= i32::MAX
        &&& i32::MIN < chunk.y * self.spec_height() - 1
        &&& chunk.y * self.spec_height() + self.spec_height() <= i32::MAX
    }

    /// Whether every tile of `chunk`, and every neighbour of such a tile, has
    /// `i32` coordinates.
    pub fn can_hold(&self, chunk: &GridPos) -> (r: bool)
        requires
            self.wf(),
        ensures
            r == self.holds(*chunk),
    {
        proof {
            lemma_product_range(chunk.x as int, self.width as int);
            lemma_product_range(chunk.y as int, self.height as int);
        }
        let left: i64 = chunk.x as i64 * self.width as i64;
        let low: i64 = chunk.y as i64 * self.height as i64;
        (i32::MIN as i64) < left - 1 && left + self.width as i64 <= i32::MAX as i64 && (
        i32::MIN as i64) < low - 1 && low + self.height as i64 <= i32::MAX as i64
    }

    /// The chunk that holds a tile: the floor of the tile's coordinates by
    /// the chunk's extent.
    pub open spec fn chunk_of(&self, tile: GridPos) -> GridPos {
        GridPos {
            x: (tile.x as int / self.spec_width() as int) as i32,
            y: (tile.y as int / self.spec_height() as int) as i32,
        }
    }

    /// Where a tile lies in its chunk: the remainder of that division,
    /// which is never negative.
    pub open spec fn offset_in_chunk(&self, tile: GridPos) -> TilePos {
        TilePos {
            x: (tile.x as int % self.spec_width() as int) as u32,
            y: (tile.y as int % self.spec_height() as int) as u32,
        }
    }

    /// The pixel at which a chunk starts.
    pub open spec fn anchor(&self, chunk: GridPos) -> PixelPos {
        PixelPos {
            x: (chunk.x * (self.spec_width() * self.spec_tile_px())) as i64,
            y: (chunk.y * (self.spec_height() * self.spec_tile_px())) as i64,
        }
    }
}

/// The chunk in which a pixel lies, counted from the origin: the pixel's
/// coordinates by the chunk's extent in pixels, rounded toward zero.
pub fn pixel_pos_to_chunk_pos(pixel_pos: &GridPos, layout: &ChunkLayout) -> (chunk: GridPos)
    requires
        layout.wf(),
    ensures
        chunk.x == trunc_div(pixel_pos.x as int, layout.spec_width() * layout.spec_tile_px()),
        chunk.y == trunc_div(pixel_pos.y as int, layout.spec_height() * layout.spec_tile_px()),
{
    let span_x: i32 = (layout.width * layout.tile_px) as i32;
    let span_y: i32 = (layout.height * layout.tile_px) as i32;
    assert(span_x >= 1 && span_y >= 1) by (nonlinear_arith)
        requires
            span_x == layout.width * layout.tile_px,
            span_y == layout.height * layout.tile_px,
            layout.width >= 1,
            layout.height >= 1,
            layout.tile_px >= 1,
    ;
    GridPos { x: pixel_pos.x / span_x, y: pixel_pos.y / span_y }
}

/// The pixel at which a chunk starts.
pub fn chunk_pos_to_pixel_pos(chunk_pos: &GridPos, layout: &ChunkLayout) -> (pixel: PixelPos)
    requires
        layout.wf(),
    ensures
        pixel == layout.anchor(*chunk_pos),
        pixel.x == chunk_pos.x * (layout.spec_width() * layout.spec_tile_px()),
        pixel.y == chunk_pos.y * (layout.spec_height() * layout.spec_tile_px()),
{
    let span_x: i64 = (layout.width * layout.tile_px) as i64;
    let span_y: i64 = (layout.height * layout.tile_px) as i64;
    assert(-0x8000_0000 * 0x7fff_ffff <= chunk_pos.x * span_x <= 0x7fff_ffff * 0x7fff_ffff
        && -0x8000_0000 * 0x7fff_ffff <= chunk_pos.y * span_y <= 0x7fff_ffff * 0x7fff_ffff)
        by (nonlinear_arith)
        requires
            0 <= span_x <= 0x7fff_ffff,
            0 <= span_y <= 0x7fff_ffff,
            -0x8000_0000 <= chunk_pos.x <= 0x7fff_ffff,
            -0x8000_0000 <= chunk_pos.y <= 0x7fff_ffff,
    ;
    PixelPos { x: chunk_pos.x as i64 * span_x, y: chunk_pos.y as i64 * span_y }
}

/// The tile in which a pixel lies, counted from the origin: the pixel's
/// coordinates by the tile's side, rounded toward zero.
pub fn pixel_pos_to_tile_pos(pixel_pos: &GridPos, layout: &ChunkLayout) -> (tile: GridPos)
    requires
        layout.wf(),
    ensures
        tile.x == trunc_div(pixel_pos.x as int, layout.spec_tile_px() as int),
        tile.y == trunc_div(pixel_pos.y as int, layout.spec_tile_px() as int),
{
    assert(layout.tile_px <= i32::MAX) by (nonlinear_arith)
        requires
            layout.width * layout.tile_px <= i32::MAX,
            layout.width >= 1,
    ;
    let side: i32 = layout.tile_px as i32;
    GridPos { x: pixel_pos.x / side, y: pixel_pos.y / side }
}

/// The chunk that holds a tile.
pub fn tile_pos_to_chunk_pos(tile_pos: &GridPos, layout: &ChunkLayout) -> (chunk: GridPos)
    requires
        layout.wf(),
    ensures
        chunk == layout.chunk_of(*tile_pos),
        chunk.x == tile_pos.x as int / layout.spec_width() as int,
        chunk.y == tile_pos.y as int / layout.spec_height() as int,
{
    proof {
        lemma_extent_is_i32(*layout);
    }
    let (x, _) = div_rem_floor(tile_pos.x, layout.width as i32);
    let (y, _) = div_rem_floor(tile_pos.y, layout.height as i32);
    GridPos { x, y }
}

/// Where a tile lies in the chunk that holds it.
pub fn relative_tile_pos(tile_pos: &GridPos, layout: &ChunkLayout) -> (offset: TilePos)
    requires
        layout.wf(),
    ensures
        offset == layout.offset_in_chunk(*tile_pos),
        offset.x == tile_pos.x as int % layout.spec_width() as int,
        offset.y == tile_pos.y as int % layout.spec_height() as int,
        offset.x < layout.spec_width(),
        offset.y < layout.spec_height(),
{
    proof {
        lemma_extent_is_i32(*layout);
    }
    let (_, x) = div_rem_floor(tile_pos.x, layout.width as i32);
    let (_, y) = div_rem_floor(tile_pos.y, layout.height as i32);
    TilePos { x: x as u32, y: y as u32 }
}

/// The sides of a valid layout are `i32`.
pub proof fn lemma_extent_is_i32(layout: ChunkLayout)
    requires
        layout.wf(),
    ensures
        layout.spec_width() <= i32::MAX,
        layout.spec_height() <= i32::MAX,
        layout.spec_tile_px() <= i32::MAX,
{
    let w = layout.spec_width() as int;
    let h = layout.spec_height() as int;
    let t = layout.spec_tile_px() as int;
    assert(w <= w * t && h <= h * t && t <= w * t) by (nonlinear_arith)
        requires
            w >= 1,
            h >= 1,
            t >= 1,
    ;
}

/// A tile is the tile at its offset in its chunk: the chunk's coordinate
/// times the chunk's extent, plus the offset, gives the tile's coordinate
/// back, for negative coordinates too, and the offset lies inside the chunk.
pub proof fn lemma_chunk_round_trip(layout: ChunkLayout, tile: GridPos)
    requires
        layout.wf(),
    ensures
        layout.chunk_of(tile).x * layout.spec_width() + layout.offset_in_chunk(tile).x == tile.x,
        layout.chunk_of(tile).y * layout.spec_height() + layout.offset_in_chunk(tile).y == tile.y,
        layout.offset_in_chunk(tile).x < layout.spec_width(),
        layout.offset_in_chunk(tile).y < layout.spec_height(),
{
    lemma_extent_is_i32(layout);
    let w = layout.spec_width() as int;
    let h = layout.spec_height() as int;
    lemma_floor_from_trunc(tile.x as int, w);
    lemma_floor_from_trunc(tile.y as int, h);
    vstd::arithmetic::div_mod::lemma_fundamental_div_mod(tile.x as int, w);
    vstd::arithmetic::div_mod::lemma_fundamental_div_mod(tile.y as int, h);
    vstd::arithmetic::div_mod::lemma_mod_bound(tile.x as int, w);
    vstd::arithmetic::div_mod::lemma_mod_bound(tile.y as int, h);
    assert((tile.x as int / w) * w == w * (tile.x as int / w)) by (nonlinear_arith);
    assert((tile.y as int / h) * h == h * (tile.y as int / h)) by (nonlinear_arith);
}

} // verus!
