//! The terrain field: a height sampler, classified into levels, behind a
//! bounded cache.

use vstd::prelude::*;
use crate::cache::{cache_entries, cache_get, cache_insert, cache_new, LevelCache};
use crate::layers::{layer_of, lemma_bound_at_least_index, lemma_layer_in_range, LayerTable};
use crate::mask::{
    compute_mask, edge_mask, water_side, Neighbors, EAST, MASK_LIMIT, NORTH, NORTH_EAST,
    NORTH_WEST, SOUTH, SOUTH_EAST, SOUTH_WEST, WEST,
};

verus! {

/// A sampler is a height field when it accepts every coordinate and gives
/// each coordinate one height.
pub open spec fn is_height_field<F: Fn(i32, i32) -> u32>(sampler: F) -> bool {
    &&& forall|x: i32, y: i32| call_requires(sampler, (x, y))
    &&& forall|x: i32, y: i32, a: u32, b: u32|
        call_ensures(sampler, (x, y), a) && call_ensures(sampler, (x, y), b) ==> a == b
}

/// The height that a sampler gives at a coordinate.
pub open spec fn height_at<F: Fn(i32, i32) -> u32>(sampler: F, x: i32, y: i32) -> u32 {
    choose|h: u32| call_ensures(sampler, (x, y), h)
}

/// The terrain that a field describes: what its levels and masks are
/// functions of. The cache is no part of it.
pub struct Terrain<F> {
    pub sampler: F,
    pub layers: Seq<u32>,
    pub water_level: u32,
}

impl<F: Fn(i32, i32) -> u32> Terrain<F> {
    /// The sampler is a height field and the threshold table is valid.
    pub open spec fn wf(self) -> bool {
        &&& is_height_field(self.sampler)
        &&& LayerTable::valid(self.layers)
    }

    /// The terrain level of the tile at `(x, y)`.
    pub open spec fn level_at(self, x: i32, y: i32) -> u32 {
        layer_of(self.layers, height_at(self.sampler, x, y)) as u32
    }

    /// The levels of the eight tiles around `(x, y)`.
    pub open spec fn neighbors_at(self, x: i32, y: i32) -> Neighbors {
        Neighbors {
            north_west: self.level_at((x - 1) as i32, (y + 1) as i32),
            north: self.level_at(x, (y + 1) as i32),
            north_east: self.level_at((x + 1) as i32, (y + 1) as i32),
            west: self.level_at((x - 1) as i32, y),
            east: self.level_at((x + 1) as i32, y),
            south_west: self.level_at((x - 1) as i32, (y - 1) as i32),
            south: self.level_at(x, (y - 1) as i32),
            south_east: self.level_at((x + 1) as i32, (y - 1) as i32),
        }
    }

    /// The edge mask of a tile of level `value` at `(x, y)`.
    pub open spec fn mask_at(self, value: u32, x: i32, y: i32) -> u32 {
        edge_mask(value, self.water_level, self.neighbors_at(x, y)) as u32
    }
}

/// Whether `key` is one of the eight tiles around `(x, y)`.
pub open spec fn is_around(key: (i32, i32), x: i32, y: i32) -> bool {
    &&& x - 1 <= key.0 <= x + 1
    &&& y - 1 <= key.1 <= y + 1
    &&& key != (x, y)
}

/// A tiled terrain field. The sampler gives a height for every tile, the
/// threshold table turns it into a level, and the cache remembers levels.
pub struct TiledNoise<F> {
    sampler: F,
    layers: LayerTable,
    water_level: u32,
    cache: LevelCache,
}

impl<F: Fn(i32, i32) -> u32> View for TiledNoise<F> {
    type V = Terrain<F>;

    closed spec fn view(&self) -> Terrain<F> {
        Terrain { sampler: self.sampler, layers: self.layers@, water_level: self.water_level }
    }
}

impl<F: Fn(i32, i32) -> u32> TiledNoise<F> {
    /// The levels that the cache holds.
    pub closed spec fn cached(&self) -> Map<(i32, i32), u32> {
        cache_entries(self.cache)
    }

    /// The terrain is well formed, and every cached level is the level of
    /// its tile.
    pub open spec fn wf(&self) -> bool {
        &&& self@.wf()
        &&& forall|key: (i32, i32)| #[trigger]
            self.cached().contains_key(key) ==> self.cached()[key] == self@.level_at(key.0, key.1)
    }

    /// A field over `sampler` with an empty cache for about `cache_size` levels.
    pub fn new(sampler: F, layers: LayerTable, water_level: u32, cache_size: usize) -> (noise: Self)
        requires
            is_height_field(sampler),
            layers.wf(),
        ensures
            noise.wf(),
            noise@.sampler == sampler,
            noise@.layers == layers@,
            noise@.water_level == water_level,
            noise.cached() == Map::<(i32, i32), u32>::empty(),
    {
        let cache = cache_new(cache_size);
        assert(cache_entries(cache) =~= Map::<(i32, i32), u32>::empty());
        TiledNoise { sampler, layers, water_level, cache }
    }

    /// The level that takes part in no edge: the water line.
    pub fn water_level(&self) -> (water: u32)
        ensures
            water == self@.water_level,
    {
        self.water_level
    }

    /// The number of terrain levels of the threshold table.
    pub fn level_count(&self) -> (n: u32)
        requires
            self.wf(),
        ensures
            n == self@.layers.len() - 1,
    {
        self.layers.level_count()
    }

    /// The terrain level of the tile at `(x, y)`, from the cache where it
    /// holds the tile, else sampled, classified and offered to the cache.
    pub fn get_value(&mut self, x: i32, y: i32) -> (level: u32)
        requires
            old(self).wf(),
        ensures
            level == old(self)@.level_at(x, y),
            level < old(self)@.layers.len() - 1,
            final(self).wf(),
            final(self)@ == old(self)@,
            final(self).cached().submap_of(old(self).cached().insert((x, y), level)),
            old(self).cached().contains_key((x, y)) ==> final(self).cached() == old(self).cached(),
    {
        proof {
            lemma_layer_in_range(self@.layers, height_at(self@.sampler, x, y));
        }
        match cache_get(&self.cache, x, y) {
            Some(level) => {
                assert(self.cached().contains_key((x, y)));
                level
            },
            None => {
                let height: u32 = (self.sampler)(x, y);
                let level: u32 = self.layers.classify(height);
                cache_insert(&mut self.cache, x, y, level);
                proof {
                    assert(height == height_at(self@.sampler, x, y));
                    assert forall|key: (i32, i32)| #[trigger]
                        self.cached().contains_key(key) implies self.cached()[key]
                        == self@.level_at(key.0, key.1) by {
                        let offered = old(self).cached().insert((x, y), level);
                        assert(self.cached().submap_of(offered));
                        assert(offered.contains_key(key) && offered[key] == self.cached()[key]);
                        if key != (x, y) {
                            assert(old(self).cached().contains_key(key));
                        }
                    }
                }
                level
            },
        }
    }

    /// The level of the neighbour of `(x, y)` that lies `(dx, dy)` from it.
    fn level_beside(&mut self, x: i32, y: i32, dx: i32, dy: i32) -> (level: u32)
        requires
            old(self).wf(),
            i32::MIN < x < i32::MAX,
            i32::MIN < y < i32::MAX,
            -1 <= dx <= 1,
            -1 <= dy <= 1,
            dx != 0 || dy != 0,
        ensures
            level == old(self)@.level_at((x + dx) as i32, (y + dy) as i32),
            final(self).wf(),
            final(self)@ == old(self)@,
            forall|key: (i32, i32)| #[trigger]
                final(self).cached().contains_key(key) ==> old(self).cached().contains_key(key)
                    || is_around(key, x, y),
    {
        let level: u32 = self.get_value(x + dx, y + dy);
        assert forall|key: (i32, i32)| #[trigger]
            self.cached().contains_key(key) implies old(self).cached().contains_key(key)
            || is_around(key, x, y) by {
            assert(old(self).cached().insert(((x + dx) as i32, (y + dy) as i32), level).contains_key(
                key,
            ));
        }
        level
    }

    /// The edge mask of a tile of level `value` at `(x, y)`: one bit for each
    /// of the eight neighbours that lies on the water side of `value`.
    pub fn get_mask(&mut self, value: u32, x: i32, y: i32) -> (mask: u32)
        requires
            old(self).wf(),
            i32::MIN < x < i32::MAX,
            i32::MIN < y < i32::MAX,
        ensures
            mask == old(self)@.mask_at(value, x, y),
            mask < MASK_LIMIT,
            mask & NORTH_WEST != 0 <==> water_side(
                old(self)@.level_at((x - 1) as i32, (y + 1) as i32),
                value,
                old(self)@.water_level,
            ),
            mask & NORTH != 0 <==> water_side(
                old(self)@.level_at(x, (y + 1) as i32),
                value,
                old(self)@.water_level,
            ),
            mask & NORTH_EAST != 0 <==> water_side(
                old(self)@.level_at((x + 1) as i32, (y + 1) as i32),
                value,
                old(self)@.water_level,
            ),
            mask & WEST != 0 <==> water_side(
                old(self)@.level_at((x - 1) as i32, y),
                value,
                old(self)@.water_level,
            ),
            mask & EAST != 0 <==> water_side(
                old(self)@.level_at((x + 1) as i32, y),
                value,
                old(self)@.water_level,
            ),
            mask & SOUTH_WEST != 0 <==> water_side(
                old(self)@.level_at((x - 1) as i32, (y - 1) as i32),
                value,
                old(self)@.water_level,
            ),
            mask & SOUTH != 0 <==> water_side(
                old(self)@.level_at(x, (y - 1) as i32),
                value,
                old(self)@.water_level,
            ),
            mask & SOUTH_EAST != 0 <==> water_side(
                old(self)@.level_at((x + 1) as i32, (y - 1) as i32),
                value,
                old(self)@.water_level,
            ),
            final(self).wf(),
            final(self)@ == old(self)@,
            forall|key: (i32, i32)| #[trigger]
                final(self).cached().contains_key(key) ==> old(self).cached().contains_key(key)
                    || is_around(key, x, y),
    {
        let north: u32 = self.level_beside(x, y, 0, 1);
        let south: u32 = self.level_beside(x, y, 0, -1);
        let east: u32 = self.level_beside(x, y, 1, 0);
        let west: u32 = self.level_beside(x, y, -1, 0);
        let north_west: u32 = self.level_beside(x, y, -1, 1);
        let north_east: u32 = self.level_beside(x, y, 1, 1);
        let south_west: u32 = self.level_beside(x, y, -1, -1);
        let south_east: u32 = self.level_beside(x, y, 1, -1);
        let around = Neighbors {
            north_west,
            north,
            north_east,
            west,
            east,
            south_west,
            south,
            south_east,
        };
        assert(around == old(self)@.neighbors_at(x, y));
        compute_mask(value, self.water_level, &around)
    }
}

/// The level of a tile does not depend on the cache: two fields over the same
/// sampler and table give every tile the same level, whatever each has
/// cached; a cached level is the level that sampling gives; and that level
/// is the layer of the height that the sampler returns.
pub proof fn lemma_level_ignores_cache<F: Fn(i32, i32) -> u32>(
    cold: &TiledNoise<F>,
    warm: &TiledNoise<F>,
    x: i32,
    y: i32,
)
    requires
        cold.wf(),
        warm.wf(),
        cold@.sampler == warm@.sampler,
        cold@.layers == warm@.layers,
    ensures
        cold@.level_at(x, y) == warm@.level_at(x, y),
        warm.cached().contains_key((x, y)) ==> warm.cached()[(x, y)] == cold@.level_at(x, y),
        forall|h: u32|
            call_ensures(cold@.sampler, (x, y), h) ==> cold@.level_at(x, y) == layer_of(
                cold@.layers,
                h,
            ),
{
    assert forall|h: u32| call_ensures(cold@.sampler, (x, y), h) implies cold@.level_at(x, y)
        == layer_of(cold@.layers, h) by {
        assert(h == height_at(cold@.sampler, x, y));
        lemma_layer_in_range(cold@.layers, h);
        lemma_bound_at_least_index(cold@.layers, cold@.layers.len() - 1);
    }
}

} // verus!
