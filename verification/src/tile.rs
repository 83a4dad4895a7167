//! Tile art: which tile of the atlas a terrain level, and an edge mask, get.

use vstd::prelude::*;
use crate::error::ConfigError;
use crate::mask::MASK_LIMIT;
use crate::random::uniform_draw;

verus! {

/// A draw for a flat tile is uniform in `0..=DRAW_MAX`.
pub const DRAW_MAX: u32 = 1000;

/// Art indices and offsets stay at or below this, so that their sum is a `u32`.
pub const ART_LIMIT: u32 = 0x7fff_ffff;

/// Entry `i` has the greatest key that is at most `draw`.
pub open spec fn selects(entries: Seq<(u32, u32)>, draw: u32, i: int) -> bool {
    &&& 0 <= i < entries.len()
    &&& entries[i].0 <= draw
    &&& forall|j: int| 0 <= j < entries.len() && entries[j].0 <= draw ==> entries[j].0 <= entries[i].0
}

/// The art index that `draw` selects: that of the entry with the greatest key
/// at most `draw`.
pub open spec fn variant_of(entries: Seq<(u32, u32)>, draw: u32) -> u32 {
    entries[choose|i: int| selects(entries, draw, i)].1
}

pub open spec fn keys_ascending(entries: Seq<(u32, u32)>) -> bool {
    forall|i: int, j: int| 0 <= i < j < entries.len() ==> entries[i].0 < entries[j].0
}

pub open spec fn arts_in_range(entries: Seq<(u32, u32)>) -> bool {
    forall|i: int| 0 <= i < entries.len() ==> entries[i].1 <= ART_LIMIT
}

/// What is wrong with a variant table, if anything; the first of the four
/// checks that fails names the fault.
pub open spec fn variant_fault(entries: Seq<(u32, u32)>) -> Option<ConfigError> {
    if entries.len() == 0 {
        Some(ConfigError::NoVariants)
    } else if entries[0].0 != 0 {
        Some(ConfigError::FirstKeyNotZero)
    } else if !keys_ascending(entries) {
        Some(ConfigError::KeysNotAscending)
    } else if !arts_in_range(entries) {
        Some(ConfigError::ArtOutOfRange)
    } else {
        None
    }
}

/// In a table with ascending keys, the entry that a draw selects is the one
/// whose key is at most the draw and whose successor's key, if it has one,
/// is above it.
pub proof fn lemma_selection(entries: Seq<(u32, u32)>, draw: u32, i: int)
    requires
        keys_ascending(entries),
        0 <= i < entries.len(),
        entries[i].0 <= draw,
        i + 1 < entries.len() ==> draw < entries[i + 1].0,
    ensures
        selects(entries, draw, i),
        variant_of(entries, draw) == entries[i].1,
{
    assert forall|j: int| 0 <= j < entries.len() && entries[j].0 <= draw implies entries[j].0
        <= entries[i].0 by {
        if j > i {
            assert(entries[i + 1].0 <= entries[j].0);
        }
    }
    assert(selects(entries, draw, i));
    let k = choose|k: int| selects(entries, draw, k);
    if k < i {
        assert(entries[k].0 < entries[i].0);
    } else if i < k {
        assert(entries[i].0 < entries[k].0);
    }
}

/// The weighted variants of one terrain level: pairs of a key and an art
/// index, with ascending keys that start at zero. A draw selects the entry
/// with the greatest key at most the draw, so an entry's share is the
/// distance to the next key.
#[derive(Debug)]
pub struct VariantTable {
    entries: Vec<(u32, u32)>,
}

impl View for VariantTable {
    type V = Seq<(u32, u32)>;

    closed spec fn view(&self) -> Seq<(u32, u32)> {
        self.entries@
    }
}

impl VariantTable {
    pub open spec fn wf(&self) -> bool {
        variant_fault(self@) is None
    }

    /// Loads a table, or names its fault.
    pub fn new(entries: Vec<(u32, u32)>) -> (r: Result<VariantTable, ConfigError>)
        ensures
            match r {
                Ok(table) => table@ == entries@ && table.wf(),
                Err(e) => variant_fault(entries@) == Some(e),
            },
    {
        if entries.len() == 0 {
            return Err(ConfigError::NoVariants);
        }
        if entries[0].0 != 0 {
            return Err(ConfigError::FirstKeyNotZero);
        }
        let mut i: usize = 1;
        while i < entries.len()
            invariant
                1 <= i <= entries.len(),
                entries@[0].0 == 0,
                forall|a: int, b: int| 0 <= a < b < i ==> entries@[a].0 < entries@[b].0,
            decreases entries.len() - i,
        {
            if entries[i - 1].0 >= entries[i].0 {
                assert(!keys_ascending(entries@)) by {
                    assert(entries@[i - 1].0 >= entries@[i as int].0);
                }
                return Err(ConfigError::KeysNotAscending);
            }
            i += 1;
        }
        let mut k: usize = 0;
        while k < entries.len()
            invariant
                0 <= k <= entries.len(),
                entries@.len() > 0,
                entries@[0].0 == 0,
                keys_ascending(entries@),
                forall|a: int| 0 <= a < k ==> entries@[a].1 <= ART_LIMIT,
            decreases entries.len() - k,
        {
            if entries[k].1 > ART_LIMIT {
                assert(!arts_in_range(entries@)) by {
                    assert(entries@[k as int].1 > ART_LIMIT);
                }
                return Err(ConfigError::ArtOutOfRange);
            }
            k += 1;
        }
        Ok(VariantTable { entries })
    }

    /// The art index that `draw` selects.
    pub fn pick(&self, draw: u32) -> (art: u32)
        requires
            self.wf(),
        ensures
            art == variant_of(self@, draw),
            art <= ART_LIMIT,
            exists|i: int| selects(self@, draw, i) && art == self@[i].1,
    {
        let mut i: usize = 0;
        while i + 1 < self.entries.len() && self.entries[i + 1].0 <= draw
            invariant
                self.wf(),
                self@.len() == self.entries.len(),
                0 <= i < self@.len(),
                self@[i as int].0 <= draw,
            decreases self@.len() - i,
        {
            i += 1;
        }
        proof {
            lemma_selection(self@, draw, i as int);
        }
        self.entries[i].1
    }
}

/// The art of one terrain level: where its tiles start in the atlas, and the
/// variants of its flat tile.
#[derive(Debug)]
pub struct LevelArt {
    offset: u32,
    variants: VariantTable,
}

impl LevelArt {
    pub closed spec fn spec_offset(&self) -> u32 {
        self.offset
    }

    pub closed spec fn variants(&self) -> Seq<(u32, u32)> {
        self.variants@
    }

    pub open spec fn wf(&self) -> bool {
        &&& self.spec_offset() <= ART_LIMIT
        &&& variant_fault(self.variants()) is None
    }

    /// The art of a level, or `ArtOutOfRange` for an offset above `ART_LIMIT`.
    pub fn new(offset: u32, variants: VariantTable) -> (r: Result<LevelArt, ConfigError>)
        requires
            variants.wf(),
        ensures
            match r {
                Ok(art) => art.wf() && art.spec_offset() == offset && art.variants() == variants@,
                Err(e) => e == ConfigError::ArtOutOfRange && offset > ART_LIMIT,
            },
    {
        if offset > ART_LIMIT {
            Err(ConfigError::ArtOutOfRange)
        } else {
            Ok(LevelArt { offset, variants })
        }
    }
}

/// The fault of pair `i` of a corner list, if it has one: a mask with a bit
/// outside the eight, an art index out of range, or a mask that an earlier
/// pair has already.
pub open spec fn corner_fault(pairs: Seq<(u32, u32)>, i: int) -> Option<ConfigError> {
    if pairs[i].0 >= MASK_LIMIT {
        Some(ConfigError::MaskOutOfRange)
    } else if pairs[i].1 > ART_LIMIT {
        Some(ConfigError::ArtOutOfRange)
    } else if exists|j: int| 0 <= j < i && pairs[j].0 == pairs[i].0 {
        Some(ConfigError::DuplicateMask)
    } else {
        None
    }
}

/// The corner table: for each edge mask that the atlas has art for, the index
/// of that art within a level's tiles.
#[derive(Debug)]
pub struct CornerTable {
    slots: Vec<Option<u32>>,
}

impl CornerTable {
    /// The art index of `mask`, if the table has one.
    pub closed spec fn lookup(&self, mask: u32) -> Option<u32> {
        if mask < self.slots@.len() {
            self.slots@[mask as int]
        } else {
            None
        }
    }

    pub closed spec fn wf(&self) -> bool {
        &&& self.slots@.len() == MASK_LIMIT
        &&& forall|m: int|
            0 <= m < self.slots@.len() ==> match #[trigger] self.slots@[m] {
                Some(art) => art <= ART_LIMIT,
                None => true,
            }
    }

    /// A well-formed table knows only masks below `MASK_LIMIT`, and only art
    /// indices up to `ART_LIMIT`.
    pub proof fn lemma_lookup_in_range(&self, mask: u32)
        requires
            self.wf(),
        ensures
            match self.lookup(mask) {
                Some(art) => mask < MASK_LIMIT && art <= ART_LIMIT,
                None => true,
            },
    {
    }

    /// Loads the table from pairs of a mask and an art index, or names the
    /// fault of the first pair that has one.
    pub fn new(pairs: &Vec<(u32, u32)>) -> (r: Result<CornerTable, ConfigError>)
        ensures
            match r {
                Ok(table) => {
                    &&& table.wf()
                    &&& forall|i: int| 0 <= i < pairs@.len() ==> corner_fault(pairs@, i) is None
                    &&& forall|i: int|
                        0 <= i < pairs@.len() ==> table.lookup(#[trigger] pairs@[i].0) == Some(
                            pairs@[i].1,
                        )
                    &&& forall|mask: u32|
                        table.lookup(mask) is Some ==> exists|i: int|
                            0 <= i < pairs@.len() && pairs@[i].0 == mask
                },
                Err(e) => exists|i: int|
                    {
                        &&& 0 <= i < pairs@.len()
                        &&& corner_fault(pairs@, i) == Some(e)
                        &&& forall|j: int| 0 <= j < i ==> corner_fault(pairs@, j) is None
                    },
            },
    {
        let mut slots: Vec<Option<u32>> = Vec::new();
        let mut m: u32 = 0;
        while m < MASK_LIMIT
            invariant
                0 <= m <= MASK_LIMIT,
                slots@.len() == m,
                forall|k: int| 0 <= k < m ==> slots@[k] is None,
            decreases MASK_LIMIT - m,
        {
            slots.push(None);
            m += 1;
        }
        let mut i: usize = 0;
        while i < pairs.len()
            invariant
                0 <= i <= pairs@.len(),
                slots@.len() == MASK_LIMIT,
                forall|j: int| 0 <= j < i ==> corner_fault(pairs@, j) is None,
                forall|j: int|
                    0 <= j < i ==> (#[trigger] pairs@[j]).0 < MASK_LIMIT && slots@[pairs@[j].0 as int]
                        == Some(pairs@[j].1),
                forall|k: int|
                    0 <= k < MASK_LIMIT && (#[trigger] slots@[k]) is Some ==> exists|j: int|
                        0 <= j < i && pairs@[j].0 == k,
            decreases pairs@.len() - i,
        {
            let (mask, art) = pairs[i];
            if mask >= MASK_LIMIT {
                assert(corner_fault(pairs@, i as int) == Some(ConfigError::MaskOutOfRange));
                return Err(ConfigError::MaskOutOfRange);
            }
            if art > ART_LIMIT {
                assert(corner_fault(pairs@, i as int) == Some(ConfigError::ArtOutOfRange));
                return Err(ConfigError::ArtOutOfRange);
            }
            if slots[mask as usize].is_some() {
                proof {
                    let j = choose|j: int| 0 <= j < i && pairs@[j].0 == mask as int;
                    assert(0 <= j < i && pairs@[j].0 == pairs@[i as int].0);
                    assert(corner_fault(pairs@, i as int) == Some(ConfigError::DuplicateMask));
                }
                return Err(ConfigError::DuplicateMask);
            }
            proof {
                if exists|j: int| 0 <= j < i && pairs@[j].0 == pairs@[i as int].0 {
                    let j = choose|j: int| 0 <= j < i && pairs@[j].0 == pairs@[i as int].0;
                    assert(slots@[pairs@[j].0 as int] == Some(pairs@[j].1));
                }
                assert(corner_fault(pairs@, i as int) is None);
            }
            let ghost before = slots@;
            slots.set(mask as usize, Some(art));
            proof {
                assert forall|j: int| 0 <= j < i + 1 implies (#[trigger] pairs@[j]).0 < MASK_LIMIT
                    && slots@[pairs@[j].0 as int] == Some(pairs@[j].1) by {
                    if j < i {
                        assert(corner_fault(pairs@, j) is None);
                        assert(before[pairs@[j].0 as int] == Some(pairs@[j].1));
                    }
                }
                assert forall|k: int|
                    0 <= k < MASK_LIMIT && (#[trigger] slots@[k]) is Some implies exists|j: int|
                    0 <= j < i + 1 && pairs@[j].0 == k by {
                    if k == mask {
                        assert(pairs@[i as int].0 == k);
                    } else {
                        assert(before[k] is Some);
                        let j = choose|j: int| 0 <= j < i && pairs@[j].0 == k;
                        assert(0 <= j < i + 1 && pairs@[j].0 == k);
                    }
                }
            }
            i += 1;
        }
        let table = CornerTable { slots };
        proof {
            assert forall|m: int| 0 <= m < table.slots@.len() implies match #[trigger] table.slots@[m] {
                Some(art) => art <= ART_LIMIT,
                None => true,
            } by {
                if table.slots@[m] is Some {
                    let j = choose|j: int| 0 <= j < pairs@.len() && pairs@[j].0 == m;
                    assert(corner_fault(pairs@, j) is None);
                    assert(table.slots@[pairs@[j].0 as int] == Some(pairs@[j].1));
                }
            }
            assert forall|i: int| 0 <= i < pairs@.len() implies table.lookup(
                #[trigger] pairs@[i].0,
            ) == Some(pairs@[i].1) by {
                assert(corner_fault(pairs@, i) is None);
            }
            assert forall|mask: u32| table.lookup(mask) is Some implies exists|i: int|
                0 <= i < pairs@.len() && pairs@[i].0 == mask by {
                assert(table.slots@[mask as int] is Some);
                let j = choose|j: int| 0 <= j < pairs@.len() && pairs@[j].0 == mask as int;
                assert(0 <= j < pairs@.len() && pairs@[j].0 == mask);
            }
        }
        Ok(table)
    }

    /// The art index of `mask`, if the table has one.
    pub fn get(&self, mask: u32) -> (r: Option<u32>)
        ensures
            r == self.lookup(mask),
    {
        if (mask as usize) < self.slots.len() {
            self.slots[mask as usize]
        } else {
            None
        }
    }
}

/// The tile art of a world: the art of each terrain level, in the order of
/// the levels, and the corner table.
#[derive(Debug)]
pub struct TileSet {
    levels: Vec<LevelArt>,
    corners: CornerTable,
}

impl TileSet {
    pub closed spec fn levels(&self) -> Seq<LevelArt> {
        self.levels@
    }

    pub closed spec fn corners(&self) -> CornerTable {
        self.corners
    }

    pub open spec fn wf(&self) -> bool {
        &&& self.corners().wf()
        &&& forall|i: int| 0 <= i < self.levels().len() ==> (#[trigger] self.levels()[i]).wf()
    }

    /// Whether art is configured for `level`.
    pub open spec fn has_level(&self, level: u32) -> bool {
        level < self.levels().len()
    }

    /// Whether the corner table has art for `mask`.
    pub open spec fn has_mask(&self, mask: u32) -> bool {
        self.corners().lookup(mask) is Some
    }

    /// The flat tile of `level` that `draw` selects: the variant of the draw,
    /// moved by the level's offset.
    pub open spec fn flat_tile(&self, level: u32, draw: u32) -> int {
        variant_of(self.levels()[level as int].variants(), draw) + self.levels()[level as int].spec_offset()
    }

    /// The border tile of `mask` on `level`: the corner art of the mask,
    /// moved by the level's offset.
    pub open spec fn border_tile(&self, mask: u32, level: u32) -> int {
        self.corners().lookup(mask)->Some_0 + self.levels()[level as int].spec_offset()
    }

    pub fn new(levels: Vec<LevelArt>, corners: CornerTable) -> (tiles: TileSet)
        requires
            corners.wf(),
            forall|i: int| 0 <= i < levels@.len() ==> (#[trigger] levels@[i]).wf(),
        ensures
            tiles.wf(),
            tiles.levels() == levels@,
            tiles.corners() == corners,
    {
        TileSet { levels, corners }
    }

    /// The number of levels that art is configured for.
    pub fn level_count(&self) -> (n: usize)
        ensures
            n == self.levels().len(),
    {
        self.levels.len()
    }

    /// Whether art is configured for `level`.
    pub fn knows_level(&self, level: u32) -> (known: bool)
        ensures
            known == self.has_level(level),
    {
        (level as usize) < self.levels.len()
    }

    /// The corner art of `mask`, if the table has one.
    pub fn corner(&self, mask: u32) -> (art: Option<u32>)
        ensures
            art == self.corners().lookup(mask),
    {
        self.corners.get(mask)
    }
}

/// The flat tile of `level` for a given draw.
pub fn tile_id_for_draw(tiles: &TileSet, level: u32, draw: u32) -> (id: u32)
    requires
        tiles.wf(),
        tiles.has_level(level),
    ensures
        id == tiles.flat_tile(level, draw),
{
    let art = &tiles.levels[level as usize];
    assert(art.wf());
    art.variants.pick(draw) + art.offset
}

/// A flat tile of `level`, its variant drawn uniformly from `0..=DRAW_MAX`.
pub fn get_random_tile_id(tiles: &TileSet, level: u32) -> (id: u32)
    requires
        tiles.wf(),
        tiles.has_level(level),
    ensures
        exists|draw: u32| draw <= DRAW_MAX && id == tiles.flat_tile(level, draw),
{
    let draw: u32 = uniform_draw(DRAW_MAX);
    tile_id_for_draw(tiles, level, draw)
}

/// The border tile of an edge mask on the terrain level `value`.
pub fn mask_to_id(tiles: &TileSet, mask: u32, value: u32) -> (id: u32)
    requires
        tiles.wf(),
        tiles.has_mask(mask),
        tiles.has_level(value),
    ensures
        id == tiles.border_tile(mask, value),
{
    let art = &tiles.levels[value as usize];
    assert(art.wf());
    proof {
        tiles.corners.lemma_lookup_in_range(mask);
    }
    match tiles.corners.get(mask) {
        Some(corner) => corner + art.offset,
        None => art.offset,
    }
}

} // verus!
