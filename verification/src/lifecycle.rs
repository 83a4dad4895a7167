//! The chunk lifecycle: which chunks to generate around a viewer, which
//! completions to apply, and which chunks to drop.

use vstd::prelude::*;
use crate::chunk_map::{
    distinct_coords, entries_without, index_of, lemma_entry_state, lemma_nothing_gone,
    lemma_without_one_more, states, tracks, ChunkEntry, ChunkMap, ChunkState,
};
use crate::error::ConfigError;
use crate::position::{
    chunk_pos_to_pixel_pos, lemma_floor_from_trunc, pixel_pos_to_chunk_pos,
    trunc_div, ChunkLayout, GridPos, PixelPos,
};

verus! {

/// The square of the distance between two pixels.
pub open spec fn distance_squared(a: PixelPos, b: GridPos) -> int {
    (a.x - b.x) * (a.x - b.x) + (a.y - b.y) * (a.y - b.y)
}

/// The farthest that the anchor of a chunk in the spawn window can lie from
/// the viewer, along one axis: `radius` chunks and the viewer's own, less
/// a pixel.
pub open spec fn reach(radius: u32, span: int) -> int {
    (radius + 1) * span - 1
}

/// The square of the farthest that the anchor of a chunk in the spawn window
/// can lie from the viewer; zero for a window without chunks.
pub open spec fn reach_squared(layout: ChunkLayout, radius_x: u32, radius_y: u32) -> int {
    if radius_x == 0 || radius_y == 0 {
        0
    } else {
        reach(radius_x, layout.spec_width() * layout.spec_tile_px()) * reach(
            radius_x,
            layout.spec_width() * layout.spec_tile_px(),
        ) + reach(radius_y, layout.spec_height() * layout.spec_tile_px()) * reach(
            radius_y,
            layout.spec_height() * layout.spec_tile_px(),
        )
    }
}

/// How chunks stream in and out: the layout of the chunks, the spawn window
/// around a viewer, and the distance beyond which a chunk is dropped.
#[derive(Clone, Copy, Debug)]
pub struct StreamConfig {
    layout: ChunkLayout,
    radius_x: u32,
    radius_y: u32,
    despawn_distance_squared: u64,
}

impl StreamConfig {
    pub closed spec fn layout(&self) -> ChunkLayout {
        self.layout
    }

    /// The number of chunks that the spawn window reaches to the left of the
    /// viewer's chunk; to the right it reaches one less.
    pub closed spec fn radius_x(&self) -> u32 {
        self.radius_x
    }

    /// The number of chunks that the spawn window reaches below the viewer's
    /// chunk; above it reaches one less.
    pub closed spec fn radius_y(&self) -> u32 {
        self.radius_y
    }

    /// A chunk is dropped when the square of its distance to every viewer
    /// is above this.
    pub closed spec fn despawn_distance_squared(&self) -> u64 {
        self.despawn_distance_squared
    }

    /// The layout is valid, and the despawn distance covers the reach of the
    /// spawn window.
    pub open spec fn wf(&self) -> bool {
        &&& self.layout().wf()
        &&& self.despawn_distance_squared() >= reach_squared(
            self.layout(),
            self.radius_x(),
            self.radius_y(),
        )
    }

    /// Loads a configuration, or rejects a despawn distance that lies
    /// inside the reach of the spawn window.
    pub fn new(
        layout: ChunkLayout,
        radius_x: u32,
        radius_y: u32,
        despawn_distance_squared: u64,
    ) -> (r: Result<StreamConfig, ConfigError>)
        requires
            layout.wf(),
        ensures
            match r {
                Ok(config) => {
                    &&& config.wf()
                    &&& config.layout() == layout
                    &&& config.radius_x() == radius_x
                    &&& config.radius_y() == radius_y
                    &&& config.despawn_distance_squared() == despawn_distance_squared
                },
                Err(e) => e == ConfigError::DespawnInsideSpawn && despawn_distance_squared
                    < reach_squared(layout, radius_x, radius_y),
            },
    {
        let span_x: u64 = layout.width() as u64 * layout.tile_px() as u64;
        let span_y: u64 = layout.height() as u64 * layout.tile_px() as u64;
        assert(1 <= span_x <= i32::MAX && 1 <= span_y <= i32::MAX) by (nonlinear_arith)
            requires
                span_x == layout.spec_width() * layout.spec_tile_px(),
                span_y == layout.spec_height() * layout.spec_tile_px(),
                layout.wf(),
        ;
        let reach_x: u64 = axis_reach(radius_x, span_x);
        let reach_y: u64 = axis_reach(radius_y, span_y);
        assert(reach_x * reach_x <= 0x4000_0000_0000_0000_0000_0000_0000_0000 && reach_y
            * reach_y <= 0x4000_0000_0000_0000_0000_0000_0000_0000) by (nonlinear_arith)
            requires
                reach_x <= 0x8000_0000_0000_0000,
                reach_y <= 0x8000_0000_0000_0000,
        ;
        let worst: u128 = if radius_x == 0 || radius_y == 0 {
            0
        } else {
            reach_x as u128 * reach_x as u128 + reach_y as u128 * reach_y as u128
        };
        if (despawn_distance_squared as u128) < worst {
            Err(ConfigError::DespawnInsideSpawn)
        } else {
            Ok(StreamConfig { layout, radius_x, radius_y, despawn_distance_squared })
        }
    }

    /// The layout of the chunks.
    pub fn chunk_layout(&self) -> (layout: ChunkLayout)
        ensures
            layout == self.layout(),
    {
        self.layout
    }
}

fn axis_reach(radius: u32, span: u64) -> (r: u64)
    requires
        1 <= span <= i32::MAX,
    ensures
        r == reach(radius, span as int),
        r <= 0x8000_0000_0000_0000,
{
    assert(1 <= (radius + 1) * span <= 0x7fff_ffff_0000_0000) by (nonlinear_arith)
        requires
            1 <= span <= 0x7fff_ffff,
            0 <= radius <= 0xffff_ffff,
    ;
    (radius as u64 + 1) * span - 1
}

/// The chunk in which a viewer stands.
pub open spec fn viewer_chunk(config: &StreamConfig, viewer: GridPos) -> GridPos {
    GridPos {
        x: trunc_div(
            viewer.x as int,
            config.layout().spec_width() * config.layout().spec_tile_px(),
        ) as i32,
        y: trunc_div(
            viewer.y as int,
            config.layout().spec_height() * config.layout().spec_tile_px(),
        ) as i32,
    }
}

/// Whether `chunk` lies in the spawn window around the chunk `center`: from
/// `radius` chunks before it to one chunk short of `radius` after it, on
/// each axis.
pub open spec fn in_window(config: &StreamConfig, center: GridPos, chunk: GridPos) -> bool {
    &&& center.x - config.radius_x() <= chunk.x < center.x + config.radius_x()
    &&& center.y - config.radius_y() <= chunk.y < center.y + config.radius_y()
}

/// Whether a viewer in the chunk `center` wants `chunk` loaded: it lies in
/// the window, and its tiles have `i32` coordinates.
pub open spec fn wanted(config: &StreamConfig, center: GridPos, chunk: GridPos) -> bool {
    in_window(config, center, chunk) && config.layout().holds(chunk)
}

/// The chunks to submit for a viewer in `center`: the wanted ones that are
/// neither pending nor resident.
pub open spec fn to_submit(
    known: Map<GridPos, ChunkState>,
    config: &StreamConfig,
    center: GridPos,
) -> Set<GridPos> {
    Set::new(|chunk: GridPos| wanted(config, center, chunk) && !known.contains_key(chunk))
}

/// The index after the chunks of `fresh` were submitted: they are pending,
/// and the others are as they were.
pub open spec fn after_submit(known: Map<GridPos, ChunkState>, fresh: Set<GridPos>) -> Map<
    GridPos,
    ChunkState,
> {
    Map::new(
        |chunk: GridPos| known.contains_key(chunk) || fresh.contains(chunk),
        |chunk: GridPos|
            if known.contains_key(chunk) {
                known[chunk]
            } else {
                ChunkState::Pending
            },
    )
}

/// The entries of chunks that were just submitted.
pub open spec fn pending_entries(chunks: Seq<GridPos>) -> Seq<ChunkEntry> {
    Seq::new(chunks.len(), |i: int| ChunkEntry { coord: chunks[i], state: ChunkState::Pending })
}

/// Whether `chunk` is walked before the place `(x, y)` when the window is
/// walked row by row.
pub open spec fn walked(chunk: GridPos, x: int, y: int) -> bool {
    chunk.y < y || (chunk.y == y && chunk.x < x)
}

/// Whether the chunks are listed in the order of the walk: row by row from
/// the lowest, each row from the left.
pub open spec fn in_walk_order(chunks: Seq<GridPos>) -> bool {
    forall|i: int, j: int|
        0 <= i < j < chunks.len() ==> walked(chunks[i], chunks[j].x as int, chunks[j].y as int)
}

/// Submits one row of the spawn window, from the left to the right.
fn submit_row(
    map: &mut ChunkMap,
    config: &StreamConfig,
    center: GridPos,
    y: i64,
    submitted: &mut Vec<GridPos>,
    Ghost(start): Ghost<Map<GridPos, ChunkState>>,
    Ghost(first): Ghost<Seq<ChunkEntry>>,
)
    requires
        old(map).wf(),
        old(map).entries() == first + pending_entries(old(submitted)@),
        config.wf(),
        center.y - config.radius_y() <= y < center.y + config.radius_y(),
        old(submitted)@.no_duplicates(),
        in_walk_order(old(submitted)@),
        forall|c: GridPos|
            old(submitted)@.contains(c) <==> wanted(config, center, c) && walked(
                c,
                center.x - config.radius_x(),
                y as int,
            ) && !start.contains_key(c),
        old(map)@ == after_submit(start, old(submitted)@.to_set()),
    ensures
        final(map).wf(),
        final(map).entries() == first + pending_entries(final(submitted)@),
        final(submitted)@.no_duplicates(),
        in_walk_order(final(submitted)@),
        forall|c: GridPos|
            final(submitted)@.contains(c) <==> wanted(config, center, c) && walked(
                c,
                center.x - config.radius_x(),
                y + 1,
            ) && !start.contains_key(c),
        final(map)@ == after_submit(start, final(submitted)@.to_set()),
{
    let left: i64 = center.x as i64 - config.radius_x as i64;
    let right: i64 = center.x as i64 + config.radius_x as i64;
    let mut x: i64 = left;
    while x < right
        invariant
            left <= x <= right,
            left == center.x - config.radius_x(),
            right == center.x + config.radius_x(),
            center.y - config.radius_y() <= y < center.y + config.radius_y(),
            map.wf(),
            map.entries() == first + pending_entries(submitted@),
            config.wf(),
            submitted@.no_duplicates(),
            in_walk_order(submitted@),
            forall|c: GridPos|
                submitted@.contains(c) <==> wanted(config, center, c) && walked(c, x as int, y as int)
                    && !start.contains_key(c),
            map@ == after_submit(start, submitted@.to_set()),
        decreases right - x,
    {
        let ghost before = submitted@;
        let ghost known = map@;
        let ghost listed = map.entries();
        let ghost here = GridPos { x: #[verifier::truncate] (x as i32), y: #[verifier::truncate] (y as i32) };
        let ghost fits = i32::MIN <= x <= i32::MAX && i32::MIN <= y <= i32::MAX;
        let ghost x0 = x as int;
        let mut pushed: bool = false;
        if i32::MIN as i64 <= x && x <= i32::MAX as i64 && i32::MIN as i64 <= y && y
            <= i32::MAX as i64 {
            let chunk = GridPos { x: x as i32, y: y as i32 };
            if config.layout.can_hold(&chunk) {
                if map.submit(chunk) {
                    submitted.push(chunk);
                    pushed = true;
                }
            }
        }
        x += 1;
        proof {
            assert(before.to_set().contains(here) == before.contains(here));
            if pushed {
                assert(submitted@ == before.push(here));
                assert(map.entries() =~= first + pending_entries(submitted@));
                assert(!before.contains(here));
                assert forall|i: int, j: int| 0 <= i < j < submitted@.len() implies submitted@[i]
                    != submitted@[j] && walked(
                    submitted@[i],
                    submitted@[j].x as int,
                    submitted@[j].y as int,
                ) by {
                    if j == before.len() {
                        assert(before.contains(before[i]));
                    } else {
                        assert(submitted@[i] == before[i] && submitted@[j] == before[j]);
                    }
                }
            } else {
                assert(submitted@ == before);
                assert(map@ == known);
                assert(map.entries() == listed);
            }
            assert(known.contains_key(here) == (start.contains_key(here) || before.contains(here)));
            assert forall|c: GridPos|
                submitted@.contains(c) <==> wanted(config, center, c) && walked(c, x as int, y as int)
                    && !start.contains_key(c) by {
                assert(before.contains(c) <==> wanted(config, center, c) && walked(c, x0, y as int)
                    && !start.contains_key(c));
                if before.contains(c) {
                    let i = choose|i: int| 0 <= i < before.len() && before[i] == c;
                    assert(submitted@[i] == c);
                    assert(submitted@.contains(c));
                }
                if submitted@.contains(c) && !before.contains(c) {
                    let i = choose|i: int| 0 <= i < submitted@.len() && submitted@[i] == c;
                    if i < before.len() {
                        assert(before[i] == c);
                    }
                    assert(pushed && c == here);
                    assert(wanted(config, center, c));
                    assert(walked(c, x as int, y as int));
                    assert(!start.contains_key(c));
                }
                if wanted(config, center, c) && walked(c, x as int, y as int) && !start.contains_key(c)
                    && !walked(c, x0, y as int) {
                    assert(c.x == x0 && c.y == y);
                    assert(c == here);
                    assert(fits);
                    assert(!before.contains(here));
                    assert(pushed);
                    assert(submitted@[before.len() as int] == c);
                    assert(submitted@.contains(c));
                }
            }
            assert(map@ =~= after_submit(start, submitted@.to_set())) by {
                assert forall|c: GridPos|
                    map@.contains_key(c) <==> after_submit(
                        start,
                        submitted@.to_set(),
                    ).contains_key(c) by {
                    assert(submitted@.to_set().contains(c) == submitted@.contains(c));
                    assert(before.to_set().contains(c) == before.contains(c));
                }
            }
        }
    }
    proof {
        assert forall|c: GridPos|
            submitted@.contains(c) <==> wanted(config, center, c) && walked(
                c,
                center.x - config.radius_x(),
                y + 1,
            ) && !start.contains_key(c) by {
        }
    }
}

/// Decides which chunks to generate for a viewer at the pixel `viewer`: every
/// wanted chunk of the spawn window around the viewer's chunk that is
/// neither pending nor resident. Each is marked pending here, so none is
/// submitted twice; they are listed row by row, each once.
pub fn create_chunk_tasks(map: &mut ChunkMap, config: &StreamConfig, viewer: &GridPos) -> (submitted:
    Vec<GridPos>)
    requires
        old(map).wf(),
        config.wf(),
    ensures
        final(map).wf(),
        submitted@.no_duplicates(),
        in_walk_order(submitted@),
        submitted@.to_set() == to_submit(old(map)@, config, viewer_chunk(config, *viewer)),
        final(map)@ == after_submit(
            old(map)@,
            to_submit(old(map)@, config, viewer_chunk(config, *viewer)),
        ),
        final(map).entries() == old(map).entries() + pending_entries(submitted@),
{
    let center: GridPos = pixel_pos_to_chunk_pos(viewer, &config.layout);
    let ghost start = map@;
    let ghost first = map.entries();
    let mut submitted: Vec<GridPos> = Vec::new();
    let low: i64 = center.y as i64 - config.radius_y as i64;
    let high: i64 = center.y as i64 + config.radius_y as i64;
    let mut y: i64 = low;
    proof {
        assert(submitted@.to_set() =~= Set::<GridPos>::empty());
        assert(map@ =~= after_submit(start, submitted@.to_set()));
        assert(map.entries() =~= first + pending_entries(submitted@));
    }
    while y < high
        invariant
            low <= y <= high,
            low == center.y - config.radius_y(),
            high == center.y + config.radius_y(),
            map.wf(),
            map.entries() == first + pending_entries(submitted@),
            config.wf(),
            submitted@.no_duplicates(),
            in_walk_order(submitted@),
            forall|c: GridPos|
                submitted@.contains(c) <==> wanted(config, center, c) && walked(
                    c,
                    center.x - config.radius_x(),
                    y as int,
                ) && !start.contains_key(c),
            map@ == after_submit(start, submitted@.to_set()),
        decreases high - y,
    {
        submit_row(map, config, center, y, &mut submitted, Ghost(start), Ghost(first));
        y += 1;
    }
    proof {
        assert(center == viewer_chunk(config, *viewer));
        assert(submitted@.to_set() =~= to_submit(start, config, center)) by {
            assert forall|c: GridPos|
                submitted@.to_set().contains(c) <==> to_submit(start, config, center).contains(
                    c,
                ) by {
                assert(submitted@.to_set().contains(c) == submitted@.contains(c));
            }
        }
    }
    submitted
}

/// Submitting is idempotent: what a scan has submitted is pending afterwards,
/// so a second scan for the same viewer, while those chunks are pending or
/// resident, submits nothing and changes nothing.
pub proof fn lemma_no_duplicate_submission(
    known: Map<GridPos, ChunkState>,
    config: &StreamConfig,
    center: GridPos,
)
    ensures
        to_submit(after_submit(known, to_submit(known, config, center)), config, center)
            == Set::<GridPos>::empty(),
        after_submit(
            after_submit(known, to_submit(known, config, center)),
            to_submit(after_submit(known, to_submit(known, config, center)), config, center),
        ) == after_submit(known, to_submit(known, config, center)),
        forall|chunk: GridPos|
            to_submit(known, config, center).contains(chunk) ==> after_submit(
                known,
                to_submit(known, config, center),
            )[chunk] == ChunkState::Pending,
{
    let first = to_submit(known, config, center);
    let once = after_submit(known, first);
    let second = to_submit(once, config, center);
    assert(second =~= Set::<GridPos>::empty());
    assert(after_submit(once, second) =~= once);
}

/// The chunks whose completion is applied, of those that finished: the ones
/// that were pending.
pub open spec fn to_apply(known: Map<GridPos, ChunkState>, finished: Seq<GridPos>) -> Set<GridPos> {
    Set::new(
        |chunk: GridPos|
            finished.contains(chunk) && known.contains_key(chunk) && known[chunk]
                == ChunkState::Pending,
    )
}

/// The chunks whose completion is applied, in the order in which they
/// finished: each pending chunk at its first completion.
pub open spec fn applied_of(known: Map<GridPos, ChunkState>, finished: Seq<GridPos>) -> Seq<GridPos>
    decreases finished.len(),
{
    if finished.len() == 0 {
        Seq::empty()
    } else {
        let earlier = applied_of(known, finished.drop_last());
        let chunk = finished.last();
        if known.contains_key(chunk) && known[chunk] == ChunkState::Pending && !earlier.contains(
            chunk,
        ) {
            earlier.push(chunk)
        } else {
            earlier
        }
    }
}

/// The index after the chunks of `done` became resident.
pub open spec fn after_apply(known: Map<GridPos, ChunkState>, done: Set<GridPos>) -> Map<
    GridPos,
    ChunkState,
> {
    Map::new(
        |chunk: GridPos| known.contains_key(chunk),
        |chunk: GridPos|
            if done.contains(chunk) {
                ChunkState::Resident
            } else {
                known[chunk]
            },
    )
}

/// The entries after the chunks of `done` became resident: each stays at its
/// place.
pub open spec fn entries_after_apply(entries: Seq<ChunkEntry>, done: Set<GridPos>) -> Seq<ChunkEntry> {
    Seq::new(
        entries.len(),
        |i: int|
            if done.contains(entries[i].coord) {
                ChunkEntry { coord: entries[i].coord, state: ChunkState::Resident }
            } else {
                entries[i]
            },
    )
}

/// Takes the generations that have finished since the last tick, in the
/// order in which they came, and decides which to apply to the world: a
/// pending chunk becomes resident and is listed, once; a completion for a
/// chunk that is resident or unloaded is passed over.
pub fn fetch_chunk_tasks(map: &mut ChunkMap, finished: &Vec<GridPos>) -> (applied: Vec<GridPos>)
    requires
        old(map).wf(),
    ensures
        final(map).wf(),
        applied@ == applied_of(old(map)@, finished@),
        applied@.no_duplicates(),
        applied@.to_set() == to_apply(old(map)@, finished@),
        final(map)@ == after_apply(old(map)@, to_apply(old(map)@, finished@)),
        final(map).entries() == entries_after_apply(
            old(map).entries(),
            to_apply(old(map)@, finished@),
        ),
{
    let ghost start = map@;
    let ghost first = map.entries();
    proof {
        map.lemma_view();
    }
    let mut applied: Vec<GridPos> = Vec::new();
    let mut i: usize = 0;
    proof {
        assert(map@ =~= after_apply(start, applied@.to_set()));
        assert(finished@.subrange(0, 0) =~= Seq::<GridPos>::empty());
        assert(map.entries() =~= entries_after_apply(first, applied@.to_set()));
    }
    while i < finished.len()
        invariant
            0 <= i <= finished@.len(),
            map.wf(),
            applied@ == applied_of(start, finished@.subrange(0, i as int)),
            map.entries() == entries_after_apply(first, applied@.to_set()),
            distinct_coords(first),
            start == states(first),
            applied@.no_duplicates(),
            forall|c: GridPos|
                applied@.contains(c) <==> finished@.subrange(0, i as int).contains(c)
                    && start.contains_key(c) && start[c] == ChunkState::Pending,
            map@ == after_apply(start, applied@.to_set()),
        decreases finished@.len() - i,
    {
        let chunk: GridPos = finished[i];
        let ghost before = applied@;
        let ghost known = map@;
        let ghost seen = finished@.subrange(0, i as int);
        let ghost listed = map.entries();
        proof {
            map.lemma_view();
        }
        let fresh: bool = map.complete(chunk);
        if fresh {
            applied.push(chunk);
        }
        i += 1;
        proof {
            let now = finished@.subrange(0, i as int);
            assert(now == seen.push(chunk));
            assert(now.drop_last() == seen);
            assert(before.to_set().contains(chunk) == before.contains(chunk));
            assert(fresh == (start.contains_key(chunk) && start[chunk] == ChunkState::Pending
                && !before.contains(chunk)));
            if fresh {
                assert(applied@ == before.push(chunk));
                assert forall|a: int, b: int| 0 <= a < b < applied@.len() implies applied@[a]
                    != applied@[b] by {
                    if b == before.len() {
                        assert(before.contains(before[a]));
                    }
                }
            } else {
                assert(applied@ == before);
            }
            assert forall|c: GridPos|
                applied@.contains(c) <==> now.contains(c) && start.contains_key(c) && start[c]
                    == ChunkState::Pending by {
                assert(before.contains(c) <==> seen.contains(c) && start.contains_key(c)
                    && start[c] == ChunkState::Pending);
                if seen.contains(c) {
                    let k = choose|k: int| 0 <= k < seen.len() && seen[k] == c;
                    assert(now[k] == c);
                }
                if c == chunk {
                    assert(now[seen.len() as int] == c);
                }
                if now.contains(c) {
                    let k = choose|k: int| 0 <= k < now.len() && now[k] == c;
                    if k < seen.len() {
                        assert(seen[k] == c);
                    }
                }
                if before.contains(c) {
                    let k = choose|k: int| 0 <= k < before.len() && before[k] == c;
                    assert(applied@[k] == c);
                }
                if fresh && c == chunk {
                    assert(applied@[before.len() as int] == c);
                }
                if applied@.contains(c) {
                    let k = choose|k: int| 0 <= k < applied@.len() && applied@[k] == c;
                    if k < before.len() {
                        assert(before[k] == c);
                    }
                }
            }
            assert forall|c: GridPos|
                applied@.contains(c) == (before.contains(c) || (fresh && c == chunk)) by {
                if before.contains(c) {
                    let k = choose|k: int| 0 <= k < before.len() && before[k] == c;
                    assert(applied@[k] == c);
                }
                if fresh && c == chunk {
                    assert(applied@[before.len() as int] == c);
                }
                if applied@.contains(c) {
                    let k = choose|k: int| 0 <= k < applied@.len() && applied@[k] == c;
                    if k < before.len() {
                        assert(before[k] == c);
                    }
                }
            }
            assert(map.entries() =~= entries_after_apply(first, applied@.to_set())) by {
                assert(listed.len() == first.len());
                assert forall|k: int| 0 <= k < first.len() implies #[trigger] map.entries()[k]
                    == entries_after_apply(first, applied@.to_set())[k] by {
                    assert(listed[k] == entries_after_apply(first, before.to_set())[k]);
                    assert(listed[k].coord == first[k].coord);
                    assert(applied@.to_set().contains(first[k].coord) == applied@.contains(
                        first[k].coord,
                    ));
                    assert(before.to_set().contains(first[k].coord) == before.contains(
                        first[k].coord,
                    ));
                    if fresh {
                        let at = index_of(listed, chunk);
                        lemma_entry_state(first, k);
                        assert(states(first).contains_key(chunk));
                        let home = index_of(first, chunk);
                        assert(0 <= home < first.len() && first[home].coord == chunk);
                        assert(listed[home].coord == chunk);
                        assert(distinct_coords(listed)) by {
                            assert forall|a: int, b: int| 0 <= a < b < listed.len() implies listed[a].coord
                                != listed[b].coord by {
                                assert(listed[a].coord == first[a].coord);
                                assert(listed[b].coord == first[b].coord);
                            }
                        }
                        lemma_entry_state(listed, home);
                        assert(at == home);
                        if k != home {
                            if k < home {
                                assert(first[k].coord != first[home].coord);
                            } else {
                                assert(first[home].coord != first[k].coord);
                            }
                        }
                    }
                }
            }
            assert(map@ =~= after_apply(start, applied@.to_set())) by {
                assert forall|c: GridPos| map@.contains_key(c) implies #[trigger] map@[c]
                    == after_apply(start, applied@.to_set())[c] by {
                    assert(applied@.to_set().contains(c) == applied@.contains(c));
                    assert(before.to_set().contains(c) == before.contains(c));
                    assert(applied@.contains(c) == (before.contains(c) || (fresh && c == chunk)));
                    assert(known.contains_key(c));
                    assert(known[c] == after_apply(start, before.to_set())[c]);
                }
            }
        }
    }
    proof {
        assert(finished@.subrange(0, i as int) == finished@);
        assert(applied@.to_set() =~= to_apply(start, finished@)) by {
            assert forall|c: GridPos|
                applied@.to_set().contains(c) <==> to_apply(start, finished@).contains(c) by {
                assert(applied@.to_set().contains(c) == applied@.contains(c));
            }
        }
    }
    applied
}

/// Whether the anchor of `chunk` lies beyond the despawn distance of a viewer.
pub open spec fn too_far(config: &StreamConfig, chunk: GridPos, viewer: GridPos) -> bool {
    distance_squared(config.layout().anchor(chunk), viewer) > config.despawn_distance_squared()
}

/// Whether `chunk` lies beyond the despawn distance of every viewer.
pub open spec fn out_of_reach(config: &StreamConfig, chunk: GridPos, viewers: Seq<GridPos>) -> bool {
    forall|i: int| 0 <= i < viewers.len() ==> too_far(config, chunk, #[trigger] viewers[i])
}

/// The chunks to drop: the resident ones that are out of reach of every
/// viewer. A pending chunk is left to complete.
pub open spec fn to_despawn(
    known: Map<GridPos, ChunkState>,
    config: &StreamConfig,
    viewers: Seq<GridPos>,
) -> Set<GridPos> {
    Set::new(
        |chunk: GridPos|
            known.contains_key(chunk) && known[chunk] == ChunkState::Resident && out_of_reach(
                config,
                chunk,
                viewers,
            ),
    )
}

/// Whether the chunks are listed in the order of their entries.
pub open spec fn in_entry_order(entries: Seq<ChunkEntry>, chunks: Seq<GridPos>) -> bool {
    forall|i: int, j: int|
        0 <= i < j < chunks.len() ==> index_of(entries, chunks[i])
            < index_of(entries, chunks[j])
}

/// Computes the square of the distance from a chunk's anchor to a viewer.
pub fn anchor_distance_squared(config: &StreamConfig, chunk: &GridPos, viewer: &GridPos) -> (d: u128)
    requires
        config.wf(),
    ensures
        d == distance_squared(config.layout().anchor(*chunk), *viewer),
{
    let anchor: PixelPos = chunk_pos_to_pixel_pos(chunk, &config.layout);
    proof {
        lemma_anchor_range(config.layout, *chunk);
    }
    let dx: i64 = anchor.x - viewer.x as i64;
    let dy: i64 = anchor.y - viewer.y as i64;
    let ax: u64 = if dx >= 0 {
        dx as u64
    } else {
        (-dx) as u64
    };
    let ay: u64 = if dy >= 0 {
        dy as u64
    } else {
        (-dy) as u64
    };
    assert(ax * ax == dx * dx && ay * ay == dy * dy && ax * ax
        <= 0x4000_0000_0000_0000_0000_0000_0000_0000 && ay * ay
        <= 0x4000_0000_0000_0000_0000_0000_0000_0000) by (nonlinear_arith)
        requires
            ax == (if dx >= 0 { dx as int } else { -dx }),
            ay == (if dy >= 0 { dy as int } else { -dy }),
            ax <= 0x8000_0000_0000_0000,
            ay <= 0x8000_0000_0000_0000,
    ;
    ax as u128 * ax as u128 + ay as u128 * ay as u128
}

/// The anchor of a chunk lies within 2^62 pixels of the origin.
pub proof fn lemma_anchor_range(layout: ChunkLayout, chunk: GridPos)
    requires
        layout.wf(),
    ensures
        -0x4000_0000_0000_0000 <= layout.anchor(chunk).x <= 0x4000_0000_0000_0000,
        -0x4000_0000_0000_0000 <= layout.anchor(chunk).y <= 0x4000_0000_0000_0000,
        layout.anchor(chunk).x == chunk.x * (layout.spec_width() * layout.spec_tile_px()),
        layout.anchor(chunk).y == chunk.y * (layout.spec_height() * layout.spec_tile_px()),
{
    let sx = layout.spec_width() * layout.spec_tile_px();
    let sy = layout.spec_height() * layout.spec_tile_px();
    assert(-0x4000_0000_0000_0000 <= chunk.x * sx <= 0x4000_0000_0000_0000
        && -0x4000_0000_0000_0000 <= chunk.y * sy <= 0x4000_0000_0000_0000) by (nonlinear_arith)
        requires
            0 <= sx <= 0x7fff_ffff,
            0 <= sy <= 0x7fff_ffff,
            -0x8000_0000 <= chunk.x <= 0x7fff_ffff,
            -0x8000_0000 <= chunk.y <= 0x7fff_ffff,
    ;
}

/// Decides whether a chunk lies beyond the despawn distance of every viewer.
pub fn is_out_of_reach(config: &StreamConfig, chunk: &GridPos, viewers: &Vec<GridPos>) -> (far: bool)
    requires
        config.wf(),
    ensures
        far == out_of_reach(config, *chunk, viewers@),
{
    let mut i: usize = 0;
    while i < viewers.len()
        invariant
            0 <= i <= viewers@.len(),
            config.wf(),
            forall|k: int| 0 <= k < i ==> too_far(config, *chunk, #[trigger] viewers@[k]),
        decreases viewers@.len() - i,
    {
        let d: u128 = anchor_distance_squared(config, chunk, &viewers[i]);
        if d <= config.despawn_distance_squared as u128 {
            assert(!too_far(config, *chunk, viewers@[i as int]));
            return false;
        }
        i += 1;
    }
    true
}

/// Decides which chunks to drop: every resident chunk that lies beyond the
/// despawn distance of every viewer. They leave the index and are listed,
/// each once, for the world to release their tiles.
pub fn handle_chunk_despawning(map: &mut ChunkMap, config: &StreamConfig, viewers: &Vec<GridPos>) -> (dropped:
    Vec<GridPos>)
    requires
        old(map).wf(),
        config.wf(),
    ensures
        final(map).wf(),
        dropped@.no_duplicates(),
        in_entry_order(old(map).entries(), dropped@),
        dropped@.to_set() == to_despawn(old(map)@, config, viewers@),
        final(map)@ == old(map)@.remove_keys(to_despawn(old(map)@, config, viewers@)),
        final(map).entries() == entries_without(
            old(map).entries(),
            to_despawn(old(map)@, config, viewers@),
        ),
{
    let ghost start = map@;
    let ghost entries = map.entries();
    proof {
        map.lemma_view();
    }
    let mut dropped: Vec<GridPos> = Vec::new();
    let mut i: usize = 0;
    while i < map.len()
        invariant
            0 <= i <= entries.len(),
            map.entries() == entries,
            map@ == start,
            start == states(entries),
            distinct_coords(entries),
            map.wf(),
            config.wf(),
            dropped@.no_duplicates(),
            in_entry_order(entries, dropped@),
            forall|k: int|
                0 <= k < dropped@.len() ==> index_of(entries, #[trigger] dropped@[k])
                    < i,
            forall|c: GridPos|
                dropped@.contains(c) <==> exists|k: int|
                    0 <= k < i && (#[trigger] entries[k]).coord == c && entries[k].state
                        == ChunkState::Resident && out_of_reach(config, c, viewers@),
        decreases entries.len() - i,
    {
        let entry = map.entry(i);
        let ghost before = dropped@;
        let mut found: bool = false;
        match entry.state {
            ChunkState::Resident => {
                if is_out_of_reach(config, &entry.coord, viewers) {
                    dropped.push(entry.coord);
                    found = true;
                }
            },
            ChunkState::Pending => {},
        }
        proof {
            lemma_entry_state(entries, i as int);
            if found {
                assert(dropped@ == before.push(entry.coord));
                assert forall|a: int, b: int| 0 <= a < b < dropped@.len() implies index_of(
                    entries,
                    dropped@[a],
                ) < index_of(entries, dropped@[b]) by {
                    assert(dropped@[a] == before[a]);
                    if b < before.len() {
                        assert(dropped@[b] == before[b]);
                    }
                }
                if before.contains(entry.coord) {
                    let k = choose|k: int|
                        0 <= k < i && (#[trigger] entries[k]).coord == entry.coord
                            && entries[k].state == ChunkState::Resident;
                    assert(entries[k].coord != entries[i as int].coord);
                }
                assert forall|a: int, b: int| 0 <= a < b < dropped@.len() implies dropped@[a]
                    != dropped@[b] by {
                    if b == before.len() {
                        assert(before.contains(before[a]));
                    }
                }
            } else {
                assert(dropped@ == before);
            }
            assert forall|c: GridPos|
                dropped@.contains(c) <==> exists|k: int|
                    0 <= k < i + 1 && (#[trigger] entries[k]).coord == c && entries[k].state
                        == ChunkState::Resident && out_of_reach(config, c, viewers@) by {
                assert(before.contains(c) <==> exists|k: int|
                    0 <= k < i && (#[trigger] entries[k]).coord == c && entries[k].state
                        == ChunkState::Resident && out_of_reach(config, c, viewers@));
                if before.contains(c) {
                    let k = choose|k: int| 0 <= k < before.len() && before[k] == c;
                    assert(dropped@[k] == c);
                    let e = choose|k: int|
                        0 <= k < i && (#[trigger] entries[k]).coord == c && entries[k].state
                            == ChunkState::Resident && out_of_reach(config, c, viewers@);
                    assert(0 <= e < i + 1 && entries[e].coord == c);
                }
                if found && c == entry.coord {
                    assert(dropped@[before.len() as int] == c);
                    assert(entries[i as int].coord == c);
                }
                if dropped@.contains(c) && !before.contains(c) {
                    let k = choose|k: int| 0 <= k < dropped@.len() && dropped@[k] == c;
                    if k < before.len() {
                        assert(before[k] == c);
                    }
                    assert(found && c == entry.coord);
                }
                if exists|k: int|
                    0 <= k < i + 1 && (#[trigger] entries[k]).coord == c && entries[k].state
                        == ChunkState::Resident && out_of_reach(config, c, viewers@) {
                    let e = choose|k: int|
                        0 <= k < i + 1 && (#[trigger] entries[k]).coord == c && entries[k].state
                            == ChunkState::Resident && out_of_reach(config, c, viewers@);
                    if e < i {
                        assert(before.contains(c));
                    } else {
                        assert(found);
                    }
                }
            }
        }
        i += 1;
    }
    proof {
        assert(dropped@.to_set() =~= to_despawn(start, config, viewers@)) by {
            assert forall|c: GridPos|
                dropped@.to_set().contains(c) <==> to_despawn(start, config, viewers@).contains(
                    c,
                ) by {
                assert(dropped@.to_set().contains(c) == dropped@.contains(c));
                if dropped@.contains(c) {
                    let k = choose|k: int|
                        0 <= k < i && (#[trigger] entries[k]).coord == c && entries[k].state
                            == ChunkState::Resident && out_of_reach(config, c, viewers@);
                    lemma_entry_state(entries, k);
                }
                if to_despawn(start, config, viewers@).contains(c) {
                    let k = index_of(entries, c);
                    lemma_entry_state(entries, k);
                    assert(entries[k].coord == c);
                }
            }
        }
    }
    let mut j: usize = 0;
    proof {
        assert(dropped@.subrange(0, 0).to_set() =~= Set::<GridPos>::empty());
        lemma_nothing_gone(entries);
    }
    while j < dropped.len()
        invariant
            0 <= j <= dropped@.len(),
            map.wf(),
            distinct_coords(entries),
            start == states(entries),
            dropped@.no_duplicates(),
            dropped@.to_set() == to_despawn(start, config, viewers@),
            map@ == start.remove_keys(dropped@.subrange(0, j as int).to_set()),
            map.entries() == entries_without(entries, dropped@.subrange(0, j as int).to_set()),
        decreases dropped@.len() - j,
    {
        let ghost gone = dropped@.subrange(0, j as int);
        proof {
            let next = dropped@[j as int];
            assert(dropped@.to_set().contains(next));
            assert(tracks(entries, next));
            assert(!gone.to_set().contains(next)) by {
                if gone.contains(next) {
                    let k = choose|k: int| 0 <= k < gone.len() && gone[k] == next;
                    assert(dropped@[k] == dropped@[j as int]);
                }
            }
            lemma_without_one_more(entries, gone.to_set(), next);
            map.lemma_view();
        }
        map.remove(&dropped[j]);
        proof {
            let now = dropped@.subrange(0, j + 1);
            assert(now == gone.push(dropped@[j as int]));
            assert(now.to_set() =~= gone.to_set().insert(dropped@[j as int])) by {
                assert forall|c: GridPos| now.to_set().contains(c) <==> gone.to_set().insert(
                    dropped@[j as int],
                ).contains(c) by {
                    assert(now.to_set().contains(c) == now.contains(c));
                    assert(gone.to_set().contains(c) == gone.contains(c));
                    if gone.contains(c) {
                        let k = choose|k: int| 0 <= k < gone.len() && gone[k] == c;
                        assert(now[k] == c);
                    }
                    if c == dropped@[j as int] {
                        assert(now[gone.len() as int] == c);
                    }
                    if now.contains(c) {
                        let k = choose|k: int| 0 <= k < now.len() && now[k] == c;
                        if k < gone.len() {
                            assert(gone[k] == c);
                        }
                    }
                }
            }
            assert(map@ =~= start.remove_keys(now.to_set()));
        }
        j += 1;
    }
    proof {
        assert(dropped@.subrange(0, j as int) == dropped@);
    }
    dropped
}

/// Hysteresis: a chunk in the spawn window of a viewer is never beyond that
/// viewer's despawn distance. So no chunk that a tick spawns for a viewer is
/// dropped while the viewer stands where it stood.
pub proof fn lemma_hysteresis(config: &StreamConfig, viewer: GridPos, chunk: GridPos)
    requires
        config.wf(),
        in_window(config, viewer_chunk(config, viewer), chunk),
    ensures
        !too_far(config, chunk, viewer),
        forall|viewers: Seq<GridPos>| viewers.contains(viewer) ==> !out_of_reach(config, chunk, viewers),
{
    let layout = config.layout();
    let sx = layout.spec_width() * layout.spec_tile_px();
    let sy = layout.spec_height() * layout.spec_tile_px();
    assert(1 <= sx <= i32::MAX && 1 <= sy <= i32::MAX) by (nonlinear_arith)
        requires
            sx == layout.spec_width() * layout.spec_tile_px(),
            sy == layout.spec_height() * layout.spec_tile_px(),
            layout.wf(),
    ;
    lemma_anchor_range(layout, chunk);
    let dx = layout.anchor(chunk).x - viewer.x;
    let dy = layout.anchor(chunk).y - viewer.y;
    lemma_axis_reach(viewer.x as int, sx, config.radius_x(), chunk.x as int);
    lemma_axis_reach(viewer.y as int, sy, config.radius_y(), chunk.y as int);
    let rx = reach(config.radius_x(), sx);
    let ry = reach(config.radius_y(), sy);
    assert(dx * dx <= rx * rx && dy * dy <= ry * ry) by (nonlinear_arith)
        requires
            -rx <= dx <= rx,
            -ry <= dy <= ry,
    ;
    assert(!too_far(config, chunk, viewer));
    assert forall|viewers: Seq<GridPos>| viewers.contains(viewer) implies !out_of_reach(
        config,
        chunk,
        viewers,
    ) by {
        let i = choose|i: int| 0 <= i < viewers.len() && viewers[i] == viewer;
        assert(!too_far(config, chunk, viewers[i]));
    }
}

/// Along one axis, the anchor of a chunk in the window lies within the reach
/// of the viewer.
pub proof fn lemma_axis_reach(viewer: int, span: int, radius: u32, chunk: int)
    requires
        span >= 1,
        trunc_div(viewer, span) - radius <= chunk < trunc_div(viewer, span) + radius,
    ensures
        -reach(radius, span) <= chunk * span - viewer <= reach(radius, span),
{
    lemma_floor_from_trunc(viewer, span);
    let center = trunc_div(viewer, span);
    let rest = viewer - span * center;
    assert(-span < rest < span);
    let steps = chunk - center;
    let across = steps * span;
    let full = radius * span;
    assert(chunk * span - viewer == across - rest) by (nonlinear_arith)
        requires
            rest == viewer - span * center,
            across == (chunk - center) * span,
    ;
    assert(-full <= across <= full - span) by (nonlinear_arith)
        requires
            -radius <= steps <= radius - 1,
            span >= 1,
            across == steps * span,
            full == radius * span,
    ;
    assert(reach(radius, span) == full + span - 1) by (nonlinear_arith)
        requires
            full == radius * span,
    ;
}

} // verus!
