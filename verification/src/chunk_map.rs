//! The index of the chunks that are loaded or being generated.

use vstd::prelude::*;
use crate::position::GridPos;

verus! {

/// Where a tracked chunk stands. A chunk that the index does not hold is
/// unloaded.
#[derive(Clone, Copy, Debug, PartialEq, Eq, Structural)]
pub enum ChunkState {
    /// Its generation was submitted and has not come back.
    Pending,
    /// Its tiles are in the world.
    Resident,
}

/// One tracked chunk.
#[derive(Clone, Copy, Debug)]
pub struct ChunkEntry {
    pub coord: GridPos,
    pub state: ChunkState,
}

/// No two entries are for the same chunk.
pub open spec fn distinct_coords(entries: Seq<ChunkEntry>) -> bool {
    forall|i: int, j: int| 0 <= i < j < entries.len() ==> entries[i].coord != entries[j].coord
}

/// Whether some entry is for `coord`.
pub open spec fn tracks(entries: Seq<ChunkEntry>, coord: GridPos) -> bool {
    exists|i: int| 0 <= i < entries.len() && entries[i].coord == coord
}

/// The place of an entry for `coord`.
pub open spec fn index_of(entries: Seq<ChunkEntry>, coord: GridPos) -> int {
    choose|i: int| 0 <= i < entries.len() && entries[i].coord == coord
}

/// The states of the tracked chunks, by coordinate.
pub open spec fn states(entries: Seq<ChunkEntry>) -> Map<GridPos, ChunkState> {
    Map::new(
        |coord: GridPos| tracks(entries, coord),
        |coord: GridPos| entries[index_of(entries, coord)].state,
    )
}

/// With distinct coordinates, an entry's state is the state of its chunk.
pub proof fn lemma_entry_state(entries: Seq<ChunkEntry>, i: int)
    requires
        distinct_coords(entries),
        0 <= i < entries.len(),
    ensures
        states(entries).contains_key(entries[i].coord),
        states(entries)[entries[i].coord] == entries[i].state,
        index_of(entries, entries[i].coord) == i,
{
    let j = index_of(entries, entries[i].coord);
    assert(0 <= j < entries.len() && entries[j].coord == entries[i].coord);
    if j < i {
        assert(entries[j].coord != entries[i].coord);
    } else if i < j {
        assert(entries[i].coord != entries[j].coord);
    }
}

/// Adding an entry for an untracked chunk adds its state.
pub proof fn lemma_states_push(entries: Seq<ChunkEntry>, entry: ChunkEntry)
    requires
        distinct_coords(entries),
        !tracks(entries, entry.coord),
    ensures
        distinct_coords(entries.push(entry)),
        states(entries.push(entry)) == states(entries).insert(entry.coord, entry.state),
{
    let after = entries.push(entry);
    assert forall|i: int, j: int| 0 <= i < j < after.len() implies after[i].coord
        != after[j].coord by {
        if j == entries.len() {
            assert(entries[i].coord == after[i].coord);
        }
    }
    assert forall|coord: GridPos| tracks(after, coord) == (tracks(entries, coord) || coord
        == entry.coord) by {
        if tracks(entries, coord) {
            let i = index_of(entries, coord);
            assert(after[i].coord == coord);
        }
        if coord == entry.coord {
            assert(after[entries.len() as int].coord == coord);
        }
        if tracks(after, coord) {
            let i = index_of(after, coord);
            if i < entries.len() {
                assert(entries[i].coord == coord);
            }
        }
    }
    assert forall|coord: GridPos| tracks(after, coord) implies #[trigger] states(after)[coord]
        == states(entries).insert(entry.coord, entry.state)[coord] by {
        let i = index_of(after, coord);
        lemma_entry_state(after, i);
        if i < entries.len() {
            assert(entries[i].coord == coord);
            lemma_entry_state(entries, i);
        }
    }
    assert(states(after) =~= states(entries).insert(entry.coord, entry.state));
}

/// Changing the state of an entry changes the state of its chunk.
pub proof fn lemma_states_update(entries: Seq<ChunkEntry>, i: int, state: ChunkState)
    requires
        distinct_coords(entries),
        0 <= i < entries.len(),
    ensures
        distinct_coords(entries.update(i, ChunkEntry { coord: entries[i].coord, state })),
        states(entries.update(i, ChunkEntry { coord: entries[i].coord, state })) == states(
            entries,
        ).insert(entries[i].coord, state),
{
    let after = entries.update(i, ChunkEntry { coord: entries[i].coord, state });
    assert forall|a: int, b: int| 0 <= a < b < after.len() implies after[a].coord
        != after[b].coord by {
        assert(after[a].coord == entries[a].coord && after[b].coord == entries[b].coord);
    }
    assert forall|coord: GridPos| tracks(after, coord) == tracks(entries, coord) by {
        if tracks(entries, coord) {
            let k = index_of(entries, coord);
            assert(after[k].coord == coord);
        }
        if tracks(after, coord) {
            let k = index_of(after, coord);
            assert(entries[k].coord == coord);
        }
    }
    lemma_entry_state(entries, i);
    assert forall|coord: GridPos| tracks(after, coord) implies #[trigger] states(after)[coord]
        == states(entries).insert(entries[i].coord, state)[coord] by {
        let k = index_of(after, coord);
        lemma_entry_state(after, k);
        assert(entries[k].coord == coord);
        lemma_entry_state(entries, k);
    }
    assert(states(after) =~= states(entries).insert(entries[i].coord, state));
}

/// Taking an entry out takes its chunk out.
pub proof fn lemma_states_remove(entries: Seq<ChunkEntry>, i: int)
    requires
        distinct_coords(entries),
        0 <= i < entries.len(),
    ensures
        distinct_coords(entries.remove(i)),
        states(entries.remove(i)) == states(entries).remove(entries[i].coord),
{
    let after = entries.remove(i);
    assert forall|a: int, b: int| 0 <= a < b < after.len() implies after[a].coord
        != after[b].coord by {
        let a0 = if a < i { a } else { a + 1 };
        let b0 = if b < i { b } else { b + 1 };
        assert(after[a] == entries[a0] && after[b] == entries[b0]);
    }
    assert forall|coord: GridPos| tracks(after, coord) == (tracks(entries, coord) && coord
        != entries[i].coord) by {
        if tracks(entries, coord) && coord != entries[i].coord {
            let k = index_of(entries, coord);
            let k1 = if k < i { k } else { k - 1 };
            assert(after[k1] == entries[k]);
        }
        if tracks(after, coord) {
            let k = index_of(after, coord);
            let k0 = if k < i { k } else { k + 1 };
            assert(after[k] == entries[k0]);
            assert(entries[k0].coord == coord);
            if k0 < i {
                assert(entries[k0].coord != entries[i].coord);
            } else {
                assert(entries[i].coord != entries[k0].coord);
            }
        }
    }
    assert forall|coord: GridPos| tracks(after, coord) implies #[trigger] states(after)[coord]
        == states(entries).remove(entries[i].coord)[coord] by {
        let k = index_of(after, coord);
        lemma_entry_state(after, k);
        let k0 = if k < i { k } else { k + 1 };
        assert(after[k] == entries[k0]);
        lemma_entry_state(entries, k0);
    }
    assert(states(after) =~= states(entries).remove(entries[i].coord));
}

/// The entries that are left when the chunks of `gone` are taken out, in
/// their order.
pub open spec fn entries_without(entries: Seq<ChunkEntry>, gone: Set<GridPos>) -> Seq<ChunkEntry>
    decreases entries.len(),
{
    if entries.len() == 0 {
        Seq::empty()
    } else {
        let rest = entries_without(entries.drop_last(), gone);
        if gone.contains(entries.last().coord) {
            rest
        } else {
            rest.push(entries.last())
        }
    }
}

/// With no chunk gone, every entry is left.
pub proof fn lemma_nothing_gone(entries: Seq<ChunkEntry>)
    ensures
        entries_without(entries, Set::<GridPos>::empty()) == entries,
    decreases entries.len(),
{
    if entries.len() > 0 {
        lemma_nothing_gone(entries.drop_last());
        assert(entries.drop_last().push(entries.last()) =~= entries);
    }
}

/// What is left tracks the chunks that were tracked and are not gone.
pub proof fn lemma_without_tracks(entries: Seq<ChunkEntry>, gone: Set<GridPos>, coord: GridPos)
    ensures
        tracks(entries_without(entries, gone), coord) <==> tracks(entries, coord) && !gone.contains(
            coord,
        ),
    decreases entries.len(),
{
    let left = entries_without(entries, gone);
    if entries.len() == 0 {
    } else {
        let front = entries.drop_last();
        let rest = entries_without(front, gone);
        lemma_without_tracks(front, gone, coord);
        if tracks(front, coord) {
            let i = index_of(front, coord);
            assert(entries[i].coord == coord);
        }
        if tracks(entries, coord) {
            let i = index_of(entries, coord);
            if i < front.len() {
                assert(front[i].coord == coord);
            }
        }
        if tracks(rest, coord) {
            let i = index_of(rest, coord);
            if !gone.contains(entries.last().coord) {
                assert(left[i].coord == coord);
            }
        }
        if tracks(left, coord) {
            let i = index_of(left, coord);
            if i < rest.len() {
                assert(rest[i].coord == coord);
            }
        }
        if entries.last().coord == coord {
            assert(entries[entries.len() - 1].coord == coord);
            if !gone.contains(coord) {
                assert(left[rest.len() as int].coord == coord);
            }
        }
    }
}

/// What is left has no chunk twice.
pub proof fn lemma_without_distinct(entries: Seq<ChunkEntry>, gone: Set<GridPos>)
    requires
        distinct_coords(entries),
    ensures
        distinct_coords(entries_without(entries, gone)),
    decreases entries.len(),
{
    if entries.len() > 0 {
        let front = entries.drop_last();
        let rest = entries_without(front, gone);
        let left = entries_without(entries, gone);
        assert(distinct_coords(front)) by {
            assert forall|i: int, j: int| 0 <= i < j < front.len() implies front[i].coord
                != front[j].coord by {
                assert(front[i] == entries[i] && front[j] == entries[j]);
            }
        }
        lemma_without_distinct(front, gone);
        if !gone.contains(entries.last().coord) {
            assert forall|i: int, j: int| 0 <= i < j < left.len() implies left[i].coord
                != left[j].coord by {
                if j == rest.len() {
                    assert(rest[i].coord == left[i].coord);
                    assert(tracks(rest, rest[i].coord));
                    lemma_without_tracks(front, gone, rest[i].coord);
                    let k = index_of(front, rest[i].coord);
                    assert(entries[k].coord != entries[entries.len() - 1].coord);
                } else {
                    assert(left[i] == rest[i] && left[j] == rest[j]);
                }
            }
        }
    }
}

/// A chunk that is not tracked makes no difference to what is left.
pub proof fn lemma_without_untracked(entries: Seq<ChunkEntry>, gone: Set<GridPos>, coord: GridPos)
    requires
        !tracks(entries, coord),
    ensures
        entries_without(entries, gone.insert(coord)) == entries_without(entries, gone),
    decreases entries.len(),
{
    if entries.len() > 0 {
        let front = entries.drop_last();
        assert(!tracks(front, coord)) by {
            if tracks(front, coord) {
                let i = index_of(front, coord);
                assert(entries[i].coord == coord);
            }
        }
        lemma_without_untracked(front, gone, coord);
        assert(entries[entries.len() - 1].coord != coord);
    }
}

/// Taking one more chunk out of what is left is leaving it out from the
/// start.
pub proof fn lemma_without_one_more(entries: Seq<ChunkEntry>, gone: Set<GridPos>, coord: GridPos)
    requires
        distinct_coords(entries),
        tracks(entries, coord),
        !gone.contains(coord),
    ensures
        tracks(entries_without(entries, gone), coord),
        entries_without(entries, gone).remove(index_of(entries_without(entries, gone), coord))
            == entries_without(entries, gone.insert(coord)),
    decreases entries.len(),
{
    let left = entries_without(entries, gone);
    let front = entries.drop_last();
    let rest = entries_without(front, gone);
    let last = entries.last();
    lemma_without_tracks(entries, gone, coord);
    lemma_without_distinct(entries, gone);
    let at = index_of(left, coord);
    assert(distinct_coords(front)) by {
        assert forall|i: int, j: int| 0 <= i < j < front.len() implies front[i].coord
            != front[j].coord by {
            assert(front[i] == entries[i] && front[j] == entries[j]);
        }
    }
    if last.coord == coord {
        assert(!tracks(front, coord)) by {
            if tracks(front, coord) {
                let i = index_of(front, coord);
                assert(entries[i].coord != entries[entries.len() - 1].coord);
            }
        }
        lemma_without_untracked(front, gone, coord);
        assert(left == rest.push(last));
        lemma_entry_state(left, rest.len() as int);
        assert(at == rest.len());
        assert(left.remove(at) =~= rest);
    } else {
        assert(tracks(front, coord)) by {
            let i = index_of(entries, coord);
            assert(front[i].coord == coord);
        }
        lemma_without_one_more(front, gone, coord);
        let inner = index_of(rest, coord);
        if gone.contains(last.coord) {
            assert(left == rest);
        } else {
            assert(left == rest.push(last));
            assert(left[inner].coord == coord);
            lemma_entry_state(left, inner);
            assert(at == inner);
            assert(left.remove(at) =~= rest.remove(inner).push(last));
        }
    }
}

/// The index of the tracked chunks: for each chunk that is pending or
/// resident, its state. Unloaded chunks are not in it.
#[derive(Debug)]
pub struct ChunkMap {
    entries: Vec<ChunkEntry>,
}

impl View for ChunkMap {
    type V = Map<GridPos, ChunkState>;

    closed spec fn view(&self) -> Map<GridPos, ChunkState> {
        states(self.entries@)
    }
}

impl ChunkMap {
    /// The entries, in the order in which their chunks were submitted.
    pub closed spec fn entries(&self) -> Seq<ChunkEntry> {
        self.entries@
    }

    pub closed spec fn wf(&self) -> bool {
        distinct_coords(self.entries@)
    }

    /// The view is the states of the entries, and no chunk has two entries.
    pub proof fn lemma_view(&self)
        ensures
            self@ == states(self.entries()),
            self.wf() == distinct_coords(self.entries()),
    {
    }

    /// An index that tracks no chunk.
    pub fn new() -> (map: ChunkMap)
        ensures
            map.wf(),
            map@ == Map::<GridPos, ChunkState>::empty(),
            map.entries().len() == 0,
    {
        let map = ChunkMap { entries: Vec::new() };
        assert(map@ =~= Map::<GridPos, ChunkState>::empty());
        map
    }

    /// The number of tracked chunks.
    pub fn len(&self) -> (n: usize)
        ensures
            n == self.entries().len(),
    {
        self.entries.len()
    }

    /// The entry at place `i`.
    pub fn entry(&self, i: usize) -> (entry: ChunkEntry)
        requires
            i < self.entries().len(),
        ensures
            entry == self.entries()[i as int],
    {
        self.entries[i]
    }

    fn position(&self, coord: &GridPos) -> (at: Option<usize>)
        requires
            self.wf(),
        ensures
            match at {
                Some(i) => i < self.entries@.len() && self.entries@[i as int].coord == *coord,
                None => !tracks(self.entries@, *coord),
            },
    {
        let mut i: usize = 0;
        while i < self.entries.len()
            invariant
                0 <= i <= self.entries@.len(),
                forall|k: int| 0 <= k < i ==> self.entries@[k].coord != *coord,
            decreases self.entries@.len() - i,
        {
            if self.entries[i].coord.x == coord.x && self.entries[i].coord.y == coord.y {
                return Some(i);
            }
            i += 1;
        }
        None
    }

    /// The state of a chunk, or `None` for an unloaded one.
    pub fn state(&self, coord: &GridPos) -> (state: Option<ChunkState>)
        requires
            self.wf(),
        ensures
            state == (if self@.contains_key(*coord) {
                Some(self@[*coord])
            } else {
                None
            }),
    {
        match self.position(coord) {
            Some(i) => {
                proof {
                    lemma_entry_state(self.entries@, i as int);
                }
                Some(self.entries[i].state)
            },
            None => None,
        }
    }

    /// Whether the chunk is pending or resident.
    pub fn contains_key(&self, coord: &GridPos) -> (known: bool)
        requires
            self.wf(),
        ensures
            known == self@.contains_key(*coord),
    {
        self.position(coord).is_some()
    }

    /// Marks an unloaded chunk as pending, and says whether it did: a chunk
    /// that is pending or resident already stays as it is.
    pub fn submit(&mut self, coord: GridPos) -> (submitted: bool)
        requires
            old(self).wf(),
        ensures
            final(self).wf(),
            submitted == !old(self)@.contains_key(coord),
            final(self)@ == (if submitted {
                old(self)@.insert(coord, ChunkState::Pending)
            } else {
                old(self)@
            }),
            final(self).entries() == (if submitted {
                old(self).entries().push(ChunkEntry { coord, state: ChunkState::Pending })
            } else {
                old(self).entries()
            }),
    {
        if self.position(&coord).is_some() {
            return false;
        }
        proof {
            lemma_states_push(self.entries@, ChunkEntry { coord, state: ChunkState::Pending });
        }
        self.entries.push(ChunkEntry { coord, state: ChunkState::Pending });
        true
    }

    /// Takes the completion of a chunk's generation, and says whether its
    /// tiles are to be applied: a pending chunk becomes resident, and a
    /// completion for any other chunk changes nothing.
    pub fn complete(&mut self, coord: GridPos) -> (apply: bool)
        requires
            old(self).wf(),
        ensures
            final(self).wf(),
            apply == (old(self)@.contains_key(coord) && old(self)@[coord] == ChunkState::Pending),
            final(self)@ == (if apply {
                old(self)@.insert(coord, ChunkState::Resident)
            } else {
                old(self)@
            }),
            final(self).entries() == (if apply {
                old(self).entries().update(
                    index_of(old(self).entries(), coord),
                    ChunkEntry { coord, state: ChunkState::Resident },
                )
            } else {
                old(self).entries()
            }),
    {
        match self.position(&coord) {
            Some(i) => {
                proof {
                    lemma_entry_state(self.entries@, i as int);
                    lemma_states_update(self.entries@, i as int, ChunkState::Resident);
                }
                match self.entries[i].state {
                    ChunkState::Pending => {
                        self.entries.set(i, ChunkEntry { coord, state: ChunkState::Resident });
                        true
                    },
                    ChunkState::Resident => false,
                }
            },
            None => false,
        }
    }

    /// Forgets a chunk, and says whether it was tracked.
    pub fn remove(&mut self, coord: &GridPos) -> (removed: bool)
        requires
            old(self).wf(),
        ensures
            final(self).wf(),
            removed == old(self)@.contains_key(*coord),
            final(self)@ == old(self)@.remove(*coord),
            final(self).entries() == (if removed {
                old(self).entries().remove(index_of(old(self).entries(), *coord))
            } else {
                old(self).entries()
            }),
    {
        match self.position(coord) {
            Some(i) => {
                proof {
                    lemma_entry_state(self.entries@, i as int);
                    lemma_states_remove(self.entries@, i as int);
                }
                self.entries.remove(i);
                true
            },
            None => {
                assert(self@.remove(*coord) =~= self@);
                false
            },
        }
    }
}

} // verus!
