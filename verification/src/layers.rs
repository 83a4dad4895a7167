//! The threshold table that turns a height sample into a terrain level.

use vstd::prelude::*;
use crate::error::ConfigError;

verus! {

/// Each bound is greater than the one before it.
pub open spec fn strictly_ascending(bounds: Seq<u32>) -> bool {
    forall|i: int, j: int| 0 <= i < j < bounds.len() ==> bounds[i] < bounds[j]
}

/// Layer `i` of the table holds `sample`: its lower bound is inclusive,
/// its upper bound exclusive.
pub open spec fn in_layer(bounds: Seq<u32>, sample: u32, i: int) -> bool {
    0 <= i < bounds.len() - 1 && bounds[i] <= sample < bounds[i + 1]
}

/// The level of `sample`: the layer that holds it, or the last layer
/// where no layer does.
pub open spec fn layer_of(bounds: Seq<u32>, sample: u32) -> int {
    if exists|i: int| in_layer(bounds, sample, i) {
        choose|i: int| in_layer(bounds, sample, i)
    } else {
        bounds.len() - 2
    }
}

/// In a strictly ascending table the `i`-th bound is at least `i`.
pub proof fn lemma_bound_at_least_index(bounds: Seq<u32>, i: int)
    requires
        strictly_ascending(bounds),
        0 <= i < bounds.len(),
    ensures
        bounds[i] >= i,
    decreases i,
{
    if i > 0 {
        lemma_bound_at_least_index(bounds, i - 1);
    }
}

/// In a strictly ascending table at most one layer holds a sample.
pub proof fn lemma_layer_unique(bounds: Seq<u32>, sample: u32, i: int)
    requires
        strictly_ascending(bounds),
        in_layer(bounds, sample, i),
    ensures
        layer_of(bounds, sample) == i,
{
    let j = layer_of(bounds, sample);
    assert(in_layer(bounds, sample, j));
    if j < i {
        assert(bounds[j + 1] <= bounds[i]);
    } else if i < j {
        assert(bounds[i + 1] <= bounds[j]);
    }
}

/// A sample that no layer holds, because it lies at or above the last bound
/// or below the first, has the last level.
pub proof fn lemma_layer_outside(bounds: Seq<u32>, sample: u32)
    requires
        strictly_ascending(bounds),
        bounds.len() >= 2,
        sample >= bounds[bounds.len() - 1] || sample < bounds[0],
    ensures
        layer_of(bounds, sample) == bounds.len() - 2,
{
    assert forall|i: int| !in_layer(bounds, sample, i) by {
        if 0 <= i < bounds.len() - 1 {
            if sample < bounds[0] {
                if i > 0 {
                    assert(bounds[0] < bounds[i]);
                }
            } else {
                if i + 1 < bounds.len() - 1 {
                    assert(bounds[i + 1] < bounds[bounds.len() - 1]);
                }
            }
        }
    }
}

/// The level of a sample is a layer of the table.
pub proof fn lemma_layer_in_range(bounds: Seq<u32>, sample: u32)
    requires
        bounds.len() >= 2,
    ensures
        0 <= layer_of(bounds, sample) <= bounds.len() - 2,
{
    if exists|i: int| in_layer(bounds, sample, i) {
        assert(in_layer(bounds, sample, layer_of(bounds, sample)));
    }
}

/// An ascending table of height bounds; two neighbouring bounds delimit one
/// terrain level.
#[derive(Debug)]
pub struct LayerTable {
    bounds: Vec<u32>,
}

impl View for LayerTable {
    type V = Seq<u32>;

    closed spec fn view(&self) -> Seq<u32> {
        self.bounds@
    }
}

impl LayerTable {
    /// What `new` accepts: at least two bounds, strictly ascending.
    pub open spec fn valid(bounds: Seq<u32>) -> bool {
        bounds.len() >= 2 && strictly_ascending(bounds)
    }

    pub open spec fn wf(&self) -> bool {
        Self::valid(self@)
    }

    /// The number of terrain levels, one per pair of neighbouring bounds.
    pub open spec fn spec_level_count(&self) -> int {
        self@.len() - 1
    }

    /// Loads a table, or says what is wrong with it.
    pub fn new(bounds: Vec<u32>) -> (r: Result<LayerTable, ConfigError>)
        ensures
            match r {
                Ok(table) => table@ == bounds@ && table.wf(),
                Err(e) => e == (if bounds@.len() < 2 {
                    ConfigError::TooFewThresholds
                } else {
                    ConfigError::ThresholdsNotAscending
                }) && !Self::valid(bounds@),
            },
    {
        if bounds.len() < 2 {
            return Err(ConfigError::TooFewThresholds);
        }
        let mut i: usize = 1;
        while i < bounds.len()
            invariant
                1 <= i <= bounds.len(),
                forall|a: int, b: int| 0 <= a < b < i ==> bounds@[a] < bounds@[b],
            decreases bounds.len() - i,
        {
            if bounds[i - 1] >= bounds[i] {
                return Err(ConfigError::ThresholdsNotAscending);
            }
            i += 1;
        }
        Ok(LayerTable { bounds })
    }

    /// The number of terrain levels.
    pub fn level_count(&self) -> (n: u32)
        requires
            self.wf(),
        ensures
            n == self.spec_level_count(),
    {
        proof {
            lemma_bound_at_least_index(self@, self@.len() - 1);
        }
        (self.bounds.len() - 1) as u32
    }

    /// The terrain level of a height sample.
    pub fn classify(&self, sample: u32) -> (level: u32)
        requires
            self.wf(),
        ensures
            level == layer_of(self@, sample),
            level < self.spec_level_count(),
    {
        let last: usize = self.bounds.len() - 2;
        proof {
            lemma_bound_at_least_index(self@, self@.len() - 1);
        }
        let mut i: usize = 0;
        while i < last
            invariant
                self.wf(),
                last == self@.len() - 2,
                last < u32::MAX,
                0 <= i <= last,
                forall|k: int| 0 <= k < i ==> !in_layer(self@, sample, k),
            decreases last - i,
        {
            if self.bounds[i] <= sample && sample < self.bounds[i + 1] {
                proof {
                    lemma_layer_unique(self@, sample, i as int);
                }
                return i as u32;
            }
            i += 1;
        }
        proof {
            if in_layer(self@, sample, last as int) {
                lemma_layer_unique(self@, sample, last as int);
            } else {
                assert(forall|k: int| !in_layer(self@, sample, k));
            }
        }
        last as u32
    }
}

} // verus!
