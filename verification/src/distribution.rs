//! Distributions over a fixed list of values: weighted, or a single value.

use vstd::prelude::*;
use rand::distributions::WeightedError;
use rand::distributions::WeightedIndex;

verus! {

/// `WeightedIndex` of `rand` over `u32` weights. Verus sees nothing inside
/// it; `index_weights` names the weights that it was built from.
#[verifier::external_body]
pub struct WeightTable {
    index: WeightedIndex<u32>,
}

/// `WeightedError` of `rand`: why a weighted index could not be built.
#[verifier::external_type_specification]
#[verifier::external_body]
pub struct ExWeightedError(WeightedError);

/// The weights that a weighted index was built from, in their order.
pub uninterp spec fn index_weights(table: WeightTable) -> Seq<u32>;

/// The sum of the weights.
pub open spec fn total_weight(weights: Seq<u32>) -> int
    decreases weights.len(),
{
    if weights.len() == 0 {
        0
    } else {
        total_weight(weights.drop_last()) + weights.last()
    }
}

/// `WeightedIndex::new` of `rand`, on a slice of `u32` weights whose sum is a
/// `u32`: it builds the index exactly when there is a weight and not all
/// weights are zero, and the index is over these weights.
#[verifier::external_body]
pub(crate) fn weighted_index_new(weights: &Vec<u32>) -> (r: Result<WeightTable, WeightedError>)
    requires
        total_weight(weights@) <= u32::MAX,
    ensures
        match r {
            Ok(table) => weights@.len() > 0 && total_weight(weights@) > 0 && index_weights(table)
                == weights@,
            Err(_) => weights@.len() == 0 || total_weight(weights@) == 0,
        },
{
    match WeightedIndex::new(weights) {
        Ok(index) => Ok(WeightTable { index }),
        Err(e) => Err(e),
    }
}

/// `Distribution::sample` of `rand` for a weighted index, with the generator
/// of the thread that `thread_rng` gives: the place of one of the weights,
/// and never of a weight that is zero.
#[verifier::external_body]
pub(crate) fn weighted_index_sample(table: &WeightTable) -> (i: usize)
    ensures
        i < index_weights(*table).len(),
        index_weights(*table)[i as int] > 0,
{
    rand::distributions::Distribution::sample(&table.index, &mut rand::thread_rng())
}

/// Why a weighted distribution could not be built.
#[derive(Clone, Copy, Debug, PartialEq, Eq, Structural)]
pub enum WeightError {
    /// There are not as many weights as values.
    LengthMismatch,
    /// There is no value.
    NoItem,
    /// The sum of the weights is not a `u32`.
    TotalTooLarge,
    /// Every weight is zero.
    AllWeightsZero,
}

/// What is wrong with values and weights for a weighted distribution, if
/// anything; the first of the four checks that fails names the fault.
pub open spec fn weight_fault(values: int, weights: Seq<u32>) -> Option<WeightError> {
    if values != weights.len() {
        Some(WeightError::LengthMismatch)
    } else if total_weight(weights) > u32::MAX {
        Some(WeightError::TotalTooLarge)
    } else if weights.len() == 0 {
        Some(WeightError::NoItem)
    } else if total_weight(weights) == 0 {
        Some(WeightError::AllWeightsZero)
    } else {
        None
    }
}

/// Adds the weights up, as far as the sum is a `u32`.
pub fn checked_total(weights: &Vec<u32>) -> (total: Option<u32>)
    ensures
        match total {
            Some(sum) => sum == total_weight(weights@),
            None => total_weight(weights@) > u32::MAX,
        },
{
    let mut sum: u32 = 0;
    let mut i: usize = 0;
    assert(weights@.subrange(0, 0) =~= Seq::<u32>::empty());
    while i < weights.len()
        invariant
            0 <= i <= weights@.len(),
            sum == total_weight(weights@.subrange(0, i as int)),
        decreases weights@.len() - i,
    {
        proof {
            assert(weights@.subrange(0, i + 1).drop_last() =~= weights@.subrange(0, i as int));
            lemma_total_grows(weights@, i + 1);
        }
        if weights[i] > u32::MAX - sum {
            return None;
        }
        sum = sum + weights[i];
        i += 1;
    }
    assert(weights@.subrange(0, i as int) =~= weights@);
    Some(sum)
}

/// The sum of the first `n` weights is at most the sum of all.
pub proof fn lemma_total_grows(weights: Seq<u32>, n: int)
    requires
        0 <= n <= weights.len(),
    ensures
        0 <= total_weight(weights.subrange(0, n)) <= total_weight(weights),
    decreases weights.len() - n,
{
    if n == 0 {
        assert(weights.subrange(0, 0) =~= Seq::<u32>::empty());
        lemma_total_nonnegative(weights);
    } else if n < weights.len() {
        lemma_total_grows(weights, n + 1);
        assert(weights.subrange(0, n + 1).drop_last() =~= weights.subrange(0, n));
        lemma_total_nonnegative(weights.subrange(0, n));
    } else {
        assert(weights.subrange(0, n) =~= weights);
        lemma_total_nonnegative(weights);
    }
}

/// A sum of weights is not negative.
pub proof fn lemma_total_nonnegative(weights: Seq<u32>)
    ensures
        total_weight(weights) >= 0,
    decreases weights.len(),
{
    if weights.len() > 0 {
        lemma_total_nonnegative(weights.drop_last());
    }
}

/// A distribution over values of `T`.
pub trait Distribution<T> {
    /// What the distribution needs to hold of itself.
    spec fn wf(&self) -> bool;

    /// Whether the distribution can give `value`.
    spec fn yields(&self, value: T) -> bool;

    /// A value of the distribution, chosen at random.
    fn get_random(&self) -> (value: &T)
        requires
            self.wf(),
        ensures
            self.yields(*value),
    ;
}

/// A distribution in which each value has a weight; a value is chosen with a
/// probability proportional to its weight.
pub struct WeightedDistribution<T> {
    values: Vec<T>,
    dist: WeightTable,
}

/// A distribution that always gives the same value.
#[derive(Clone)]
pub struct SingletonDistribution<T> {
    value: T,
}

/// A weighted distribution or a single value.
pub enum AnyDistribution<T> {
    Weighted(WeightedDistribution<T>),
    Singleton(SingletonDistribution<T>),
}

impl<T> WeightedDistribution<T> {
    pub closed spec fn values(&self) -> Seq<T> {
        self.values@
    }

    pub closed spec fn weights(&self) -> Seq<u32> {
        index_weights(self.dist)
    }

    /// There is a weight for each value.
    pub open spec fn well_formed(&self) -> bool {
        self.values().len() == self.weights().len()
    }

    /// Whether `value` is one of the values with a weight above zero.
    pub open spec fn can_give(&self, value: T) -> bool {
        exists|i: int|
            0 <= i < self.values().len() && self.weights()[i] > 0 && self.values()[i] == value
    }

    /// A distribution that gives `values[i]` with the weight `weights[i]`.
    pub fn new(values: Vec<T>, weights: Vec<u32>) -> (dist: Self)
        requires
            weight_fault(values@.len() as int, weights@) is None,
        ensures
            dist.well_formed(),
            dist.values() == values@,
            dist.weights() == weights@,
    {
        match weighted_index_new(&weights) {
            Ok(dist) => WeightedDistribution { values, dist },
            Err(_) => vstd::pervasive::unreached(),
        }
    }

    /// A distribution that gives `values[i]` with the weight `weights[i]`,
    /// or the fault of the values and weights.
    pub fn try_new(values: Vec<T>, weights: Vec<u32>) -> (r: Result<Self, WeightError>)
        ensures
            match r {
                Ok(dist) => {
                    &&& weight_fault(values@.len() as int, weights@) is None
                    &&& dist.well_formed()
                    &&& dist.values() == values@
                    &&& dist.weights() == weights@
                },
                Err(e) => weight_fault(values@.len() as int, weights@) == Some(e),
            },
    {
        if values.len() != weights.len() {
            return Err(WeightError::LengthMismatch);
        }
        if checked_total(&weights).is_none() {
            return Err(WeightError::TotalTooLarge);
        }
        match weighted_index_new(&weights) {
            Ok(dist) => Ok(WeightedDistribution { values, dist }),
            Err(_) => {
                if weights.len() == 0 {
                    Err(WeightError::NoItem)
                } else {
                    Err(WeightError::AllWeightsZero)
                }
            },
        }
    }

    /// The value at a place that the weighted index gave.
    pub fn value_at(&self, index: usize) -> (value: &T)
        requires
            index < self.values().len(),
        ensures
            *value == self.values()[index as int],
    {
        &self.values[index]
    }
}

impl<T> SingletonDistribution<T> {
    pub closed spec fn value(&self) -> T {
        self.value
    }

    /// The distribution that always gives `value`.
    pub fn new(value: T) -> (dist: Self)
        ensures
            dist.value() == value,
    {
        Self { value }
    }
}

impl<T> Distribution<T> for WeightedDistribution<T> {
    open spec fn wf(&self) -> bool {
        self.well_formed()
    }

    open spec fn yields(&self, value: T) -> bool {
        self.can_give(value)
    }

    fn get_random(&self) -> (value: &T) {
        let index: usize = weighted_index_sample(&self.dist);
        self.value_at(index)
    }
}

impl<T> Distribution<T> for SingletonDistribution<T> {
    open spec fn wf(&self) -> bool {
        true
    }

    open spec fn yields(&self, value: T) -> bool {
        value == self.value()
    }

    fn get_random(&self) -> (value: &T) {
        &self.value
    }
}

impl<T> AnyDistribution<T> {
    pub open spec fn wf(&self) -> bool {
        match self {
            AnyDistribution::Weighted(d) => d.well_formed(),
            AnyDistribution::Singleton(_) => true,
        }
    }

    /// Whether the distribution can give `value`.
    pub open spec fn yields(&self, value: T) -> bool {
        match self {
            AnyDistribution::Weighted(d) => d.can_give(value),
            AnyDistribution::Singleton(d) => value == d.value(),
        }
    }

    pub fn new_weighted(values: Vec<T>, weights: Vec<u32>) -> (dist: Self)
        requires
            weight_fault(values@.len() as int, weights@) is None,
        ensures
            dist.wf(),
            match dist {
                AnyDistribution::Weighted(d) => d.values() == values@ && d.weights() == weights@,
                AnyDistribution::Singleton(_) => false,
            },
    {
        AnyDistribution::Weighted(WeightedDistribution::new(values, weights))
    }

    pub fn new_singleton(value: T) -> (dist: Self)
        ensures
            dist.wf(),
            match dist {
                AnyDistribution::Weighted(_) => false,
                AnyDistribution::Singleton(d) => d.value() == value,
            },
    {
        AnyDistribution::Singleton(SingletonDistribution::new(value))
    }

    /// A value of the distribution, chosen at random.
    pub fn get_random(&self) -> (value: &T)
        requires
            self.wf(),
        ensures
            self.yields(*value),
    {
        match self {
            AnyDistribution::Weighted(d) => d.get_random(),
            AnyDistribution::Singleton(d) => d.get_random(),
        }
    }
}

} // verus!
