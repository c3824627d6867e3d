//! Drawing an index with a probability proportional to its weight.

use rand::rngs::ThreadRng;
use vstd::prelude::*;

use crate::random::{drew_uniform, next_uniform};

verus! {

/// Sum of `weights`.
pub open spec fn total(weights: Seq<u64>) -> nat
    decreases weights.len(),
{
    if weights.len() == 0 {
        0
    } else {
        total(weights.drop_last()) + weights.last() as nat
    }
}

/// Whether the number `chosen` falls to `index` when the numbers from zero up are dealt out in
/// order, `weights[0]` of them to index 0, the next `weights[1]` to index 1, and so on.
pub open spec fn selects(weights: Seq<u64>, chosen: u64, index: int) -> bool {
    &&& 0 <= index < weights.len()
    &&& total(weights.take(index)) <= chosen < total(weights.take(index + 1))
}

/// The index that the number `chosen` falls to.
pub open spec fn selected(weights: Seq<u64>, chosen: u64) -> int {
    choose|index: int| selects(weights, chosen, index)
}

/// Taking one more weight adds it to the sum.
proof fn lemma_total_step(weights: Seq<u64>, n: int)
    requires
        0 <= n < weights.len(),
    ensures
        total(weights.take(n + 1)) == total(weights.take(n)) + weights[n],
{
    assert(weights.take(n + 1).drop_last() =~= weights.take(n));
}

/// A longer prefix has no smaller sum.
proof fn lemma_total_monotonic(weights: Seq<u64>, m: int, n: int)
    requires
        0 <= m <= n <= weights.len(),
    ensures
        total(weights.take(m)) <= total(weights.take(n)),
    decreases n - m,
{
    if m < n {
        lemma_total_monotonic(weights, m, n - 1);
        lemma_total_step(weights, n - 1);
    }
}

/// No weights add up to nothing, and a single one to itself.
pub proof fn total_of_few(weight: u64)
    ensures
        total(Seq::empty()) == 0,
        total(seq![weight]) == weight,
{
    assert(seq![weight].drop_last() =~= Seq::<u64>::empty());
}

/// The sum of two lists, one after the other, is the sum of their sums.
pub proof fn total_of_concatenation(a: Seq<u64>, b: Seq<u64>)
    ensures
        total(a + b) == total(a) + total(b),
    decreases b.len(),
{
    if b.len() == 0 {
        assert(a + b =~= a);
    } else {
        total_of_concatenation(a, b.drop_last());
        assert((a + b).drop_last() =~= a + b.drop_last());
        assert((a + b).last() == b.last());
    }
}

/// If some weight is positive, so is the sum.
pub proof fn total_is_positive(weights: Seq<u64>, i: int)
    requires
        0 <= i < weights.len(),
        weights[i] > 0,
    ensures
        total(weights) > 0,
{
    lemma_total_step(weights, i);
    lemma_total_monotonic(weights, i + 1, weights.len() as int);
    assert(weights.take(weights.len() as int) =~= weights);
}

/// Weights of at most `bound` each add up to at most `bound` times their number.
pub proof fn total_is_bounded(weights: Seq<u64>, bound: nat)
    requires
        forall|i: int| 0 <= i < weights.len() ==> #[trigger] weights[i] <= bound,
    ensures
        total(weights) <= bound * weights.len(),
    decreases weights.len(),
{
    if weights.len() > 0 {
        let rest = weights.drop_last();
        assert forall|i: int| 0 <= i < rest.len() implies #[trigger] rest[i] <= bound by {
            assert(rest[i] == weights[i]);
        }
        total_is_bounded(rest, bound);
        assert(bound * weights.len() == bound * rest.len() + bound) by (nonlinear_arith)
            requires
                weights.len() == rest.len() + 1,
        ;
    }
}

/// An index that some number falls to has a positive weight.
pub proof fn selected_weight_is_positive(weights: Seq<u64>, chosen: u64, index: int)
    requires
        selects(weights, chosen, index),
    ensures
        weights[index] > 0,
{
    lemma_total_step(weights, index);
}

/// The index that a number falls to is the one whose share it lies in.
pub proof fn selected_index_holds_the_number(weights: Seq<u64>, chosen: u64, index: int)
    requires
        0 <= index < weights.len(),
        total(weights.take(index)) <= chosen < total(weights.take(index)) + weights[index],
    ensures
        selected(weights, chosen) == index,
{
    lemma_total_step(weights, index);
    assert(selects(weights, chosen, index));
    selection_is_unique(weights, chosen, index, selected(weights, chosen));
}

/// A number falls to an index if and only if it is one of as many numbers as the index has
/// weight, starting at the sum of the weights before.
pub proof fn numbers_of_an_index(weights: Seq<u64>, chosen: u64, index: int)
    ensures
        selects(weights, chosen, index) <==> {
            &&& 0 <= index < weights.len()
            &&& total(weights.take(index)) <= chosen
            &&& chosen < total(weights.take(index)) + weights[index]
        },
{
    if 0 <= index < weights.len() {
        lemma_total_step(weights, index);
    }
}

/// A number that falls to some index is below the sum of the weights.
pub proof fn selected_number_is_below_total(weights: Seq<u64>, chosen: u64, index: int)
    requires
        selects(weights, chosen, index),
    ensures
        chosen < total(weights),
{
    lemma_total_monotonic(weights, index + 1, weights.len() as int);
    assert(weights.take(weights.len() as int) =~= weights);
}

/// A number falls to one index only.
pub proof fn selection_is_unique(weights: Seq<u64>, chosen: u64, i: int, j: int)
    requires
        selects(weights, chosen, i),
        selects(weights, chosen, j),
    ensures
        i == j,
{
    if i < j {
        lemma_total_monotonic(weights, i + 1, j);
    } else if j < i {
        lemma_total_monotonic(weights, j + 1, i);
    }
}

/// The numbers that fall to an index are consecutive, and there are as many of them as its
/// weight says.
pub proof fn selection_share_is_weight(weights: Seq<u64>, chosen: u64, index: int)
    requires
        0 <= index < weights.len(),
    ensures
        selects(weights, chosen, index) <==> total(weights.take(index)) <= chosen < total(
            weights.take(index),
        ) + weights[index],
{
    lemma_total_step(weights, index);
}

/// Every index of positive weight, the last one included, has a number that falls to it.
pub proof fn weight_has_a_number(weights: Seq<u64>, index: int) -> (chosen: u64)
    requires
        0 <= index < weights.len(),
        weights[index] > 0,
        total(weights) <= u64::MAX,
    ensures
        selects(weights, chosen, index),
{
    lemma_total_monotonic(weights, index, weights.len() as int);
    assert(weights.take(weights.len() as int) =~= weights);
    lemma_total_step(weights, index);
    total(weights.take(index)) as u64
}

/// Every number below the sum of the weights falls to some index.
pub proof fn selection_exists(weights: Seq<u64>, chosen: u64) -> (index: int)
    requires
        chosen < total(weights),
    ensures
        selects(weights, chosen, index),
    decreases weights.len(),
{
    let n = weights.len() - 1;
    assert(weights.take(n) =~= weights.drop_last());
    assert(weights.take(n + 1) =~= weights);
    if total(weights.take(n)) <= chosen {
        n
    } else {
        let rest = weights.drop_last();
        let index = selection_exists(rest, chosen);
        assert(rest.take(index) =~= weights.take(index));
        assert(rest.take(index + 1) =~= weights.take(index + 1));
        index
    }
}

/// Whether `chosen` is below the sum of `weights`.
pub fn is_below_total(weights: &[u64], chosen: u64) -> (below: bool)
    requires
        total(weights@) <= u64::MAX,
    ensures
        below == (chosen < total(weights@)),
{
    let mut sum: u64 = 0;
    let mut i: usize = 0;
    assert(weights@.take(0) =~= Seq::<u64>::empty());
    while i < weights.len()
        invariant
            i <= weights@.len(),
            total(weights@) <= u64::MAX,
            sum == total(weights@.take(i as int)),
        decreases weights@.len() - i,
    {
        proof {
            lemma_total_step(weights@, i as int);
            lemma_total_monotonic(weights@, i + 1, weights@.len() as int);
            assert(weights@.take(weights@.len() as int) =~= weights@);
        }
        sum += weights[i];
        i += 1;
    }
    assert(weights@.take(i as int) =~= weights@);
    chosen < sum
}

/// A distribution over the indices of a list of weights.
///
/// The running sums are kept in one vector, which an update fills anew without giving up its
/// memory.
pub struct WeightedDistr {
    /// Sums of the first 1, 2, ... weights, without the sum of all of them.
    cumulative_weights: Vec<u64>,
    /// Sum of all weights; draws are taken below it.
    total_weight: u64,
}

impl WeightedDistr {
    /// Sum of the first `n` weights, as it is stored.
    spec fn bound(self, n: int) -> u64 {
        if n <= 0 {
            0
        } else if n <= self.cumulative_weights@.len() {
            self.cumulative_weights@[n - 1]
        } else {
            self.total_weight
        }
    }

    /// The running sums never fall, and there is something to draw.
    pub closed spec fn wf(self) -> bool {
        &&& self.total_weight > 0
        &&& forall|m: int, n: int|
            0 <= m <= n <= self.cumulative_weights@.len() + 1 ==> #[trigger] self.bound(m)
                <= #[trigger] self.bound(n)
    }
}

impl View for WeightedDistr {
    type V = Seq<u64>;

    /// The weights.
    closed spec fn view(&self) -> Seq<u64> {
        Seq::new(
            self.cumulative_weights@.len() + 1,
            |i: int| (self.bound(i + 1) - self.bound(i)) as u64,
        )
    }
}

impl WeightedDistr {
    /// The stored sums are the sums of the weights.
    proof fn lemma_bound(self, n: int)
        requires
            self.wf(),
            0 <= n <= self@.len(),
        ensures
            self.bound(n) == total(self@.take(n)),
        decreases n,
    {
        if n > 0 {
            self.lemma_bound(n - 1);
            lemma_total_step(self@, n - 1);
            assert(self.bound(n - 1) <= self.bound(n));
        }
    }

    /// What is stored for `weights` is well formed and has `weights` as its view.
    proof fn lemma_stored(self, weights: Seq<u64>)
        requires
            0 < weights.len(),
            0 < total(weights) <= u64::MAX,
            self.cumulative_weights@.len() == weights.len() - 1,
            self.total_weight == total(weights),
            forall|i: int|
                0 <= i < weights.len() - 1 ==> #[trigger] self.cumulative_weights@[i] == total(
                    weights.take(i + 1),
                ),
        ensures
            self.wf(),
            self@ == weights,
    {
        assert(weights.take(weights.len() as int) =~= weights);
        assert forall|n: int| 0 <= n <= weights.len() implies #[trigger] self.bound(n) == total(
            weights.take(n),
        ) by {
            assert(weights.take(0) =~= Seq::<u64>::empty());
        }
        assert forall|m: int, n: int| 0 <= m <= n <= weights.len() implies #[trigger] self.bound(m)
            <= #[trigger] self.bound(n) by {
            lemma_total_monotonic(weights, m, n);
        }
        assert forall|i: int| 0 <= i < weights.len() implies #[trigger] self@[i] == weights[i] by {
            lemma_total_step(weights, i);
            assert(self.bound(i + 1) - self.bound(i) == weights[i]);
        }
        assert(self@ =~= weights);
    }

    /// A distribution over the indices of `weights`.
    pub fn new(weights: &[u64]) -> (distr: Self)
        requires
            weights@.len() > 0,
            0 < total(weights@) <= u64::MAX,
        ensures
            distr.wf(),
            distr@ == weights@,
    {
        let mut weights_prefix: Vec<u64> = Vec::with_capacity(weights.len());
        let total_weight: u64 = Self::update_inner(&mut weights_prefix, weights);
        let distr = Self { cumulative_weights: weights_prefix, total_weight };
        proof {
            distr.lemma_stored(weights@);
        }
        distr
    }

    /// Replaces the weights.
    pub fn update(&mut self, new_weights: &[u64])
        requires
            new_weights@.len() > 0,
            0 < total(new_weights@) <= u64::MAX,
        ensures
            final(self).wf(),
            final(self)@ == new_weights@,
    {
        self.total_weight = Self::update_inner(&mut self.cumulative_weights, new_weights);
        proof {
            self.lemma_stored(new_weights@);
        }
    }

    /// Fills `weights_prefix` with the running sums of `new_weights`, all but the last, which
    /// is returned. Draws are taken below it, so it has to be positive.
    fn update_inner(weights_prefix: &mut Vec<u64>, new_weights: &[u64]) -> (total_weight: u64)
        requires
            new_weights@.len() > 0,
            0 < total(new_weights@) <= u64::MAX,
        ensures
            final(weights_prefix)@.len() == new_weights@.len() - 1,
            forall|i: int|
                0 <= i < new_weights@.len() - 1 ==> #[trigger] final(weights_prefix)@[i] == total(
                    new_weights@.take(i + 1),
                ),
            total_weight == total(new_weights@),
    {
        weights_prefix.clear();
        weights_prefix.reserve(new_weights.len() - 1);
        let mut total_weight: u64 = new_weights[0];
        let mut i: usize = 1;
        proof {
            lemma_total_step(new_weights@, 0);
            assert(new_weights@.take(0) =~= Seq::<u64>::empty());
        }
        while i < new_weights.len()
            invariant
                1 <= i <= new_weights@.len(),
                total(new_weights@) <= u64::MAX,
                total_weight == total(new_weights@.take(i as int)),
                weights_prefix@.len() == i - 1,
                forall|j: int|
                    0 <= j < i - 1 ==> #[trigger] weights_prefix@[j] == total(
                        new_weights@.take(j + 1),
                    ),
            decreases new_weights@.len() - i,
        {
            weights_prefix.push(total_weight);
            proof {
                lemma_total_step(new_weights@, i as int);
                lemma_total_monotonic(new_weights@, i + 1, new_weights@.len() as int);
                assert(new_weights@.take(new_weights@.len() as int) =~= new_weights@);
            }
            total_weight += new_weights[i];
            i += 1;
        }
        assert(new_weights@.take(i as int) =~= new_weights@);
        total_weight
    }

    /// The index that `chosen_weight` falls to: the first whose running sum is higher.
    pub fn index_for(&self, chosen_weight: u64) -> (index: usize)
        requires
            self.wf(),
            chosen_weight < total(self@),
        ensures
            selects(self@, chosen_weight, index as int),
            index < self@.len(),
            total(self@.take(index as int)) <= chosen_weight,
            chosen_weight < total(self@.take(index as int)) + self@[index as int],
    {
        let mut low: usize = 0;
        let mut high: usize = self.cumulative_weights.len();
        while low < high
            invariant
                self.wf(),
                low <= high <= self.cumulative_weights@.len(),
                self.bound(low as int) <= chosen_weight,
                high == self.cumulative_weights@.len() || chosen_weight < self.bound(high + 1),
            decreases high - low,
        {
            let mid: usize = low + (high - low) / 2;
            assert(self.bound(mid + 1) == self.cumulative_weights@[mid as int]);
            if self.cumulative_weights[mid] <= chosen_weight {
                low = mid + 1;
            } else {
                high = mid;
            }
        }
        proof {
            self.lemma_bound(low as int);
            self.lemma_bound(low + 1);
            self.lemma_bound(self@.len() as int);
            assert(self@.take(self@.len() as int) =~= self@);
            lemma_total_step(self@, low as int);
        }
        low
    }

    /// Draws an index, each with a probability proportional to its weight: the one that the
    /// generator's next number below the sum of the weights falls to.
    pub fn sample(&self, rng: &mut ThreadRng) -> (index: usize)
        requires
            self.wf(),
        ensures
            exists|chosen: u64|
                chosen < total(self@) && #[trigger] selects(self@, chosen, index as int),
            exists|chosen: u64|
                drew_uniform(*old(rng), *final(rng), total(self@) as u64, chosen)
                    && #[trigger] selects(self@, chosen, index as int),
            index < self@.len(),
            self@[index as int] > 0,
    {
        proof {
            self.lemma_bound(self@.len() as int);
            assert(self@.take(self@.len() as int) =~= self@);
        }
        let chosen_weight: u64 = next_uniform(rng, self.total_weight);
        let index: usize = self.index_for(chosen_weight);
        proof {
            selected_weight_is_positive(self@, chosen_weight, index as int);
        }
        index
    }
}

} // verus!
