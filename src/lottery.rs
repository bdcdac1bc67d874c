use vstd::prelude::*;

use rand::rngs::ThreadRng;
use rand::Rng;

use crate::error::TreeError;

verus! {

#[verifier::external_type_specification]
#[verifier::external_body]
pub struct ExThreadRng(rand::rngs::ThreadRng);

/// Relies on `rand::thread_rng`: a handle to this thread's generator.
#[verifier::external_body]
pub(crate) fn fresh_rng() -> ThreadRng {
    rand::thread_rng()
}

/// Relies on `Clone` for `ThreadRng`: a second handle to the same generator.
#[verifier::external_body]
fn share_rng(rng: &ThreadRng) -> ThreadRng {
    rng.clone()
}

/// Relies on `Rng::gen_range` over `0..n`: a value below `n`. It panics on an
/// empty range, which `requires` leaves out.
#[verifier::external_body]
fn random_below(rng: &mut ThreadRng, n: usize) -> (r: usize)
    requires
        n > 0,
    ensures
        r < n,
{
    rng.gen_range(0..n)
}

/// The sum of a sequence of weights.
pub open spec fn weight_sum(w: Seq<usize>) -> nat
    decreases w.len(),
{
    if w.len() == 0 {
        0
    } else {
        weight_sum(w.drop_last()) + w.last() as nat
    }
}

/// Outcome `i` owns the draws in `(weight_sum(w[..i]), weight_sum(w[..=i])]`:
/// this is the index that a draw `d` from `1..=weight_sum(w)` selects.
pub open spec fn selects(w: Seq<usize>, d: int, i: int) -> bool {
    0 <= i < w.len() && weight_sum(w.take(i)) < d <= weight_sum(w.take(i + 1))
}

proof fn lemma_sum_step(w: Seq<usize>, i: int)
    requires
        0 <= i < w.len(),
    ensures
        weight_sum(w.take(i + 1)) == weight_sum(w.take(i)) + w[i],
{
    assert(w.take(i + 1).drop_last() =~= w.take(i));
}

proof fn lemma_sum_monotone(w: Seq<usize>, i: int, j: int)
    requires
        0 <= i <= j <= w.len(),
    ensures
        weight_sum(w.take(i)) <= weight_sum(w.take(j)),
    decreases j - i,
{
    if i < j {
        lemma_sum_step(w, j - 1);
        lemma_sum_monotone(w, i, j - 1);
    }
}

/// Picks one of several outcomes at random, each with a positive weight.
///
/// Outcomes added without a weight count with weight one; as long as no
/// weight was ever given, the choice is a uniform draw over the outcomes.
/// Otherwise a draw from `1..=total` is located in the table of cumulative
/// weights, which is rebuilt only after the outcomes have changed.
pub struct Lottery<T: Copy> {
    rng: ThreadRng,
    possible_outcomes: Vec<T>,
    weights: Vec<usize>,
    is_biased: bool,
    is_compiled: bool,
    cumulative_weights: Vec<usize>,
}

impl<T: Copy> Lottery<T> {
    /// The outcomes, in the order in which they were added.
    pub closed spec fn outcomes(&self) -> Seq<T> {
        self.possible_outcomes@
    }

    /// The weight of each outcome.
    pub closed spec fn weights(&self) -> Seq<usize> {
        self.weights@
    }

    /// Whether some outcome was added with an explicit weight.
    pub closed spec fn biased(&self) -> bool {
        self.is_biased
    }

    /// One weight per outcome, none zero, the total representable, and a
    /// cumulative table that is current whenever it is marked so.
    pub closed spec fn wf(&self) -> bool {
        &&& self.weights@.len() == self.possible_outcomes@.len()
        &&& forall|i: int| 0 <= i < self.weights@.len() ==> #[trigger] self.weights@[i] > 0
        &&& weight_sum(self.weights@) <= usize::MAX
        &&& self.is_compiled ==> {
            &&& self.cumulative_weights@.len() == self.weights@.len()
            &&& forall|i: int|
                0 <= i < self.weights@.len() ==> #[trigger] self.cumulative_weights@[i]
                    == weight_sum(self.weights@.take(i + 1))
        }
    }

    /// What well-formedness gives a caller: one weight per outcome, every
    /// weight positive, and a total that fits in `usize`.
    pub proof fn lemma_wf_facts(&self)
        requires
            self.wf(),
        ensures
            self.weights().len() == self.outcomes().len(),
            forall|i: int| 0 <= i < self.weights().len() ==> #[trigger] self.weights()[i] > 0,
            weight_sum(self.weights()) <= usize::MAX,
    {
    }

    /// An empty lottery that draws from (a handle to) `rng`.
    pub fn build(rng: &mut ThreadRng) -> (r: Lottery<T>)
        ensures
            r.wf(),
            r.outcomes().len() == 0,
            r.weights().len() == 0,
            !r.biased(),
    {
        Lottery {
            rng: share_rng(rng),
            possible_outcomes: Vec::new(),
            weights: Vec::new(),
            is_biased: false,
            is_compiled: false,
            cumulative_weights: Vec::new(),
        }
    }

    /// Adds `outcome` with the default weight of one.
    pub fn add(&mut self, outcome: T)
        requires
            old(self).wf(),
            weight_sum(old(self).weights()) < usize::MAX,
        ensures
            final(self).wf(),
            final(self).outcomes() == old(self).outcomes().push(outcome),
            final(self).weights() == old(self).weights().push(1),
            weight_sum(final(self).weights()) == weight_sum(old(self).weights()) + 1,
            final(self).biased() == old(self).biased(),
    {
        self.is_compiled = false;
        self.possible_outcomes.push(outcome);
        let ghost w = self.weights@;
        self.weights.push(1);
        assert(self.weights@.drop_last() =~= w);
    }

    /// Adds `outcome` with weight `bias`; a weight of zero is refused with
    /// `InvalidWeight` and leaves the lottery as it was.
    pub fn add_with_bias(&mut self, outcome: T, bias: usize) -> (r: Result<(), TreeError>)
        requires
            old(self).wf(),
            weight_sum(old(self).weights()) + bias <= usize::MAX,
        ensures
            final(self).wf(),
            bias == 0 ==> r == Err::<(), TreeError>(TreeError::InvalidWeight) && final(self).outcomes()
                == old(self).outcomes() && final(self).weights() == old(self).weights()
                && final(self).biased() == old(self).biased(),
            bias > 0 ==> r is Ok && final(self).outcomes() == old(self).outcomes().push(outcome)
                && final(self).weights() == old(self).weights().push(bias) && final(self).biased(),
    {
        if bias == 0 {
            return Err(TreeError::InvalidWeight);
        }
        self.is_compiled = false;
        self.is_biased = true;
        self.possible_outcomes.push(outcome);
        let ghost w = self.weights@;
        self.weights.push(bias);
        assert(self.weights@.drop_last() =~= w);
        Ok(())
    }

    /// A uniform draw over the outcomes, whatever their weights; fails with
    /// `EmptyPopulation` when there is none.
    pub fn choose_without_bias(&mut self) -> (r: Result<T, TreeError>)
        requires
            old(self).wf(),
        ensures
            final(self).wf(),
            final(self).outcomes() == old(self).outcomes(),
            final(self).weights() == old(self).weights(),
            final(self).biased() == old(self).biased(),
            old(self).outcomes().len() == 0 ==> r == Err::<T, TreeError>(TreeError::EmptyPopulation),
            old(self).outcomes().len() > 0 ==> exists|i: int|
                0 <= i < old(self).outcomes().len() && r == Ok::<T, TreeError>(
                    #[trigger] old(self).outcomes()[i],
                ),
    {
        let n = self.possible_outcomes.len();
        if n == 0 {
            return Err(TreeError::EmptyPopulation);
        }
        let num = random_below(&mut self.rng, n);
        Ok(self.possible_outcomes[num])
    }

    /// Rebuilds the table of cumulative weights.
    fn compile_cumulative_weights(&mut self)
        requires
            old(self).wf(),
        ensures
            final(self).wf(),
            final(self).is_compiled,
            final(self).possible_outcomes@ == old(self).possible_outcomes@,
            final(self).weights@ == old(self).weights@,
            final(self).is_biased == old(self).is_biased,
    {
        let n = self.weights.len();
        let mut table: Vec<usize> = Vec::new();
        let mut sum: usize = 0;
        let mut i: usize = 0;
        while i < n
            invariant
                self.wf(),
                n == self.weights@.len(),
                i <= n,
                table@.len() == i,
                sum == weight_sum(self.weights@.take(i as int)),
                forall|k: int|
                    0 <= k < i ==> #[trigger] table@[k] == weight_sum(self.weights@.take(k + 1)),
            decreases n - i,
        {
            proof {
                lemma_sum_step(self.weights@, i as int);
                lemma_sum_monotone(self.weights@, i + 1, n as int);
                assert(self.weights@.take(n as int) =~= self.weights@);
            }
            sum = sum + self.weights[i];
            table.push(sum);
            i = i + 1;
        }
        self.cumulative_weights = table;
        self.is_compiled = true;
    }

    /// The outcome that draw `d` selects among the weighted outcomes: the
    /// first whose cumulative weight reaches `d`.
    pub fn choose_with_draw(&mut self, d: usize) -> (r: T)
        requires
            old(self).wf(),
            old(self).outcomes().len() > 0,
            1 <= d <= weight_sum(old(self).weights()),
        ensures
            final(self).wf(),
            final(self).outcomes() == old(self).outcomes(),
            final(self).weights() == old(self).weights(),
            final(self).biased() == old(self).biased(),
            exists|i: int| selects(old(self).weights(), d as int, i) && r == old(self).outcomes()[i],
    {
        if !self.is_compiled {
            self.compile_cumulative_weights();
        }
        let n = self.cumulative_weights.len();
        let mut left: usize = 0;
        let mut right: usize = n - 1;
        proof {
            assert(self.weights@.take(n as int) =~= self.weights@);
            assert(self.weights@.take(0) =~= Seq::<usize>::empty());
        }
        while left < right
            invariant
                self.wf(),
                self.is_compiled,
                n == self.weights@.len(),
                left <= right < n,
                self.cumulative_weights@[right as int] >= d,
                left == 0 || self.cumulative_weights@[left - 1] < d,
            decreases right - left,
        {
            let mid = left + (right - left) / 2;
            if self.cumulative_weights[mid] < d {
                left = mid + 1;
            } else {
                right = mid;
            }
        }
        proof {
            if left > 0 {
                assert(self.cumulative_weights@[left - 1] == weight_sum(self.weights@.take(left as int)));
            }
            assert(selects(self.weights@, d as int, left as int));
        }
        self.possible_outcomes[left]
    }

    /// One outcome at random: uniform while no weight was given, otherwise
    /// with probability proportional to its weight. Fails with
    /// `EmptyPopulation` when there is no outcome.
    pub fn pick(&mut self) -> (r: Result<T, TreeError>)
        requires
            old(self).wf(),
        ensures
            final(self).wf(),
            final(self).outcomes() == old(self).outcomes(),
            final(self).weights() == old(self).weights(),
            final(self).biased() == old(self).biased(),
            old(self).outcomes().len() == 0 ==> r == Err::<T, TreeError>(TreeError::EmptyPopulation),
            old(self).outcomes().len() > 0 ==> exists|i: int|
                0 <= i < old(self).outcomes().len() && r == Ok::<T, TreeError>(
                    #[trigger] old(self).outcomes()[i],
                ),
            old(self).outcomes().len() > 0 && old(self).biased() ==> exists|d: int, i: int|
                1 <= d <= weight_sum(old(self).weights()) && #[trigger] selects(
                    old(self).weights(),
                    d,
                    i,
                ) && r == Ok::<T, TreeError>(old(self).outcomes()[i]),
    {
        if !self.is_biased || self.possible_outcomes.len() == 0 {
            return self.choose_without_bias();
        }
        if !self.is_compiled {
            self.compile_cumulative_weights();
        }
        let n = self.cumulative_weights.len();
        proof {
            assert(self.weights@.take(n as int) =~= self.weights@);
        }
        let total = self.cumulative_weights[n - 1];
        let d = random_below(&mut self.rng, total) + 1;
        let ghost w = self.weights@;
        let ghost outs = self.possible_outcomes@;
        let r = self.choose_with_draw(d);
        proof {
            let i = choose|i: int| selects(w, d as int, i) && r == outs[i];
            assert(w == old(self).weights());
            assert(outs == old(self).outcomes());
            assert(1 <= d <= weight_sum(w));
            assert(selects(w, d as int, i));
            assert(r == outs[i]);
        }
        Ok(r)
    }
}

} // verus!
