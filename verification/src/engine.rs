//! The evolutionary loop for byte-sequence candidates: elitist survival,
//! fitness-weighted parent sampling, crossover and mutation, generation after
//! generation until an exact match or the generation budget.

use vstd::prelude::*;

use crate::EngineError;
use crate::Metric;
use crate::chromosome::Chromosome;
use crate::chromosome::RESAMPLE_LIMIT;
use crate::chromosome::rank;
use crate::chromosome::sorted_by_cost;
use crate::perm::lemma_multiset_eq_elements;
use crate::rng::ParentSampler;
use crate::rng::sampler_draw;
use crate::rng::sampler_new;
use crate::rng::sampler_weights;
use crate::rng::weight_sum;

verus! {

/// The numerator of the fixed-point reciprocal `WEIGHT_SCALE / cost` that
/// serves as a candidate's sampling weight.  It exceeds every possible cost,
/// so a positive cost always yields a positive weight.
pub const WEIGHT_SCALE: u64 = 0x1_0000_0000;

/// The largest accepted population size, so that the sampling weights always
/// sum to at most `u64::MAX`.
pub const MAX_POPULATION: usize = 0x8000_0000;

/// A sequence whose elements are bounded sums to at most length times bound.
pub proof fn lemma_weight_sum_bound(s: Seq<u64>, b: u64)
    requires
        forall|i: int| 0 <= i < s.len() ==> #[trigger] s[i] <= b,
    ensures
        weight_sum(s) <= s.len() * b,
    decreases s.len(),
{
    if s.len() > 0 {
        assert(forall|i: int|
            0 <= i < s.drop_last().len() ==> #[trigger] s.drop_last()[i] <= b);
        lemma_weight_sum_bound(s.drop_last(), b);
        assert(weight_sum(s) == weight_sum(s.drop_last()) + s.last());
        assert((s.len() - 1) * b + b == s.len() * b) by (nonlinear_arith);
    }
}

/// The fitness-proportionate sampling weights over a whole population's
/// positive costs: the fixed-point reciprocal `WEIGHT_SCALE / cost` of each.
/// An empty cost list, or one on which every reciprocal rounds to zero, is a
/// degenerate distribution: a fatal configuration error, checked rather than
/// assumed.
pub fn reciprocal_weights(costs: &Vec<u64>) -> (r: Result<Vec<u64>, EngineError>)
    requires
        forall|i: int| 0 <= i < costs@.len() ==> #[trigger] costs@[i] > 0,
    ensures
        match r {
            Ok(w) => {
                &&& w@.len() == costs@.len()
                &&& costs@.len() > 0
                &&& forall|i: int|
                    0 <= i < w@.len() ==> #[trigger] w@[i] == WEIGHT_SCALE as int / costs@[i] as int
                &&& forall|i: int| 0 <= i < w@.len() ==> #[trigger] w@[i] <= WEIGHT_SCALE
                &&& exists|i: int| 0 <= i < w@.len() && #[trigger] w@[i] > 0
            },
            Err(e) => {
                &&& e == EngineError::DegenerateWeights
                &&& (costs@.len() == 0 || forall|i: int|
                    0 <= i < costs@.len() ==> WEIGHT_SCALE as int / #[trigger] costs@[i] as int
                        == 0)
            },
        },
{
    let mut w: Vec<u64> = Vec::new();
    let mut any_positive = false;
    let ghost mut wit: int = 0;
    let mut i: usize = 0;
    while i < costs.len()
        invariant
            i <= costs@.len(),
            w@.len() == i,
            forall|j: int| 0 <= j < costs@.len() ==> #[trigger] costs@[j] > 0,
            forall|j: int|
                0 <= j < i ==> #[trigger] w@[j] == WEIGHT_SCALE as int / costs@[j] as int,
            forall|j: int| 0 <= j < i ==> #[trigger] w@[j] <= WEIGHT_SCALE,
            any_positive ==> 0 <= wit < i && w@[wit] > 0,
            !any_positive ==> forall|j: int| 0 <= j < i ==> #[trigger] w@[j] == 0,
        decreases costs@.len() - i,
    {
        let cost = costs[i];
        proof {
            let c = cost as int;
            let sc = WEIGHT_SCALE as int;
            assert(0 <= sc / c <= sc) by (nonlinear_arith)
                requires
                    0 < c,
                    0 < sc;
        }
        let weight = WEIGHT_SCALE / cost;
        if weight > 0 {
            any_positive = true;
            proof {
                wit = i as int;
            }
        }
        w.push(weight);
        proof {
            assert(w@[i as int] == weight);
        }
        i = i + 1;
    }
    if costs.len() == 0 || !any_positive {
        proof {
            if costs@.len() > 0 {
                assert forall|j: int|
                    0 <= j < costs@.len() implies WEIGHT_SCALE as int / #[trigger] costs@[j] as int
                    == 0 by {
                    assert(w@[j] == 0);
                }
            }
        }
        return Err(EngineError::DegenerateWeights);
    }
    proof {
        assert(w@[wit] > 0);
    }
    Ok(w)
}

/// The survival count as a function of the configuration: the configured
/// fraction of the population, rounded down, plus one when that would leave
/// an odd number of offspring slots (the fixed tie-break rule).
pub open spec fn survivor_count_spec(n: int, p: int) -> int {
    let s0 = n * p / 100;
    if (n - s0) % 2 == 1 {
        s0 + 1
    } else {
        s0
    }
}

/// The survival count: the configured fraction of the population, rounded to
/// keep the number of offspring slots even, so that crossover pairs always
/// fill the next generation exactly.
pub fn survivor_count(population_size: usize, survival_percent: usize) -> (r: usize)
    requires
        0 < population_size <= MAX_POPULATION,
        survival_percent < 100,
    ensures
        r == survivor_count_spec(population_size as int, survival_percent as int),
        r <= population_size,
        (population_size - r) % 2 == 0,
{
    let n = population_size;
    proof {
        let ni = n as int;
        let pi = survival_percent as int;
        assert(ni * pi <= 0x8000_0000 * 100) by (nonlinear_arith)
            requires
                0 < ni <= 0x8000_0000,
                0 <= pi < 100;
        assert(ni * pi / 100 < ni) by (nonlinear_arith)
            requires
                0 < ni,
                0 <= pi < 100;
    }
    let prod: u64 = (n as u64) * (survival_percent as u64);
    let s0: u64 = prod / 100;
    let s0 = s0 as usize;
    if (n - s0) % 2 == 1 {
        s0 + 1
    } else {
        s0
    }
}

/// Draws a parent pair by independent weighted sampling, resampling the
/// second index a bounded number of times until it differs from the first.
/// If the bound is exhausted (possible under an extremely skewed weight
/// distribution), the neighbouring index is taken instead, so that the pair
/// is distinct in every case.
pub(crate) fn sample_parent_pair(sampler: &ParentSampler, n: usize) -> (r: (usize, usize))
    requires
        n == sampler_weights(*sampler).len(),
        n >= 2,
    ensures
        r.0 < sampler_weights(*sampler).len(),
        r.1 < sampler_weights(*sampler).len(),
        r.0 != r.1,
{
    let a = sampler_draw(sampler);
    let mut tries: usize = 0;
    while tries < RESAMPLE_LIMIT
        invariant
            a < sampler_weights(*sampler).len(),
            n == sampler_weights(*sampler).len(),
            n >= 2,
        decreases RESAMPLE_LIMIT - tries,
    {
        let b = sampler_draw(sampler);
        if b != a {
            return (a, b);
        }
        tries = tries + 1;
    }
    if a + 1 < n {
        (a, a + 1)
    } else {
        (a, 0)
    }
}

} // verus!

verus! {

/// The string-mode evolutionary engine: a ranked population of candidates
/// evolved toward an immutable goal.  The population is always sorted by
/// ascending cost, so its head is the best candidate seen this generation.
pub struct Engine {
    pub goal: Vec<u8>,
    pub alphabet: Vec<u8>,
    pub metric: Metric,
    pub population_size: usize,
    pub survival_percent: usize,
    pub population: Vec<Chromosome>,
}

impl Engine {
    /// The engine invariant: a validated configuration, and a full, ranked
    /// population of well-formed candidates.
    pub open spec fn inv(self) -> bool {
        &&& 1 <= self.goal@.len() < crate::distance::MAX_TEXT_LEN
        &&& self.goal@.len() < usize::MAX / 2
        &&& self.alphabet@.len() > 0
        &&& 0 < self.population_size <= MAX_POPULATION
        &&& self.population_size % 2 == 0
        &&& self.survival_percent < 100
        &&& self.population@.len() == self.population_size
        &&& forall|i: int|
            0 <= i < self.population@.len() ==> (#[trigger] self.population@[i]).wf(
                self.goal@,
                self.metric,
            )
        &&& sorted_by_cost(self.population@)
    }

    /// Builds an engine over a fresh random population.  The configuration is
    /// validated up front, exactly as stated: an empty target, an empty
    /// alphabet, a zero or odd population size, or a survival percentage of
    /// 100 or more is a fatal configuration error; anything else succeeds.
    pub fn new(
        goal: Vec<u8>,
        alphabet: Vec<u8>,
        population_size: usize,
        survival_percent: usize,
        metric: Metric,
    ) -> (r: Result<Engine, EngineError>)
        requires
            goal@.len() < crate::distance::MAX_TEXT_LEN,
            goal@.len() < usize::MAX / 2,
            population_size <= MAX_POPULATION,
        ensures
            match r {
                Ok(e) => {
                    &&& e.inv()
                    &&& e.goal@ == goal@
                    &&& e.alphabet@ == alphabet@
                    &&& e.metric == metric
                    &&& e.population_size == population_size
                    &&& e.survival_percent == survival_percent
                },
                Err(err) => err == (if goal@.len() == 0 {
                    EngineError::EmptyTarget
                } else if alphabet@.len() == 0 {
                    EngineError::EmptyAlphabet
                } else if population_size == 0 || population_size % 2 != 0 {
                    EngineError::OddPopulation
                } else {
                    EngineError::InvalidSurvivalRate
                }),
            },
            r is Err <==> (goal@.len() == 0 || alphabet@.len() == 0 || population_size == 0
                || population_size % 2 != 0 || survival_percent >= 100),
    {
        if goal.len() == 0 {
            return Err(EngineError::EmptyTarget);
        }
        if alphabet.len() == 0 {
            return Err(EngineError::EmptyAlphabet);
        }
        if population_size == 0 || population_size % 2 != 0 {
            return Err(EngineError::OddPopulation);
        }
        if survival_percent >= 100 {
            return Err(EngineError::InvalidSurvivalRate);
        }
        let mut population: Vec<Chromosome> = Vec::new();
        let mut i: usize = 0;
        while i < population_size
            invariant
                i <= population_size,
                population@.len() == i,
                goal@.len() < crate::distance::MAX_TEXT_LEN,
                alphabet@.len() > 0,
                forall|j: int|
                    0 <= j < i ==> (#[trigger] population@[j]).wf(goal@, metric),
            decreases population_size - i,
        {
            population.push(Chromosome::random(&goal, &alphabet, metric));
            i = i + 1;
        }
        let mut engine = Engine { goal, alphabet, metric, population_size, survival_percent, population };
        let ghost pre = engine.population@;
        rank(&mut engine.population);
        proof {
            lemma_multiset_eq_elements(pre, engine.population@);
            assert forall|i: int|
                0 <= i < engine.population@.len() implies (#[trigger] engine.population@[i]).wf(
                engine.goal@,
                engine.metric,
            ) by {
                let x = engine.population@[i];
                assert(pre.contains(x));
                let j = choose|j: int| 0 <= j < pre.len() && pre[j] == x;
            }
        }
        Ok(engine)
    }

    /// A read-only view of the best candidate of the ranked population: the
    /// observation point a caller reads after every generation.  No candidate
    /// of the population has a smaller cost.
    pub fn best(&self) -> (r: &Chromosome)
        requires
            self.inv(),
        ensures
            *r == self.population@[0],
            r.wf(self.goal@, self.metric),
            forall|i: int|
                0 <= i < self.population@.len() ==> r.cost <= (#[trigger] self.population@[i]).cost,
    {
        &self.population[0]
    }

    /// One generation: rank is already established; an exact match at the
    /// head terminates; otherwise the survivors are carried over unchanged,
    /// the rest of the next generation is bred from fitness-weighted parent
    /// pairs by crossover and mutation, and the new population is ranked.
    /// `Ok(true)` reports termination (a candidate of cost zero leads the
    /// unchanged population); `Ok(false)` reports one completed generation,
    /// after which elitism guarantees the best cost has not regressed.
    pub fn step(&mut self) -> (r: Result<bool, EngineError>)
        requires
            old(self).inv(),
        ensures
            final(self).inv(),
            final(self).goal@ == old(self).goal@,
            final(self).alphabet@ == old(self).alphabet@,
            final(self).metric == old(self).metric,
            final(self).population_size == old(self).population_size,
            final(self).survival_percent == old(self).survival_percent,
            match r {
                Ok(done) => {
                    &&& (done ==> *final(self) == *old(self) && old(self).population@[0].cost == 0)
                    &&& (!done ==> old(self).population@[0].cost != 0)
                },
                Err(e) => e == EngineError::CutSampleFailed,
            },
            old(self).population@[0].cost == 0 ==> r == Ok::<bool, EngineError>(true),
            (r == Ok::<bool, EngineError>(false) && survivor_count_spec(
                old(self).population_size as int,
                old(self).survival_percent as int,
            ) > 0) ==> final(self).population@[0].cost <= old(self).population@[0].cost,
    {
        if self.population[0].cost == 0 {
            return Ok(true);
        }
        let survivors = survivor_count(self.population_size, self.survival_percent);

        // Elitism: the top candidates are carried over unchanged.
        let mut children: Vec<Chromosome> = Vec::new();
        let mut i: usize = 0;
        while i < survivors
            invariant
                old(self).inv(),
                *self == *old(self),
                i <= survivors <= self.population@.len(),
                children@.len() == i,
                forall|j: int|
                    0 <= j < i ==> (#[trigger] children@[j]).wf(self.goal@, self.metric),
                i > 0 ==> children@[0].cost == old(self).population@[0].cost,
            decreases survivors - i,
        {
            children.push(self.population[i].clone());
            i = i + 1;
        }

        // Fitness-proportionate weights over the entire current population:
        // the head's cost is positive and the population is ranked, so every
        // cost is positive and every weight at least one.
        proof {
            assert forall|j: int|
                0 <= j < self.population@.len() implies (#[trigger] self.population@[j]).cost
                > 0 by {
                assert(self.population@[0].cost <= self.population@[j].cost);
            }
        }
        let mut costs: Vec<u64> = Vec::new();
        let mut c: usize = 0;
        while c < self.population.len()
            invariant
                old(self).inv(),
                *self == *old(self),
                c <= self.population@.len(),
                costs@.len() == c,
                forall|j: int|
                    0 <= j < self.population@.len() ==> (#[trigger] self.population@[j]).cost > 0,
                forall|j: int|
                    0 <= j < c ==> #[trigger] costs@[j] == self.population@[j].cost,
                forall|j: int| 0 <= j < c ==> 0 < #[trigger] costs@[j] <= u32::MAX,
            decreases self.population@.len() - c,
        {
            costs.push(self.population[c].cost as u64);
            c = c + 1;
        }
        let weights = match reciprocal_weights(&costs) {
            Ok(w) => w,
            Err(_) => {
                // A string-mode cost fits in 32 bits, so its reciprocal
                // weight is at least one and the distribution cannot
                // degenerate.
                proof {
                    let c0 = costs@[0] as int;
                    let sc = WEIGHT_SCALE as int;
                    assert(sc / c0 >= 1) by (nonlinear_arith)
                        requires
                            0 < c0 < sc;
                }
                vstd::pervasive::unreached()
            },
        };
        proof {
            lemma_weight_sum_bound(weights@, WEIGHT_SCALE);
        }
        let sampler = match sampler_new(&weights) {
            Ok(s) => s,
            Err(_) => vstd::pervasive::unreached(),
        };

        // Breed the remaining offspring slots from distinct parent pairs.
        let pairs = (self.population_size - survivors) / 2;
        let mut p: usize = 0;
        while p < pairs
            invariant
                old(self).inv(),
                *self == *old(self),
                survivors <= self.population_size,
                (self.population_size - survivors) % 2 == 0,
                pairs == (self.population_size - survivors) / 2,
                p <= pairs,
                children@.len() == survivors + 2 * p,
                sampler_weights(sampler) == weights@,
                weights@.len() == self.population@.len(),
                old(self).population@[0].cost != 0,
                survivors > 0 ==> children@[0].cost == old(self).population@[0].cost,
                forall|j: int|
                    0 <= j < children@.len() ==> (#[trigger] children@[j]).wf(
                        self.goal@,
                        self.metric,
                    ),
            decreases pairs - p,
        {
            let pair = sample_parent_pair(&sampler, self.population.len());
            let bred = self.population[pair.0].crossover(
                &self.population[pair.1],
                &self.goal,
                &self.alphabet,
                self.metric,
            );
            match bred {
                Ok(two) => {
                    let (son, daughter) = two;
                    children.push(son);
                    children.push(daughter);
                },
                Err(e) => {
                    return Err(e);
                },
            }
            p = p + 1;
        }

        // Install and rank the next generation.
        self.population = children;
        let ghost pre = self.population@;
        rank(&mut self.population);
        proof {
            lemma_multiset_eq_elements(pre, self.population@);
            assert forall|k: int|
                0 <= k < self.population@.len() implies (#[trigger] self.population@[k]).wf(
                self.goal@,
                self.metric,
            ) by {
                let x = self.population@[k];
                assert(pre.contains(x));
                let j = choose|j: int| 0 <= j < pre.len() && pre[j] == x;
            }
            // Elitism: the carried-over head of the old generation bounds the
            // new head's cost.
            if survivors > 0 {
                lemma_multiset_eq_elements(self.population@, pre);
                assert(self.population@.contains(pre[0]));
                let j = choose|j: int|
                    0 <= j < self.population@.len() && self.population@[j] == pre[0];
                assert(self.population@[0].cost <= self.population@[j].cost);
            }
        }
        Ok(false)
    }
}

/// Runs one whole search: a fresh random population evolved generation by
/// generation until a candidate matches the target exactly (string mode's
/// terminal condition) or the generation budget is spent, whichever comes
/// first.  The best candidate of the final ranked population is returned.
pub fn run(
    goal: Vec<u8>,
    alphabet: Vec<u8>,
    population_size: usize,
    survival_percent: usize,
    metric: Metric,
    max_generations: usize,
) -> (r: Result<Chromosome, EngineError>)
    requires
        goal@.len() < crate::distance::MAX_TEXT_LEN,
        goal@.len() < usize::MAX / 2,
        population_size <= MAX_POPULATION,
    ensures
        match r {
            Ok(best) => best.wf(goal@, metric),
            Err(e) => e == EngineError::EmptyTarget || e == EngineError::EmptyAlphabet || e
                == EngineError::OddPopulation || e == EngineError::InvalidSurvivalRate || e
                == EngineError::CutSampleFailed,
        },
        goal@.len() == 0 ==> r == Err::<Chromosome, EngineError>(EngineError::EmptyTarget),
        (goal@.len() > 0 && alphabet@.len() == 0) ==> r == Err::<Chromosome, EngineError>(
            EngineError::EmptyAlphabet,
        ),
        (goal@.len() > 0 && alphabet@.len() > 0 && (population_size == 0 || population_size % 2
            != 0)) ==> r == Err::<Chromosome, EngineError>(EngineError::OddPopulation),
        (goal@.len() > 0 && alphabet@.len() > 0 && population_size > 0 && population_size % 2 == 0
            && survival_percent >= 100) ==> r == Err::<Chromosome, EngineError>(
            EngineError::InvalidSurvivalRate,
        ),
        (goal@.len() > 0 && alphabet@.len() > 0 && population_size > 0 && population_size % 2 == 0
            && survival_percent < 100 && max_generations == 0) ==> r is Ok,
{
    let mut engine = match Engine::new(goal, alphabet, population_size, survival_percent, metric) {
        Ok(e) => e,
        Err(e) => {
            return Err(e);
        },
    };
    let mut g: usize = 0;
    let mut done = false;
    while g < max_generations && !done
        invariant
            engine.inv(),
            engine.goal@ == goal@,
            engine.metric == metric,
            goal@.len() > 0,
            alphabet@.len() > 0,
            population_size > 0,
            population_size % 2 == 0,
            survival_percent < 100,
        decreases max_generations - g,
    {
        match engine.step() {
            Ok(d) => {
                done = d;
            },
            Err(e) => {
                return Err(e);
            },
        }
        g = g + 1;
    }
    let best = engine.best().clone();
    Ok(best)
}

} // verus!
