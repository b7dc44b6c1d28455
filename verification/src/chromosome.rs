//! Byte-sequence candidates: construction, segment-transplant crossover with
//! wraparound fill, and probabilistic mutation.

use vstd::prelude::*;
use vstd::pervasive::VecAdditionalExecFns;
use vstd::multiset::Multiset;

use crate::EngineError;
use crate::Metric;
use crate::distance::evaluate;
use crate::distance::metric_dist;
use crate::rng::rand_index;

verus! {

/// `s` read as if shifted left by `k` positions, the elements falling off the
/// front wrapping around to the back.
pub open spec fn rotate_left_spec<T>(s: Seq<T>, k: int) -> Seq<T>
    recommends
        0 <= k <= s.len(),
{
    s.subrange(k, s.len() as int) + s.subrange(0, k)
}

/// A private copy of `s`, rotated left by `k` positions.
pub fn rotated_copy<T: Copy>(src: &Vec<T>, k: usize) -> (r: Vec<T>)
    requires
        k <= src@.len(),
    ensures
        r@ == rotate_left_spec(src@, k as int),
{
    let len = src.len();
    let mut r: Vec<T> = Vec::new();
    let mut idx: usize = k;
    let mut n: usize = 0;
    while n < len
        invariant
            n <= len,
            len == src@.len(),
            k <= len,
            r@.len() == n,
            idx <= len,
            k + n == idx || k + n == idx + len,
            forall|j: int|
                0 <= j < n ==> #[trigger] r@[j] == rotate_left_spec(src@, k as int)[j],
        decreases len - n,
    {
        if idx >= len {
            idx = 0;
        }
        r.push(src[idx]);
        idx = idx + 1;
        n = n + 1;
    }
    proof {
        assert(r@ =~= rotate_left_spec(src@, k as int));
    }
    r
}

/// Rotating left by `k` and then by the remaining length restores the
/// sequence.
pub proof fn lemma_rotate_inverse<T>(s: Seq<T>, k: int)
    requires
        0 <= k <= s.len(),
    ensures
        rotate_left_spec(rotate_left_spec(s, k), s.len() - k) == s,
{
    assert(rotate_left_spec(rotate_left_spec(s, k), s.len() - k) =~= s);
}

/// Rotation only rearranges: the multiset of elements is unchanged.
pub proof fn lemma_rotate_multiset<T>(s: Seq<T>, k: int)
    requires
        0 <= k <= s.len(),
    ensures
        rotate_left_spec(s, k).to_multiset() == s.to_multiset(),
{
    let lo = s.subrange(0, k);
    let hi = s.subrange(k, s.len() as int);
    vstd::seq_lib::lemma_multiset_commutative(hi, lo);
    vstd::seq_lib::lemma_multiset_commutative(lo, hi);
    assert(s =~= lo + hi);
    assert(rotate_left_spec(s, k).to_multiset() =~= s.to_multiset());
}

/// Copies `src[start..end]`, read as if `src` were rotated left by
/// `left_rotation` positions (wrapping around its end), into
/// `dst[dst_start..dst_start + (end - start)]`, without mutating `src`.
pub fn copy_slice_rotated<T: Copy>(
    src: &Vec<T>,
    left_rotation: usize,
    start: usize,
    end: usize,
    dst: &mut Vec<T>,
    dst_start: usize,
)
    requires
        0 < src@.len() < usize::MAX / 2,
        start <= end <= src@.len(),
        left_rotation <= src@.len(),
        dst_start + (end - start) <= old(dst)@.len(),
    ensures
        final(dst)@.len() == old(dst)@.len(),
        forall|i: int|
            dst_start <= i < dst_start + (end - start) ==> #[trigger] final(dst)@[i]
                == rotate_left_spec(src@, left_rotation as int)[start + (i - dst_start)],
        forall|i: int|
            (0 <= i < dst_start || dst_start + (end - start) <= i < old(dst)@.len())
                ==> #[trigger] final(dst)@[i] == old(dst)@[i],
{
    let len = src.len();
    let gap = end - start;
    let dst_len = dst.len();
    let rot_start = if start + left_rotation >= len {
        start + left_rotation - len
    } else {
        start + left_rotation
    };
    if rot_start + gap <= len {
        // The rotated window lies in one piece of the source.
        let mut j: usize = 0;
        while j < gap
            invariant
                j <= gap,
                gap == end - start,
                start <= end <= src@.len(),
                src@.len() == len,
                len < usize::MAX / 2,
                left_rotation <= len,
                rot_start + gap <= len,
                rot_start == (if start + left_rotation >= len {
                    start + left_rotation - len
                } else {
                    start + left_rotation
                }),
                dst_start + gap <= dst_len,
                dst@.len() == dst_len,
                dst@.len() == old(dst)@.len(),
                forall|i: int|
                    dst_start <= i < dst_start + j ==> #[trigger] dst@[i] == rotate_left_spec(
                        src@,
                        left_rotation as int,
                    )[start + (i - dst_start)],
                forall|i: int|
                    (0 <= i < dst_start || dst_start + gap <= i < old(dst)@.len())
                        ==> #[trigger] dst@[i] == old(dst)@[i],
            decreases gap - j,
        {
            dst.set(dst_start + j, src[rot_start + j]);
            j = j + 1;
        }
    } else {
        // The rotated window wraps: a tail piece of the source, then its head.
        let first_len = len - rot_start;
        let mut j: usize = 0;
        while j < first_len
            invariant
                j <= first_len,
                first_len == len - rot_start,
                gap == end - start,
                start <= end <= src@.len(),
                src@.len() == len,
                len < usize::MAX / 2,
                left_rotation <= len,
                rot_start < len,
                rot_start + gap > len,
                rot_start == start + left_rotation || rot_start == start + left_rotation - len,
                dst_start + gap <= dst_len,
                dst@.len() == dst_len,
                dst@.len() == old(dst)@.len(),
                forall|i: int|
                    dst_start <= i < dst_start + j ==> #[trigger] dst@[i] == rotate_left_spec(
                        src@,
                        left_rotation as int,
                    )[start + (i - dst_start)],
                forall|i: int|
                    (0 <= i < dst_start || dst_start + gap <= i < old(dst)@.len())
                        ==> #[trigger] dst@[i] == old(dst)@[i],
            decreases first_len - j,
        {
            dst.set(dst_start + j, src[rot_start + j]);
            j = j + 1;
        }
        let mut k: usize = 0;
        while k < gap - first_len
            invariant
                k <= gap - first_len,
                first_len == len - rot_start,
                gap == end - start,
                start <= end <= src@.len(),
                src@.len() == len,
                len < usize::MAX / 2,
                left_rotation <= len,
                rot_start < len,
                rot_start + gap > len,
                rot_start == start + left_rotation || rot_start == start + left_rotation - len,
                dst_start + gap <= dst_len,
                dst@.len() == dst_len,
                dst@.len() == old(dst)@.len(),
                forall|i: int|
                    dst_start <= i < dst_start + first_len + k ==> #[trigger] dst@[i]
                        == rotate_left_spec(src@, left_rotation as int)[start + (i - dst_start)],
                forall|i: int|
                    (0 <= i < dst_start || dst_start + gap <= i < old(dst)@.len())
                        ==> #[trigger] dst@[i] == old(dst)@[i],
            decreases gap - first_len - k,
        {
            dst.set(dst_start + first_len + k, src[k]);
            k = k + 1;
        }
    }
}

/// What one crossover child looks like: the transplanted segment `[min, max)`
/// comes verbatim from `inside`, every other position from `outside` read
/// through the wraparound fill, which for equal-length parents lands each
/// element back on its own index.
pub open spec fn crossed_seq(inside: Seq<u8>, outside: Seq<u8>, min: int, max: int) -> Seq<u8> {
    Seq::new(
        outside.len(),
        |i: int|
            if min <= i < max {
                inside[i]
            } else {
                outside[i]
            },
    )
}

/// Segment-transplant crossover of two equal-length parents at the cut points
/// `min < max`: the son takes the mother's `[min, max)` segment and is filled
/// elsewhere from the father, read starting right after `max` and wrapping
/// around; the daughter is the mirror image.  Neither parent is mutated.
pub fn recombine(father: &Vec<u8>, mother: &Vec<u8>, min: usize, max: usize) -> (children: (
    Vec<u8>,
    Vec<u8>,
))
    requires
        father@.len() == mother@.len(),
        min < max <= father@.len(),
        father@.len() < usize::MAX / 2,
    ensures
        children.0@ == crossed_seq(mother@, father@, min as int, max as int),
        children.1@ == crossed_seq(father@, mother@, min as int, max as int),
        children.0@.len() == father@.len(),
        children.1@.len() == father@.len(),
{
    let len = father.len();
    let mut son: Vec<u8> = vec![0u8; len];
    let mut daughter: Vec<u8> = vec![0u8; len];

    // The chunk between the cut points is copied verbatim, swapped.
    let mut i: usize = min;
    while i < max
        invariant
            min <= i <= max <= len,
            father@.len() == len,
            mother@.len() == len,
            son@.len() == len,
            daughter@.len() == len,
            forall|j: int| min <= j < i ==> son@[j] == mother@[j],
            forall|j: int| min <= j < i ==> daughter@[j] == father@[j],
        decreases max - i,
    {
        son.set(i, mother[i]);
        daughter.set(i, father[i]);
        i = i + 1;
    }

    // Fill the remaining positions from the other parent as if it were
    // rotated left by `max`: first the tail `[max, len)`, then the head
    // `[0, min)`.
    let tail_gap = len - max;
    copy_slice_rotated(father, max, 0, tail_gap, &mut son, max);
    copy_slice_rotated(father, max, tail_gap, tail_gap + min, &mut son, 0);
    copy_slice_rotated(mother, max, 0, tail_gap, &mut daughter, max);
    copy_slice_rotated(mother, max, tail_gap, tail_gap + min, &mut daughter, 0);

    proof {
        assert forall|j: int| 0 <= j < len && !(min <= j < max) implies son@[j] == father@[j] by {
            if j < min {
                assert(son@[j] == rotate_left_spec(father@, max as int)[tail_gap + j]);
            } else {
                assert(son@[j] == rotate_left_spec(father@, max as int)[j - max]);
            }
        }
        assert forall|j: int| 0 <= j < len && !(min <= j < max) implies daughter@[j]
            == mother@[j] by {
            if j < min {
                assert(daughter@[j] == rotate_left_spec(mother@, max as int)[tail_gap + j]);
            } else {
                assert(daughter@[j] == rotate_left_spec(mother@, max as int)[j - max]);
            }
        }
        assert(son@ =~= crossed_seq(mother@, father@, min as int, max as int));
        assert(daughter@ =~= crossed_seq(father@, mother@, min as int, max as int));
    }

    (son, daughter)
}

} // verus!

verus! {

/// How many resampling attempts a bounded draw makes before failing
/// deterministically.
pub const RESAMPLE_LIMIT: usize = 64;

/// The percentage roll at or under which a mutation perturbs the solution.
pub const MUTATION_TRIGGER: usize = 80;

/// The percentage roll under which a worse mutation is accepted anyway.
pub const ACCEPT_WORSE: usize = 20;

/// How many single-position replacements one mutation makes.
pub const MUTATION_POINTS: usize = 3;

/// Copies a byte vector element by element, so that the copy provably holds
/// the same bytes.
fn clone_bytes(v: &Vec<u8>) -> (r: Vec<u8>)
    ensures
        r@ == v@,
{
    let mut r: Vec<u8> = Vec::new();
    let mut i: usize = 0;
    while i < v.len()
        invariant
            i <= v@.len(),
            r@ == v@.take(i as int),
        decreases v@.len() - i,
    {
        r.push(v[i]);
        proof {
            assert(v@.take(i + 1) =~= v@.take(i as int).push(v@[i as int]));
        }
        i = i + 1;
    }
    proof {
        assert(v@.take(v@.len() as int) =~= v@);
    }
    r
}

/// `s` after the given single-position replacements, applied first to last.
pub open spec fn apply_replacements(s: Seq<u8>, reps: Seq<(usize, u8)>) -> Seq<u8>
    decreases reps.len(),
{
    if reps.len() == 0 {
        s
    } else {
        apply_replacements(s, reps.drop_last()).update(reps.last().0 as int, reps.last().1)
    }
}

/// In-range replacements never change the length of the solution.
pub proof fn lemma_apply_replacements_len(s: Seq<u8>, reps: Seq<(usize, u8)>)
    requires
        forall|i: int| 0 <= i < reps.len() ==> (#[trigger] reps[i]).0 < s.len(),
    ensures
        apply_replacements(s, reps).len() == s.len(),
    decreases reps.len(),
{
    if reps.len() > 0 {
        assert(forall|i: int|
            0 <= i < reps.drop_last().len() ==> (#[trigger] reps.drop_last()[i]).0 < s.len());
        lemma_apply_replacements_len(s, reps.drop_last());
    }
}

/// The child is the base sequence with at most `MUTATION_POINTS` in-range
/// single-position replacements applied: what one random mutation can have
/// done to a candidate.
pub open spec fn mutated_from(child: Seq<u8>, base: Seq<u8>) -> bool {
    exists|reps: Seq<(usize, u8)>|
        #![trigger apply_replacements(base, reps)]
        {
            &&& reps.len() <= MUTATION_POINTS
            &&& forall|i: int| 0 <= i < reps.len() ==> (#[trigger] reps[i]).0 < base.len()
            &&& child == apply_replacements(base, reps)
        }
}

/// The outcome of one mutation with the given replacements and allow-worse
/// flag: the replaced scratch copy is installed with its recomputed cost
/// exactly when it strictly improves or the flag is set; otherwise the
/// candidate is unchanged.
pub open spec fn mutation_outcome(
    before: Chromosome,
    after: Chromosome,
    goal: Seq<u8>,
    metric: Metric,
    reps: Seq<(usize, u8)>,
    allow_worse: bool,
) -> bool {
    let mutated = apply_replacements(before.solution@, reps);
    let mcost = metric_dist(metric, mutated, goal);
    if mcost < before.cost || allow_worse {
        after.solution@ == mutated && after.cost == mcost
    } else {
        after == before
    }
}

/// Draws two distinct cut points `min < max` from `[0, len)`, resampling a
/// bounded number of times; on a domain of fewer than two indices, or once
/// the bound is exhausted, it fails deterministically instead of looping.
/// When it succeeds the two cut points always differ.
pub fn sample_cut_points(len: usize) -> (r: Result<(usize, usize), EngineError>)
    ensures
        match r {
            Ok(p) => p.0 < p.1 < len,
            Err(e) => e == EngineError::CutSampleFailed,
        },
        len < 2 ==> r is Err,
{
    if len < 2 {
        return Err(EngineError::CutSampleFailed);
    }
    let first = rand_index(len);
    let mut tries: usize = 0;
    while tries < RESAMPLE_LIMIT
        invariant
            2 <= len,
            first < len,
        decreases RESAMPLE_LIMIT - tries,
    {
        let second = rand_index(len);
        if second != first {
            if first < second {
                return Ok((first, second));
            }
            return Ok((second, first));
        }
        tries = tries + 1;
    }
    Err(EngineError::CutSampleFailed)
}

/// One scored candidate: a solution buffer and its cached cost, kept
/// consistent with the solution by every operation.
#[derive(Debug)]
pub struct Chromosome {
    pub solution: Vec<u8>,
    pub cost: u32,
}

impl Chromosome {
    /// The candidate invariant: the solution has the target's length and the
    /// cached cost is exactly the configured metric of solution and target.
    pub open spec fn wf(self, goal: Seq<u8>, metric: Metric) -> bool {
        &&& self.solution@.len() == goal.len()
        &&& self.cost == metric_dist(metric, self.solution@, goal)
    }

    /// Wraps a solution buffer with its freshly computed cost.  A buffer
    /// whose length differs from the target's is rejected.
    pub fn new(solution: Vec<u8>, goal: &Vec<u8>, metric: Metric) -> (r: Result<
        Chromosome,
        EngineError,
    >)
        requires
            goal@.len() < crate::distance::MAX_TEXT_LEN,
        ensures
            match r {
                Ok(c) => c.solution@ == solution@ && c.wf(goal@, metric),
                Err(e) => e == EngineError::LengthMismatch && solution@.len() != goal@.len(),
            },
            solution@.len() == goal@.len() ==> r is Ok,
    {
        if solution.len() != goal.len() {
            return Err(EngineError::LengthMismatch);
        }
        match evaluate(&solution, goal, metric) {
            Ok(cost) => Ok(Chromosome { solution, cost }),
            Err(_) => vstd::pervasive::unreached(),
        }
    }

    /// A fresh candidate whose solution is drawn position by position from
    /// the alphabet, scored on construction.
    pub fn random(goal: &Vec<u8>, alphabet: &Vec<u8>, metric: Metric) -> (r: Chromosome)
        requires
            goal@.len() < crate::distance::MAX_TEXT_LEN,
            alphabet@.len() > 0,
        ensures
            r.wf(goal@, metric),
            forall|i: int| 0 <= i < r.solution@.len() ==> alphabet@.contains(#[trigger] r.solution@[i]),
    {
        let mut solution: Vec<u8> = Vec::new();
        let mut i: usize = 0;
        while i < goal.len()
            invariant
                alphabet@.len() > 0,
                i <= goal@.len(),
                solution@.len() == i,
                forall|j: int| 0 <= j < i ==> alphabet@.contains(#[trigger] solution@[j]),
            decreases goal@.len() - i,
        {
            solution.push(alphabet[rand_index(alphabet.len())]);
            i = i + 1;
        }
        match Self::new(solution, goal, metric) {
            Ok(c) => c,
            Err(_) => vstd::pervasive::unreached(),
        }
    }

    /// Applies the given single-position replacements to a scratch copy of
    /// the solution, rescores it, and installs the scratch copy only when its
    /// cost strictly improves, or unconditionally when `allow_worse` is set.
    /// A candidate is never left with a strictly worse cost unless
    /// `allow_worse` explicitly permitted it.
    pub fn mutate_with(
        &mut self,
        goal: &Vec<u8>,
        replacements: &Vec<(usize, u8)>,
        allow_worse: bool,
        metric: Metric,
    )
        requires
            old(self).wf(goal@, metric),
            goal@.len() < crate::distance::MAX_TEXT_LEN,
            forall|i: int|
                0 <= i < replacements@.len() ==> (#[trigger] replacements@[i]).0 < goal@.len(),
        ensures
            final(self).wf(goal@, metric),
            mutation_outcome(*old(self), *final(self), goal@, metric, replacements@, allow_worse),
            final(self).cost <= old(self).cost || allow_worse,
    {
        let ghost s0 = self.solution@;
        let mut scratch = clone_bytes(&self.solution);
        let mut i: usize = 0;
        while i < replacements.len()
            invariant
                i <= replacements@.len(),
                scratch@ == apply_replacements(s0, replacements@.take(i as int)),
                s0.len() == goal@.len(),
                forall|j: int|
                    0 <= j < replacements@.len() ==> (#[trigger] replacements@[j]).0 < goal@.len(),
            decreases replacements@.len() - i,
        {
            proof {
                lemma_apply_replacements_len(s0, replacements@.take(i as int));
            }
            let rep = replacements[i];
            scratch.set(rep.0, rep.1);
            proof {
                let t = replacements@.take(i + 1);
                assert(t.drop_last() =~= replacements@.take(i as int));
                assert(t.last() == replacements@[i as int]);
            }
            i = i + 1;
        }
        proof {
            assert(replacements@.take(replacements@.len() as int) =~= replacements@);
            lemma_apply_replacements_len(s0, replacements@);
        }
        let mutate_cost = match evaluate(&scratch, goal, metric) {
            Ok(c) => c,
            Err(_) => vstd::pervasive::unreached(),
        };
        if mutate_cost < self.cost || allow_worse {
            self.solution = scratch;
            self.cost = mutate_cost;
        }
    }

    /// Random mutation as the engine applies it: one percentage roll decides
    /// both whether to perturb a few positions and whether a worse result may
    /// survive; the accept-or-reject rule itself is `mutate_with`.
    pub fn mutate(&mut self, goal: &Vec<u8>, alphabet: &Vec<u8>, metric: Metric)
        requires
            old(self).wf(goal@, metric),
            goal@.len() < crate::distance::MAX_TEXT_LEN,
            goal@.len() > 0,
            alphabet@.len() > 0,
        ensures
            final(self).wf(goal@, metric),
            mutated_from(final(self).solution@, old(self).solution@),
            exists|reps: Seq<(usize, u8)>, allow_worse: bool|
                #![trigger mutation_outcome(*old(self), *final(self), goal@, metric, reps, allow_worse)]
                {
                    &&& reps.len() <= MUTATION_POINTS
                    &&& forall|i: int| 0 <= i < reps.len() ==> (#[trigger] reps[i]).0 < goal@.len()
                    &&& mutation_outcome(*old(self), *final(self), goal@, metric, reps, allow_worse)
                },
    {
        let roll = rand_index(100);
        let mut replacements: Vec<(usize, u8)> = Vec::new();
        if roll <= MUTATION_TRIGGER {
            let mut k: usize = 0;
            while k < MUTATION_POINTS
                invariant
                    goal@.len() > 0,
                    alphabet@.len() > 0,
                    replacements@.len() == k <= MUTATION_POINTS,
                    forall|j: int|
                        0 <= j < replacements@.len() ==> (#[trigger] replacements@[j]).0
                            < goal@.len(),
                decreases MUTATION_POINTS - k,
            {
                let pos = rand_index(goal.len());
                let val = alphabet[rand_index(alphabet.len())];
                replacements.push((pos, val));
                k = k + 1;
            }
        }
        self.mutate_with(goal, &replacements, roll < ACCEPT_WORSE, metric);
        proof {
            assert(mutation_outcome(
                *old(self),
                *self,
                goal@,
                metric,
                replacements@,
                roll < ACCEPT_WORSE,
            ));
            let s0 = old(self).solution@;
            let mutated = apply_replacements(s0, replacements@);
            if self.solution@ == mutated {
                assert(mutated_from(self.solution@, s0));
            } else {
                // The scratch copy was rejected: the candidate is unchanged,
                // which is the empty replacement list applied.
                let none: Seq<(usize, u8)> = Seq::empty();
                assert(apply_replacements(s0, none) == s0);
                assert(mutated_from(self.solution@, s0));
            }
        }
    }

    /// Segment-transplant crossover of two candidates at freshly drawn cut
    /// points, followed by a random mutation of each child, as one step of
    /// offspring production.  The children are fresh candidates scored by
    /// construction; the parents are left untouched.
    pub fn crossover(
        &self,
        other: &Self,
        goal: &Vec<u8>,
        alphabet: &Vec<u8>,
        metric: Metric,
    ) -> (r: Result<(Chromosome, Chromosome), EngineError>)
        requires
            self.wf(goal@, metric),
            other.wf(goal@, metric),
            goal@.len() < crate::distance::MAX_TEXT_LEN,
            goal@.len() < usize::MAX / 2,
            goal@.len() > 0,
            alphabet@.len() > 0,
        ensures
            match r {
                Ok(c) => {
                    &&& c.0.wf(goal@, metric)
                    &&& c.1.wf(goal@, metric)
                    &&& exists|mn: int, mx: int|
                        #![trigger crossed_seq(other.solution@, self.solution@, mn, mx)]
                        {
                            &&& 0 <= mn < mx < goal@.len()
                            &&& mutated_from(
                                c.0.solution@,
                                crossed_seq(other.solution@, self.solution@, mn, mx),
                            )
                            &&& mutated_from(
                                c.1.solution@,
                                crossed_seq(self.solution@, other.solution@, mn, mx),
                            )
                        }
                },
                Err(e) => e == EngineError::CutSampleFailed,
            },
            goal@.len() < 2 ==> r is Err,
    {
        let cuts = match sample_cut_points(self.solution.len()) {
            Ok(c) => c,
            Err(e) => {
                return Err(e);
            },
        };
        let (son_data, daughter_data) = recombine(&self.solution, &other.solution, cuts.0, cuts.1);
        let ghost son_base = son_data@;
        let ghost daughter_base = daughter_data@;
        let mut son = match Self::new(son_data, goal, metric) {
            Ok(c) => c,
            Err(_) => vstd::pervasive::unreached(),
        };
        let mut daughter = match Self::new(daughter_data, goal, metric) {
            Ok(c) => c,
            Err(_) => vstd::pervasive::unreached(),
        };
        son.mutate(goal, alphabet, metric);
        daughter.mutate(goal, alphabet, metric);
        proof {
            assert(son_base == crossed_seq(
                other.solution@,
                self.solution@,
                cuts.0 as int,
                cuts.1 as int,
            ));
            assert(mutated_from(son.solution@, son_base));
            assert(mutated_from(daughter.solution@, daughter_base));
        }
        Ok((son, daughter))
    }
}

impl Clone for Chromosome {
    /// A clone carries the same solution bytes and the same cached cost.
    fn clone(&self) -> (r: Self)
        ensures
            r.solution@ == self.solution@,
            r.cost == self.cost,
    {
        Chromosome { solution: clone_bytes(&self.solution), cost: self.cost }
    }
}

/// Law: a candidate whose cached cost is zero holds exactly the target
/// bytes, under either metric.
pub proof fn lemma_zero_cost_matches(c: Chromosome, goal: Seq<u8>, metric: Metric)
    requires
        c.wf(goal, metric),
        c.cost == 0,
    ensures
        c.solution@ == goal,
{
    match metric {
        Metric::Hamming => crate::distance::lemma_hamming_zero_iff_eq(c.solution@, goal),
        Metric::Edit => crate::distance::lemma_edit_zero_iff_eq(c.solution@, goal),
    }
}

/// Costs never decrease along the sequence.
pub open spec fn sorted_by_cost(s: Seq<Chromosome>) -> bool {
    forall|i: int, j: int| 0 <= i <= j < s.len() ==> s[i].cost <= s[j].cost
}

/// Ranks a population by ascending cost.  The result is the same multiset of
/// candidates; afterwards the head of the population has minimal cost.
pub fn rank(population: &mut Vec<Chromosome>)
    ensures
        sorted_by_cost(final(population)@),
        final(population)@.to_multiset() == old(population)@.to_multiset(),
        final(population)@.len() == old(population)@.len(),
        forall|i: int|
            0 <= i < final(population)@.len() ==> final(population)@[0].cost
                <= (#[trigger] final(population)@[i]).cost,
{
    broadcast use vstd::seq_lib::group_to_multiset_ensures;

    let ghost orig = population@;
    let mut out: Vec<Chromosome> = Vec::new();
    while population.len() > 0
        invariant
            out@.len() + population@.len() == orig.len(),
            out@.to_multiset().add(population@.to_multiset()) == orig.to_multiset(),
            sorted_by_cost(out@),
            forall|i: int, j: int|
                0 <= i < out@.len() && 0 <= j < population@.len() ==> (#[trigger] out@[i]).cost
                    <= (#[trigger] population@[j]).cost,
        decreases population@.len(),
    {
        let mut min_idx: usize = 0;
        let mut k: usize = 1;
        while k < population.len()
            invariant
                population@.len() > 0,
                min_idx < population@.len(),
                1 <= k <= population@.len(),
                forall|j: int|
                    0 <= j < k ==> population@[min_idx as int].cost <= (#[trigger] population@[j]).cost,
            decreases population@.len() - k,
        {
            if population[k].cost < population[min_idx].cost {
                min_idx = k;
            }
            k = k + 1;
        }
        let ghost before = population@;
        let x = population.remove(min_idx);
        proof {
            assert(before.contains(x));
            vstd::seq_lib::to_multiset_remove(before, min_idx as int);
            vstd::seq_lib::to_multiset_build(out@, x);
            vstd::seq_lib::to_multiset_contains(before, x);
            assert(before.to_multiset().count(x) > 0);
            assert(out@.push(x).to_multiset().add(population@.to_multiset()) =~= orig.to_multiset());
        }
        out.push(x);
    }
    proof {
        assert(population@.to_multiset() =~= Multiset::<Chromosome>::empty());
        assert(out@.to_multiset().add(Multiset::<Chromosome>::empty()) =~= out@.to_multiset());
    }
    *population = out;
}

} // verus!
