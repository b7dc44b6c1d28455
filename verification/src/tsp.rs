//! Travelling-salesman candidates: permutations of a fixed point set, scored
//! by closed-tour length, with order-preserving crossover and two mutation
//! strategies.

use vstd::prelude::*;
use vstd::pervasive::VecAdditionalExecFns;

use crate::EngineError;
use crate::map::Point;
use crate::map::Tour;
use crate::map::points_in_range;
use crate::map::tour_len_spec;
use crate::map::tour_length;
use crate::perm::lemma_multiset_eq_elements;
use crate::perm::lemma_multiset_eq_len;
use crate::perm::lemma_multiset_eq_no_duplicates;
use crate::perm::lemma_swap_multiset;
use crate::rng::rand_index;

verus! {

/// One scored travelling-salesman candidate: a permutation of the travel
/// map's points, with its cached closed-tour length.  Lower is better; the
/// candidate's score in the sense of fitness is the reciprocal of this cost,
/// which the engine's selection weights realise in fixed point.
#[derive(Debug)]
pub struct Chromosome {
    pub solution: Vec<Point>,
    pub cost: u64,
}

/// Copies a point vector element by element, so that the copy provably holds
/// the same points.
fn clone_points(v: &Vec<Point>) -> (r: Vec<Point>)
    ensures
        r@ == v@,
{
    let mut r: Vec<Point> = Vec::new();
    let mut i: usize = 0;
    while i < v.len()
        invariant
            i <= v@.len(),
            r@ == v@.take(i as int),
        decreases v@.len() - i,
    {
        r.push(v[i]);
        proof {
            assert(v@.take(i + 1) =~= v@.take(i as int).push(v@[i as int]));
        }
        i = i + 1;
    }
    proof {
        assert(v@.take(v@.len() as int) =~= v@);
    }
    r
}

/// Swaps two positions of a point vector.
fn swap_points(v: &mut Vec<Point>, i: usize, j: usize)
    requires
        i < old(v)@.len(),
        j < old(v)@.len(),
    ensures
        final(v)@ == old(v)@.update(i as int, old(v)@[j as int]).update(
            j as int,
            old(v)@[i as int],
        ),
        final(v)@.to_multiset() == old(v)@.to_multiset(),
        final(v)@.len() == old(v)@.len(),
{
    let a = v[i];
    let b = v[j];
    v.set(i, b);
    v.set(j, a);
    proof {
        lemma_swap_multiset(old(v)@, i as int, j as int);
    }
}

impl Chromosome {
    /// The candidate invariant: a duplicate-free sequence of at least two
    /// in-range points, whose cached cost is exactly its closed-tour length.
    pub open spec fn wf(self) -> bool {
        &&& 2 <= self.solution@.len() <= 0x1_0000_0000
        &&& points_in_range(self.solution@)
        &&& self.solution@.no_duplicates()
        &&& self.cost == tour_len_spec(self.solution@)
    }

    /// The candidate visits exactly the given points, each exactly as often.
    pub open spec fn is_permutation_of(self, base: Seq<Point>) -> bool {
        self.solution@.to_multiset() == base.to_multiset()
    }

    /// Wraps a solution with its freshly computed tour length, after checking
    /// the representation: at least two stops, all coordinates in range, and
    /// no point visited twice.
    pub fn new(solution: Vec<Point>) -> (r: Result<Chromosome, EngineError>)
        requires
            solution@.len() <= 0x1_0000_0000,
        ensures
            match r {
                Ok(c) => c.solution@ == solution@ && c.wf(),
                Err(e) => {
                    &&& e == (if solution@.len() < 2 {
                        EngineError::EmptyTarget
                    } else if !points_in_range(solution@) {
                        EngineError::PointOutOfRange
                    } else {
                        EngineError::DuplicatePoint
                    })
                    &&& (solution@.len() < 2 || !points_in_range(solution@)
                        || !solution@.no_duplicates())
                },
            },
    {
        if solution.len() < 2 {
            return Err(EngineError::EmptyTarget);
        }
        let mut i: usize = 0;
        while i < solution.len()
            invariant
                i <= solution@.len(),
                solution@.len() >= 2,
                forall|j: int| 0 <= j < i ==> (#[trigger] solution@[j]).in_range(),
            decreases solution@.len() - i,
        {
            let p = solution[i];
            if p.x < -crate::map::COORD_LIMIT || p.x > crate::map::COORD_LIMIT
                || p.y < -crate::map::COORD_LIMIT || p.y > crate::map::COORD_LIMIT {
                proof {
                    assert(!(solution@[i as int]).in_range());
                }
                return Err(EngineError::PointOutOfRange);
            }
            i = i + 1;
        }
        let mut a: usize = 1;
        while a < solution.len()
            invariant
                1 <= a <= solution@.len(),
                solution@.len() >= 2,
                points_in_range(solution@),
                solution@.take(a as int).no_duplicates(),
            decreases solution@.len() - a,
        {
            let mut b: usize = 0;
            while b < a
                invariant
                    b <= a < solution@.len(),
                    solution@.len() >= 2,
                    points_in_range(solution@),
                    forall|j: int| 0 <= j < b ==> solution@[j] != solution@[a as int],
                decreases a - b,
            {
                if solution[b] == solution[a] {
                    proof {
                        assert(solution@[b as int] == solution@[a as int]);
                        assert(!solution@.no_duplicates());
                    }
                    return Err(EngineError::DuplicatePoint);
                }
                b = b + 1;
            }
            proof {
                let t = solution@.take(a + 1);
                assert forall|x: int, y: int| 0 <= x < y < t.len() implies t[x] != t[y] by {
                    if y == a as int {
                        assert(t[x] == solution@[x]);
                    } else {
                        assert(solution@.take(a as int).no_duplicates());
                        assert(t[x] == solution@.take(a as int)[x]);
                        assert(t[y] == solution@.take(a as int)[y]);
                    }
                }
            }
            a = a + 1;
        }
        proof {
            assert(solution@.take(solution@.len() as int) =~= solution@);
        }
        let cost = tour_length(&solution);
        Ok(Chromosome { solution, cost })
    }

    /// A fresh candidate: a uniformly shuffled copy of the travel map, scored
    /// on construction.  The source map itself is never mutated.
    pub fn random(source: &Tour) -> (r: Chromosome)
        requires
            2 <= source@.len() <= 0x1_0000_0000,
            points_in_range(source@),
            source@.no_duplicates(),
        ensures
            r.wf(),
            r.is_permutation_of(source@),
    {
        let mut sol = clone_points(&source.0);
        let n = sol.len();
        let mut i: usize = n - 1;
        while i > 0
            invariant
                n == sol@.len(),
                sol@.len() == source@.len(),
                sol@.len() <= 0x1_0000_0000,
                i < sol@.len(),
                sol@.to_multiset() == source@.to_multiset(),
            decreases i,
        {
            let j = rand_index(i + 1);
            swap_points(&mut sol, i, j);
            i = i - 1;
        }
        proof {
            lemma_multiset_eq_no_duplicates(source@, sol@);
            lemma_multiset_eq_elements(source@, sol@);
            assert forall|k: int| 0 <= k < sol@.len() implies (#[trigger] sol@[k]).in_range() by {
                assert(source@.contains(sol@[k]));
                let m = choose|m: int| 0 <= m < source@.len() && source@[m] == sol@[k];
            }
        }
        let cost = tour_length(&sol);
        Chromosome { solution: sol, cost }
    }
}

impl Clone for Chromosome {
    /// A clone carries the same points and the same cached cost.
    fn clone(&self) -> (r: Self)
        ensures
            r.solution@ == self.solution@,
            r.cost == self.cost,
    {
        Chromosome { solution: clone_points(&self.solution), cost: self.cost }
    }
}

} // verus!

verus! {

/// The points that do not occur in the transplanted segment.
pub open spec fn excluded_from(seg: Seq<Point>) -> spec_fn(Point) -> bool {
    |p: Point| !seg.contains(p)
}

/// The one child the order-preserving crossover produces: the segment
/// `[mn, mx)` comes verbatim from `seg_src`; the remaining positions hold the
/// points of `filler` not in that segment, read in `filler`'s
/// left-rotated-by-`mx` relative order and drained first into the tail
/// `[mx, len)`, then into the head `[0, mn)`.
pub open spec fn perm_child_spec(
    filler: Seq<Point>,
    seg_src: Seq<Point>,
    mn: int,
    mx: int,
) -> Seq<Point>
    recommends
        0 <= mn < mx <= filler.len(),
{
    let seg = seg_src.subrange(mn, mx);
    let remainder = crate::chromosome::rotate_left_spec(filler, mx).filter(excluded_from(seg));
    let tail_len = filler.len() - mx;
    remainder.subrange(tail_len, remainder.len() as int) + seg + remainder.subrange(0, tail_len)
}

/// Builds one child of the order-preserving crossover: the segment
/// `[min, max)` comes verbatim from `seg_src`; the rest is `filler`, read as
/// if rotated left by `max`, with the segment's points filtered out, drained
/// first into the tail `[max, len)` and then into the head `[0, min)`.  The
/// child is exactly `perm_child_spec` of the parents: a permutation of the
/// very points of `filler`.
fn one_child(filler: &Vec<Point>, seg_src: &Vec<Point>, min: usize, max: usize) -> (child: Vec<
    Point,
>)
    requires
        filler@.to_multiset() == seg_src@.to_multiset(),
        filler@.no_duplicates(),
        seg_src@.no_duplicates(),
        filler@.len() == seg_src@.len(),
        min < max <= filler@.len(),
    ensures
        child@ == perm_child_spec(filler@, seg_src@, min as int, max as int),
        child@.to_multiset() == filler@.to_multiset(),
        child@.no_duplicates(),
        child@.len() == filler@.len(),
        child@.subrange(min as int, max as int) == seg_src@.subrange(min as int, max as int),
{
    broadcast use vstd::seq_lib::group_to_multiset_ensures;

    let len = filler.len();

    // The transplanted segment.
    let mut seg: Vec<Point> = Vec::new();
    let mut i: usize = min;
    while i < max
        invariant
            min <= i <= max <= seg_src@.len(),
            seg@ == seg_src@.subrange(min as int, i as int),
        decreases max - i,
    {
        seg.push(seg_src[i]);
        proof {
            assert(seg_src@.subrange(min as int, i + 1) =~= seg_src@.subrange(
                min as int,
                i as int,
            ).push(seg_src@[i as int]));
        }
        i = i + 1;
    }

    // The filler, read as if rotated left by `max` (on a private copy: the
    // parents stay untouched).
    let rot = crate::chromosome::rotated_copy(filler, max);
    proof {
        crate::chromosome::lemma_rotate_multiset(filler@, max as int);
        assert(rot@.to_multiset() == filler@.to_multiset());
        lemma_multiset_eq_no_duplicates(filler@, rot@);
    }

    // Filter out the points already present in the transplanted segment,
    // preserving the remaining points' relative order.
    let ghost pred = excluded_from(seg_src@.subrange(min as int, max as int));
    let mut filt: Vec<Point> = Vec::new();
    let mut q: usize = 0;
    while q < len
        invariant
            q <= len,
            rot@.len() == len,
            filt@ == rot@.take(q as int).filter(pred),
            pred == excluded_from(seg_src@.subrange(min as int, max as int)),
            seg@ == seg_src@.subrange(min as int, max as int),
            min < max <= seg_src@.len(),
        decreases len - q,
    {
        let p = rot[q];
        let in_seg = crate::map::contains_point(&seg, p);
        proof {
            assert(rot@.take(q + 1).drop_last() =~= rot@.take(q as int));
            rot@.take(q as int).lemma_filter_push(rot@[q as int], pred);
            assert(rot@.take(q + 1) =~= rot@.take(q as int).push(rot@[q as int]));
        }
        if !in_seg {
            filt.push(p);
        }
        q = q + 1;
    }
    proof {
        assert(rot@.take(len as int) =~= rot@);
    }

    // The segment's points all occur in the rotated filler, and neither side
    // repeats a point, so the filtered filler holds exactly the points not in
    // the segment: together they are the whole point set again.
    proof {
        assert forall|j: int| 0 <= j < seg@.len() implies rot@.contains(#[trigger] seg@[j]) by {
            assert(seg@[j] == seg_src@[min + j]);
            assert(seg_src@.contains(seg@[j]));
            assert(seg_src@.to_multiset().count(seg@[j]) > 0);
            assert(rot@.to_multiset().count(seg@[j]) > 0);
        }
        assert(seg@.no_duplicates()) by {
            assert forall|x: int, y: int| 0 <= x < y < seg@.len() implies seg@[x] != seg@[y] by {
                assert(seg@[x] == seg_src@[min + x]);
                assert(seg@[y] == seg_src@[min + y]);
            }
        }
        crate::perm::lemma_segment_filter_multiset(rot@, seg@);
        assert(filt@ == rot@.filter(pred));
    }

    // Assemble the child: head from the drained remainder's own tail, the
    // segment in the middle, tail from the drained remainder's start.
    let tail_len = len - max;
    let flen = filt.len();
    let mut child: Vec<Point> = Vec::new();
    let mut a: usize = 0;
    while a < min
        invariant
            a <= min,
            min <= flen == filt@.len(),
            tail_len + min == flen,
            child@ == filt@.subrange(tail_len as int, tail_len + a),
            tail_len == len - max,
        decreases min - a,
    {
        child.push(filt[tail_len + a]);
        proof {
            assert(filt@.subrange(tail_len as int, tail_len + a + 1) =~= filt@.subrange(
                tail_len as int,
                tail_len + a,
            ).push(filt@[tail_len + a]));
        }
        a = a + 1;
    }
    let mut b: usize = 0;
    while b < max - min
        invariant
            b <= max - min <= seg@.len(),
            seg@.len() == max - min,
            child@ == filt@.subrange(tail_len as int, tail_len + min as int) + seg@.take(b as int),
            tail_len + min == filt@.len(),
            tail_len == len - max,
            min < max,
        decreases max - min - b,
    {
        child.push(seg[b]);
        proof {
            assert(seg@.take(b + 1) =~= seg@.take(b as int).push(seg@[b as int]));
            assert(child@ =~= filt@.subrange(tail_len as int, tail_len + min as int) + seg@.take(
                b + 1,
            ));
        }
        b = b + 1;
    }
    let mut c: usize = 0;
    while c < tail_len
        invariant
            c <= tail_len,
            tail_len + min == filt@.len(),
            tail_len == len - max,
            min < max <= len,
            seg@.len() == max - min,
            child@ == filt@.subrange(tail_len as int, tail_len + min as int) + seg@
                + filt@.subrange(0, c as int),
        decreases tail_len - c,
    {
        child.push(filt[c]);
        proof {
            assert(seg@.take(seg@.len() as int) =~= seg@);
            assert(filt@.subrange(0, c + 1) =~= filt@.subrange(0, c as int).push(
                filt@[c as int],
            ));
            assert(child@ =~= filt@.subrange(tail_len as int, tail_len + min as int) + seg@
                + filt@.subrange(0, c + 1));
        }
        c = c + 1;
    }

    proof {
        let s1 = filt@.subrange(tail_len as int, filt@.len() as int);
        let s2 = filt@.subrange(0, tail_len as int);
        assert(child@ =~= (s1 + seg@) + s2);
        assert(filt@ =~= s2 + s1);
        vstd::seq_lib::lemma_multiset_commutative(s2, s1);
        vstd::seq_lib::lemma_multiset_commutative(s1, seg@);
        vstd::seq_lib::lemma_multiset_commutative(s1 + seg@, s2);
        assert(child@.to_multiset() =~= filt@.to_multiset().add(seg@.to_multiset()));
        assert(child@.to_multiset() == rot@.to_multiset());
        assert(child@.to_multiset() == filler@.to_multiset());
        lemma_multiset_eq_no_duplicates(filler@, child@);
        assert(child@.subrange(min as int, max as int) =~= seg@);
        assert(seg@ =~= seg_src@.subrange(min as int, max as int));
        assert(rot@.take(len as int) =~= rot@);
        assert(filt@ == rot@.filter(pred));
        assert(child@ == perm_child_spec(filler@, seg_src@, min as int, max as int));
    }
    child
}

/// Order-preserving crossover of two permutations of one point set at the cut
/// points `min < max`: the children swap the parents' middle segments and are
/// filled from the rotated, filtered other parent, so that each child is
/// again a permutation of the same points — no duplicates, no omissions.
pub fn recombine_permutation(
    father: &Vec<Point>,
    mother: &Vec<Point>,
    min: usize,
    max: usize,
) -> (children: (Vec<Point>, Vec<Point>))
    requires
        father@.to_multiset() == mother@.to_multiset(),
        father@.no_duplicates(),
        mother@.no_duplicates(),
        father@.len() == mother@.len(),
        min < max <= father@.len(),
    ensures
        children.0@ == perm_child_spec(father@, mother@, min as int, max as int),
        children.1@ == perm_child_spec(mother@, father@, min as int, max as int),
        children.0@.to_multiset() == father@.to_multiset(),
        children.1@.to_multiset() == father@.to_multiset(),
        children.0@.no_duplicates(),
        children.1@.no_duplicates(),
        children.0@.len() == father@.len(),
        children.1@.len() == father@.len(),
        children.0@.subrange(min as int, max as int) == mother@.subrange(min as int, max as int),
        children.1@.subrange(min as int, max as int) == father@.subrange(min as int, max as int),
{
    let son = one_child(father, mother, min, max);
    let daughter = one_child(mother, father, min, max);
    (son, daughter)
}

} // verus!

verus! {

/// `s` after the given position swaps, applied first to last.
pub open spec fn apply_swaps(s: Seq<Point>, swaps: Seq<(usize, usize)>) -> Seq<Point>
    decreases swaps.len(),
{
    if swaps.len() == 0 {
        s
    } else {
        let prev = apply_swaps(s, swaps.drop_last());
        let pair = swaps.last();
        prev.update(pair.0 as int, prev[pair.1 as int]).update(pair.1 as int, prev[pair.0 as int])
    }
}

/// In-range swaps keep the length and the multiset of the sequence.
pub proof fn lemma_apply_swaps_multiset(s: Seq<Point>, swaps: Seq<(usize, usize)>)
    requires
        forall|i: int|
            0 <= i < swaps.len() ==> (#[trigger] swaps[i]).0 < s.len() && swaps[i].1 < s.len(),
    ensures
        apply_swaps(s, swaps).len() == s.len(),
        apply_swaps(s, swaps).to_multiset() == s.to_multiset(),
    decreases swaps.len(),
{
    if swaps.len() > 0 {
        assert(forall|i: int|
            0 <= i < swaps.drop_last().len() ==> (#[trigger] swaps.drop_last()[i]).0 < s.len()
                && swaps.drop_last()[i].1 < s.len());
        lemma_apply_swaps_multiset(s, swaps.drop_last());
        let prev = apply_swaps(s, swaps.drop_last());
        let pair = swaps.last();
        lemma_swap_multiset(prev, pair.0 as int, pair.1 as int);
    }
}

/// The outcome of one swap mutation with the given swaps and allow-worse
/// flag: the swapped scratch copy is installed with its recomputed tour
/// length exactly when it strictly improves or the flag is set; otherwise the
/// candidate is unchanged.
pub open spec fn swap_mutation_outcome(
    before: Chromosome,
    after: Chromosome,
    swaps: Seq<(usize, usize)>,
    allow_worse: bool,
) -> bool {
    let mutated = apply_swaps(before.solution@, swaps);
    let mcost = tour_len_spec(mutated);
    if mcost < before.cost || allow_worse {
        after.solution@ == mutated && after.cost == mcost
    } else {
        after == before
    }
}

/// What one whole random-swap mutation can make of a candidate: unchanged, or
/// the swap-mutation outcome of fewer than half a sequence length of in-range
/// index pairs.
pub open spec fn swap_mutated(before: Chromosome, after: Chromosome) -> bool {
    ||| after == before
    ||| exists|swaps: Seq<(usize, usize)>, allow_worse: bool|
        #![trigger swap_mutation_outcome(before, after, swaps, allow_worse)]
        {
            &&& swaps.len() < before.solution@.len() / 2
            &&& forall|i: int|
                0 <= i < swaps.len() ==> (#[trigger] swaps[i]).0 < before.solution@.len()
                    && swaps[i].1 < before.solution@.len()
            &&& swap_mutation_outcome(before, after, swaps, allow_worse)
        }
}

impl Chromosome {
    /// Order-preserving crossover of two candidates over the same point set,
    /// at freshly drawn cut points.  Each child is a valid permutation of the
    /// same points (no duplicates, no omissions), scored by construction; the
    /// parents are left untouched.
    pub fn crossover(&self, other: &Self) -> (r: Result<(Chromosome, Chromosome), EngineError>)
        requires
            self.wf(),
            other.wf(),
            self.solution@.to_multiset() == other.solution@.to_multiset(),
        ensures
            match r {
                Ok(c) => {
                    &&& c.0.wf()
                    &&& c.1.wf()
                    &&& c.0.is_permutation_of(self.solution@)
                    &&& c.1.is_permutation_of(self.solution@)
                    &&& exists|mn: int, mx: int|
                        #![trigger perm_child_spec(self.solution@, other.solution@, mn, mx)]
                        {
                            &&& 0 <= mn < mx < self.solution@.len()
                            &&& c.0.solution@ == perm_child_spec(
                                self.solution@,
                                other.solution@,
                                mn,
                                mx,
                            )
                            &&& c.1.solution@ == perm_child_spec(
                                other.solution@,
                                self.solution@,
                                mn,
                                mx,
                            )
                        }
                },
                Err(e) => e == EngineError::CutSampleFailed,
            },
    {
        proof {
            lemma_multiset_eq_len(self.solution@, other.solution@);
        }
        let cuts = match crate::chromosome::sample_cut_points(self.solution.len()) {
            Ok(c) => c,
            Err(e) => {
                return Err(e);
            },
        };
        let children = recombine_permutation(&self.solution, &other.solution, cuts.0, cuts.1);
        let (son_sol, daughter_sol) = children;
        proof {
            crate::map::lemma_multiset_eq_in_range(self.solution@, son_sol@);
            crate::map::lemma_multiset_eq_in_range(self.solution@, daughter_sol@);
        }
        let son_cost = tour_length(&son_sol);
        let daughter_cost = tour_length(&daughter_sol);
        proof {
            assert(son_sol@ == perm_child_spec(
                self.solution@,
                other.solution@,
                cuts.0 as int,
                cuts.1 as int,
            ));
        }
        Ok(
            (
                Chromosome { solution: son_sol, cost: son_cost },
                Chromosome { solution: daughter_sol, cost: daughter_cost },
            ),
        )
    }

    /// Applies the given position swaps to a scratch copy of the solution,
    /// rescores it, and installs the scratch copy only when its tour length
    /// strictly improves, or unconditionally when `allow_worse` is set.  A
    /// candidate is never left with a strictly worse cost unless
    /// `allow_worse` explicitly permitted it.
    pub fn random_swap_with(&mut self, swaps: &Vec<(usize, usize)>, allow_worse: bool)
        requires
            old(self).wf(),
            forall|i: int|
                0 <= i < swaps@.len() ==> (#[trigger] swaps@[i]).0 < old(self).solution@.len()
                    && swaps@[i].1 < old(self).solution@.len(),
        ensures
            final(self).wf(),
            final(self).is_permutation_of(old(self).solution@),
            swap_mutation_outcome(*old(self), *final(self), swaps@, allow_worse),
            final(self).cost <= old(self).cost || allow_worse,
    {
        let ghost s0 = self.solution@;
        let mut scratch = clone_points(&self.solution);
        let mut i: usize = 0;
        while i < swaps.len()
            invariant
                i <= swaps@.len(),
                scratch@ == apply_swaps(s0, swaps@.take(i as int)),
                scratch@.len() == s0.len(),
                forall|j: int|
                    0 <= j < swaps@.len() ==> (#[trigger] swaps@[j]).0 < s0.len() && swaps@[j].1
                        < s0.len(),
            decreases swaps@.len() - i,
        {
            let pair = swaps[i];
            swap_points(&mut scratch, pair.0, pair.1);
            proof {
                let t = swaps@.take(i + 1);
                assert(t.drop_last() =~= swaps@.take(i as int));
                assert(t.last() == swaps@[i as int]);
            }
            i = i + 1;
        }
        proof {
            assert(swaps@.take(swaps@.len() as int) =~= swaps@);
            lemma_apply_swaps_multiset(s0, swaps@);
            crate::map::lemma_multiset_eq_in_range(s0, scratch@);
            lemma_multiset_eq_no_duplicates(s0, scratch@);
        }
        let mutate_cost = tour_length(&scratch);
        if mutate_cost < self.cost || allow_worse {
            self.solution = scratch;
            self.cost = mutate_cost;
        }
    }

    /// The random-swap mutation as the engine applies it: a random number of
    /// random index pairs, bounded by half the sequence length, swapped on a
    /// scratch copy; one roll in ten lets a worse result survive.
    pub fn random_swap(&mut self)
        requires
            old(self).wf(),
        ensures
            final(self).wf(),
            final(self).is_permutation_of(old(self).solution@),
            swap_mutated(*old(self), *final(self)),
    {
        let len = self.solution.len();
        let count = rand_index(len / 2);
        let mut swaps: Vec<(usize, usize)> = Vec::new();
        let mut k: usize = 0;
        while k < count
            invariant
                len == old(self).solution@.len(),
                len >= 2,
                count < len / 2,
                swaps@.len() == k <= count,
                forall|j: int|
                    0 <= j < swaps@.len() ==> (#[trigger] swaps@[j]).0 < len && swaps@[j].1 < len,
            decreases count - k,
        {
            swaps.push((rand_index(len), rand_index(len)));
            k = k + 1;
        }
        let allow_worse = rand_index(100) < 10;
        self.random_swap_with(&swaps, allow_worse);
        proof {
            assert(swap_mutation_outcome(*old(self), *self, swaps@, allow_worse));
        }
    }
}

} // verus!

verus! {

/// Greedily reorders the points of the window after its first: each position
/// receives the nearest remaining point to its predecessor, by squared
/// distance (which orders straight-line distances the same way).  In the
/// result, every point is at least as close to its predecessor as every
/// later point of the window is.
fn optimize_window(w: &mut Vec<Point>)
    requires
        points_in_range(old(w)@),
    ensures
        final(w)@.len() == old(w)@.len(),
        final(w)@.to_multiset() == old(w)@.to_multiset(),
        final(w)@.len() > 0 ==> final(w)@[0] == old(w)@[0],
        forall|k: int, j: int|
            #![trigger final(w)@[k], final(w)@[j]]
            1 <= k <= j < final(w)@.len() ==> crate::map::sq_dist_spec(
                final(w)@[k - 1],
                final(w)@[k],
            ) <= crate::map::sq_dist_spec(final(w)@[k - 1], final(w)@[j]),
{
    let n = w.len();
    if n < 2 {
        return ;
    }
    let mut idx: usize = 1;
    while idx < n
        invariant
            1 <= idx <= n,
            n == w@.len(),
            w@.to_multiset() == old(w)@.to_multiset(),
            points_in_range(w@),
            n > 0 ==> w@[0] == old(w)@[0],
            forall|k: int, j: int|
                #![trigger w@[k], w@[j]]
                1 <= k < idx && k <= j < n ==> crate::map::sq_dist_spec(w@[k - 1], w@[k])
                    <= crate::map::sq_dist_spec(w@[k - 1], w@[j]),
        decreases n - idx,
    {
        let reference = w[idx - 1];
        let mut best: usize = idx;
        let mut best_d = crate::map::sq_dist(reference, w[idx]);
        let mut j: usize = idx + 1;
        while j < n
            invariant
                1 <= idx <= best < j <= n,
                n == w@.len(),
                points_in_range(w@),
                reference == w@[idx - 1],
                best_d == crate::map::sq_dist_spec(reference, w@[best as int]),
                forall|t: int|
                    idx <= t < j ==> best_d <= crate::map::sq_dist_spec(
                        reference,
                        #[trigger] w@[t],
                    ),
            decreases n - j,
        {
            let d = crate::map::sq_dist(reference, w[j]);
            if d < best_d {
                best = j;
                best_d = d;
            }
            j = j + 1;
        }
        let ghost pre = w@;
        swap_points(w, idx, best);
        proof {
            crate::map::lemma_multiset_eq_in_range(pre, w@);
            assert forall|k: int, j2: int|
                #![trigger w@[k], w@[j2]]
                1 <= k < idx + 1 && k <= j2 < n implies crate::map::sq_dist_spec(
                w@[k - 1],
                w@[k],
            ) <= crate::map::sq_dist_spec(w@[k - 1], w@[j2]) by {
                if k < idx {
                    assert(w@[k - 1] == pre[k - 1]);
                    assert(w@[k] == pre[k]);
                    if j2 == idx {
                        assert(w@[j2] == pre[best as int]);
                    } else if j2 == best as int {
                        assert(w@[j2] == pre[idx as int]);
                    } else {
                        assert(w@[j2] == pre[j2]);
                    }
                } else {
                    assert(w@[k - 1] == pre[idx - 1]);
                    assert(w@[k] == pre[best as int]);
                    if j2 > idx {
                        if j2 == best as int {
                            assert(w@[j2] == pre[idx as int]);
                        } else {
                            assert(w@[j2] == pre[j2]);
                        }
                    }
                }
            }
        }
        idx = idx + 1;
    }
}

/// Whether position `i` of a buffer of length `len` lies in the window of
/// `wlen` positions that starts at `pivot` and wraps past the buffer's end.
pub open spec fn in_window(i: int, pivot: int, wlen: int, len: int) -> bool {
    (pivot <= i < pivot + wlen) || (i + len < pivot + wlen)
}

/// The scratch copy a nearest-neighbour mutation decides on: the window of
/// one third of the sequence starting at the pivot, greedily reordered after
/// its first point, and nothing else changed.
pub open spec fn nn_window_reordered(old_sol: Seq<Point>, scratch: Seq<Point>, pivot: int) -> bool {
    let len = old_sol.len() as int;
    let wlen = len / 3;
    let rot_old = crate::chromosome::rotate_left_spec(old_sol, pivot);
    let rot_new = crate::chromosome::rotate_left_spec(scratch, pivot);
    &&& scratch.len() == old_sol.len()
    &&& scratch.to_multiset() == old_sol.to_multiset()
    &&& forall|i: int|
        0 <= i < len && !in_window(i, pivot, wlen, len) ==> #[trigger] scratch[i] == old_sol[i]
    &&& (wlen >= 1 ==> rot_new[0] == rot_old[0])
    &&& forall|k: int, j: int|
        #![trigger rot_new[k], rot_new[j]]
        1 <= k <= j < wlen ==> crate::map::sq_dist_spec(rot_new[k - 1], rot_new[k])
            <= crate::map::sq_dist_spec(rot_new[k - 1], rot_new[j])
}

/// The outcome of one nearest-neighbour mutation at the given pivot: a
/// greedily reordered window copy is installed with its recomputed tour
/// length exactly when it strictly improves or the flag is set; otherwise the
/// candidate is unchanged.
pub open spec fn nn_mutation_outcome(
    before: Chromosome,
    after: Chromosome,
    pivot: int,
    allow_worse: bool,
) -> bool {
    exists|scratch: Seq<Point>|
        #![trigger nn_window_reordered(before.solution@, scratch, pivot)]
        {
            &&& nn_window_reordered(before.solution@, scratch, pivot)
            &&& (if tour_len_spec(scratch) < before.cost || allow_worse {
                after.solution@ == scratch && after.cost == tour_len_spec(scratch)
            } else {
                after == before
            })
        }
}

/// What one whole nearest-neighbour mutation can make of a candidate:
/// unchanged, or the outcome at some pivot.
pub open spec fn nn_mutated(before: Chromosome, after: Chromosome) -> bool {
    ||| after == before
    ||| exists|pivot: int, allow_worse: bool|
        #![trigger nn_mutation_outcome(before, after, pivot, allow_worse)]
        0 <= pivot < before.solution@.len() && nn_mutation_outcome(
            before,
            after,
            pivot,
            allow_worse,
        )
}

/// A buffer assembled as a greedily reordered window followed by the rest of
/// the pivot-rotation, once rotated back, is a reordered-window scratch copy
/// in the sense of `nn_window_reordered`.
proof fn lemma_nn_window(
    s0: Seq<Point>,
    wopt: Seq<Point>,
    new_rot: Seq<Point>,
    scratch: Seq<Point>,
    pivot: int,
)
    requires
        0 <= pivot < s0.len(),
        s0.len() / 3 >= 2,
        wopt.len() == s0.len() as int / 3,
        new_rot.len() == s0.len(),
        new_rot.take(s0.len() as int / 3) == wopt,
        new_rot.skip(s0.len() as int / 3) == crate::chromosome::rotate_left_spec(
            s0,
            pivot,
        ).subrange(s0.len() as int / 3, s0.len() as int),
        scratch == crate::chromosome::rotate_left_spec(new_rot, s0.len() - pivot),
        scratch.len() == s0.len(),
        scratch.to_multiset() == s0.to_multiset(),
        wopt[0] == crate::chromosome::rotate_left_spec(s0, pivot)[0],
        forall|k: int, j: int|
            #![trigger wopt[k], wopt[j]]
            1 <= k <= j < wopt.len() ==> crate::map::sq_dist_spec(wopt[k - 1], wopt[k])
                <= crate::map::sq_dist_spec(wopt[k - 1], wopt[j]),
    ensures
        nn_window_reordered(s0, scratch, pivot),
{
    let len = s0.len() as int;
    let wlen = len / 3;
    let rot = crate::chromosome::rotate_left_spec(s0, pivot);

    // Rotating the written-back buffer by the pivot recovers it, so the
    // scratch copy's rotated view is exactly the assembled buffer.
    crate::chromosome::lemma_rotate_inverse(new_rot, len - pivot);
    assert(crate::chromosome::rotate_left_spec(scratch, pivot) == new_rot);

    assert forall|k2: int| 0 <= k2 < wlen implies #[trigger] new_rot[k2] == wopt[k2] by {
        assert(new_rot.take(wlen)[k2] == new_rot[k2]);
    }
    assert forall|k2: int| wlen <= k2 < len implies #[trigger] new_rot[k2] == rot[k2] by {
        assert(new_rot.skip(wlen)[k2 - wlen] == new_rot[k2]);
        assert(rot.subrange(wlen, len)[k2 - wlen] == rot[k2]);
    }

    // Outside the window, the back rotation lands every point on its
    // original position.
    assert forall|i2: int|
        0 <= i2 < len && !in_window(i2, pivot, wlen, len) implies #[trigger] scratch[i2]
        == s0[i2] by {
        if i2 >= pivot {
            assert(scratch[i2] == new_rot[i2 - pivot]);
            assert(new_rot[i2 - pivot] == rot[i2 - pivot]);
            assert(rot[i2 - pivot] == s0[i2]);
        } else {
            assert(scratch[i2] == new_rot[i2 + len - pivot]);
            assert(new_rot[i2 + len - pivot] == rot[i2 + len - pivot]);
            assert(rot[i2 + len - pivot] == s0[i2]);
        }
    }
}

impl Chromosome {
    /// The local nearest-neighbour repair at a given pivot: a window of one
    /// third of the sequence, wrapping past the end, is greedily reordered on
    /// a scratch copy, the scratch copy is rescored and installed only when
    /// its tour length strictly improves or `allow_worse` is set.  Positions
    /// outside the window are never changed.
    #[verifier::spinoff_prover]
    pub fn nearest_neighbor_with(&mut self, pivot: usize, allow_worse: bool)
        requires
            old(self).wf(),
            pivot < old(self).solution@.len(),
        ensures
            final(self).wf(),
            final(self).is_permutation_of(old(self).solution@),
            final(self).cost <= old(self).cost || allow_worse,
            forall|i: int|
                0 <= i < old(self).solution@.len() && !in_window(
                    i,
                    pivot as int,
                    old(self).solution@.len() as int / 3,
                    old(self).solution@.len() as int,
                ) ==> final(self).solution@[i] == old(self).solution@[i],
            nn_mutation_outcome(*old(self), *final(self), pivot as int, allow_worse),
    {
        let len = self.solution.len();
        let wlen = len / 3;
        if wlen < 2 {
            // Too short a window to reorder: the candidate is left unchanged,
            // which is the outcome on its own (already trivially greedy)
            // window copy.
            proof {
                assert(nn_window_reordered(self.solution@, self.solution@, pivot as int));
                assert(nn_mutation_outcome(*self, *self, pivot as int, allow_worse));
            }
            return ;
        }
        let ghost s0 = self.solution@;

        // Read the window as if the solution were rotated left by the pivot.
        let rot = crate::chromosome::rotated_copy(&self.solution, pivot);
        let mut window: Vec<Point> = Vec::new();
        let mut i: usize = 0;
        while i < wlen
            invariant
                i <= wlen <= rot@.len(),
                window@ == rot@.take(i as int),
            decreases wlen - i,
        {
            window.push(rot[i]);
            proof {
                assert(rot@.take(i + 1) =~= rot@.take(i as int).push(rot@[i as int]));
            }
            i = i + 1;
        }
        proof {
            crate::chromosome::lemma_rotate_multiset(s0, pivot as int);
            crate::map::lemma_multiset_eq_in_range(s0, rot@);
        }
        optimize_window(&mut window);

        // Put the reordered window back in place of the rotation's head, and
        // rotate the whole buffer back.
        let mut new_rot = window;
        let ghost wopt = new_rot@;
        proof {
            assert(new_rot@.take(wlen as int) =~= wopt);
        }
        let mut t: usize = wlen;
        while t < len
            invariant
                wlen <= t <= len,
                len == rot@.len(),
                wlen == wopt.len(),
                new_rot@.len() == t,
                new_rot@.take(wlen as int) == wopt,
                new_rot@.skip(wlen as int) == rot@.subrange(wlen as int, t as int),
            decreases len - t,
        {
            new_rot.push(rot[t]);
            proof {
                assert(new_rot@.take(wlen as int) =~= wopt);
                assert(new_rot@.skip(wlen as int) =~= rot@.subrange(wlen as int, t + 1));
            }
            t = t + 1;
        }
        proof {
            let head = new_rot@.take(wlen as int);
            let tail = new_rot@.skip(wlen as int);
            let rhead = rot@.take(wlen as int);
            let rtail = rot@.skip(wlen as int);
            assert(head.to_multiset() == rhead.to_multiset());
            assert(new_rot@ =~= head + tail);
            assert(rot@ =~= rhead + rtail);
            assert(tail =~= rtail);
            vstd::seq_lib::lemma_multiset_commutative(head, tail);
            vstd::seq_lib::lemma_multiset_commutative(rhead, rtail);
            assert(new_rot@.to_multiset() == rot@.to_multiset());
            crate::map::lemma_multiset_eq_in_range(rot@, new_rot@);
        }
        let scratch = crate::chromosome::rotated_copy(&new_rot, len - pivot);
        proof {
            crate::chromosome::lemma_rotate_multiset(new_rot@, (len - pivot) as int);
            assert(scratch@.to_multiset() == s0.to_multiset());
            crate::map::lemma_multiset_eq_in_range(s0, scratch@);
            lemma_multiset_eq_no_duplicates(s0, scratch@);
            assert(wopt[0] == rot@.take(wlen as int)[0]);
            lemma_nn_window(s0, wopt, new_rot@, scratch@, pivot as int);
        }
        let mutate_cost = tour_length(&scratch);
        if mutate_cost < self.cost || allow_worse {
            self.solution = scratch;
            self.cost = mutate_cost;
        }
        proof {
            assert(nn_mutation_outcome(*old(self), *self, pivot as int, allow_worse));
        }
    }

    /// The nearest-neighbour mutation as the engine applies it: a random
    /// pivot; one roll in ten lets a worse result survive.
    pub fn nearest_neighbor(&mut self)
        requires
            old(self).wf(),
        ensures
            final(self).wf(),
            final(self).is_permutation_of(old(self).solution@),
            nn_mutated(*old(self), *final(self)),
    {
        let pivot = rand_index(self.solution.len());
        let allow_worse = rand_index(100) < 10;
        self.nearest_neighbor_with(pivot, allow_worse);
        proof {
            assert(nn_mutation_outcome(*old(self), *self, pivot as int, allow_worse));
        }
    }

    /// Random mutation as the engine applies it: one percentage roll chooses
    /// the strategies — a random swap four times out of five, additionally
    /// the nearest-neighbour repair three times out of ten.
    pub fn mutate(&mut self)
        requires
            old(self).wf(),
        ensures
            final(self).wf(),
            final(self).is_permutation_of(old(self).solution@),
            exists|mid: Chromosome|
                #![trigger swap_mutated(*old(self), mid)]
                swap_mutated(*old(self), mid) && nn_mutated(mid, *final(self)),
    {
        let roll = rand_index(100);
        if roll < 80 {
            self.random_swap();
        }
        let ghost mid = *self;
        if roll < 30 {
            self.nearest_neighbor();
        }
        proof {
            assert(swap_mutated(*old(self), mid));
            assert(nn_mutated(mid, *self));
        }
    }
}

} // verus!

verus! {

/// Tour lengths never decrease along the sequence: the head has the shortest
/// tour, which is the highest score.
pub open spec fn sorted_by_length(s: Seq<Chromosome>) -> bool {
    forall|i: int, j: int| 0 <= i <= j < s.len() ==> s[i].cost <= s[j].cost
}

/// Ranks a travelling-salesman population by descending score, that is by
/// ascending tour length.  The result is the same multiset of candidates;
/// afterwards the head of the population has maximal score.
pub fn rank_tours(population: &mut Vec<Chromosome>)
    ensures
        sorted_by_length(final(population)@),
        final(population)@.to_multiset() == old(population)@.to_multiset(),
        final(population)@.len() == old(population)@.len(),
        forall|i: int|
            0 <= i < final(population)@.len() ==> final(population)@[0].cost
                <= (#[trigger] final(population)@[i]).cost,
{
    broadcast use vstd::seq_lib::group_to_multiset_ensures;

    let ghost orig = population@;
    let mut out: Vec<Chromosome> = Vec::new();
    while population.len() > 0
        invariant
            out@.len() + population@.len() == orig.len(),
            out@.to_multiset().add(population@.to_multiset()) == orig.to_multiset(),
            sorted_by_length(out@),
            forall|i: int, j: int|
                0 <= i < out@.len() && 0 <= j < population@.len() ==> (#[trigger] out@[i]).cost
                    <= (#[trigger] population@[j]).cost,
        decreases population@.len(),
    {
        let mut min_idx: usize = 0;
        let mut k: usize = 1;
        while k < population.len()
            invariant
                population@.len() > 0,
                min_idx < population@.len(),
                1 <= k <= population@.len(),
                forall|j: int|
                    0 <= j < k ==> population@[min_idx as int].cost
                        <= (#[trigger] population@[j]).cost,
            decreases population@.len() - k,
        {
            if population[k].cost < population[min_idx].cost {
                min_idx = k;
            }
            k = k + 1;
        }
        let ghost before = population@;
        let x = population.remove(min_idx);
        proof {
            assert(before.contains(x));
            vstd::seq_lib::to_multiset_remove(before, min_idx as int);
            vstd::seq_lib::to_multiset_build(out@, x);
            vstd::seq_lib::to_multiset_contains(before, x);
            assert(before.to_multiset().count(x) > 0);
            assert(out@.push(x).to_multiset().add(population@.to_multiset())
                =~= orig.to_multiset());
        }
        out.push(x);
    }
    proof {
        assert(population@.to_multiset() =~= vstd::multiset::Multiset::<Chromosome>::empty());
        assert(out@.to_multiset().add(vstd::multiset::Multiset::<Chromosome>::empty())
            =~= out@.to_multiset());
    }
    *population = out;
}

/// The travelling-salesman evolutionary engine: a population of tour
/// permutations of one travel map, ranked by descending score.  Having no
/// exact terminal value, it runs for as many generations as it is stepped.
pub struct TspEngine {
    pub base: Tour,
    pub population_size: usize,
    pub survival_percent: usize,
    pub population: Vec<Chromosome>,
}

impl TspEngine {
    /// The engine invariant: a validated configuration, and a full, ranked
    /// population of well-formed permutations of the travel map.
    pub open spec fn inv(self) -> bool {
        &&& 2 <= self.base@.len() <= 0x1_0000_0000
        &&& points_in_range(self.base@)
        &&& self.base@.no_duplicates()
        &&& 0 < self.population_size <= crate::engine::MAX_POPULATION
        &&& self.population_size % 2 == 0
        &&& self.survival_percent < 100
        &&& self.population@.len() == self.population_size
        &&& forall|i: int| 0 <= i < self.population@.len() ==> (#[trigger] self.population@[i]).wf()
        &&& forall|i: int|
            0 <= i < self.population@.len() ==> (#[trigger] self.population@[i]).is_permutation_of(
                self.base@,
            )
        &&& sorted_by_length(self.population@)
    }

    /// Builds an engine over a fresh population of random permutations of the
    /// travel map.  A map of fewer than two points, a zero or odd population
    /// size, or a survival percentage of 100 or more is a fatal configuration
    /// error; anything else succeeds.
    pub fn new(source: Tour, population_size: usize, survival_percent: usize) -> (r: Result<
        TspEngine,
        EngineError,
    >)
        requires
            source@.len() <= 0x1_0000_0000,
            points_in_range(source@),
            source@.no_duplicates(),
            population_size <= crate::engine::MAX_POPULATION,
        ensures
            match r {
                Ok(e) => {
                    &&& e.inv()
                    &&& e.base@ == source@
                    &&& e.population_size == population_size
                    &&& e.survival_percent == survival_percent
                },
                Err(err) => err == (if source@.len() < 2 {
                    EngineError::EmptyTarget
                } else if population_size == 0 || population_size % 2 != 0 {
                    EngineError::OddPopulation
                } else {
                    EngineError::InvalidSurvivalRate
                }),
            },
            r is Err <==> (source@.len() < 2 || population_size == 0 || population_size % 2 != 0
                || survival_percent >= 100),
    {
        if source.0.len() < 2 {
            return Err(EngineError::EmptyTarget);
        }
        if population_size == 0 || population_size % 2 != 0 {
            return Err(EngineError::OddPopulation);
        }
        if survival_percent >= 100 {
            return Err(EngineError::InvalidSurvivalRate);
        }
        let mut population: Vec<Chromosome> = Vec::new();
        let mut i: usize = 0;
        while i < population_size
            invariant
                i <= population_size,
                population@.len() == i,
                2 <= source@.len() <= 0x1_0000_0000,
                points_in_range(source@),
                source@.no_duplicates(),
                forall|j: int| 0 <= j < i ==> (#[trigger] population@[j]).wf(),
                forall|j: int|
                    0 <= j < i ==> (#[trigger] population@[j]).is_permutation_of(source@),
            decreases population_size - i,
        {
            population.push(Chromosome::random(&source));
            i = i + 1;
        }
        let mut engine = TspEngine { base: source, population_size, survival_percent, population };
        let ghost pre = engine.population@;
        rank_tours(&mut engine.population);
        proof {
            lemma_multiset_eq_elements(pre, engine.population@);
            assert forall|k: int|
                0 <= k < engine.population@.len() implies (#[trigger] engine.population@[k]).wf()
                && engine.population@[k].is_permutation_of(engine.base@) by {
                let x = engine.population@[k];
                assert(pre.contains(x));
                let j = choose|j: int| 0 <= j < pre.len() && pre[j] == x;
            }
        }
        Ok(engine)
    }

    /// A read-only view of the best candidate of the ranked population: the
    /// observation point a caller reads after every generation.  No candidate
    /// of the population has a shorter tour.
    pub fn best(&self) -> (r: &Chromosome)
        requires
            self.inv(),
        ensures
            *r == self.population@[0],
            r.wf(),
            r.is_permutation_of(self.base@),
            forall|i: int|
                0 <= i < self.population@.len() ==> r.cost <= (#[trigger] self.population@[i]).cost,
    {
        &self.population[0]
    }

    /// One generation: the survivors with the highest scores are carried over
    /// unchanged, the rest of the next generation is bred from
    /// fitness-weighted parent pairs by order-preserving crossover and
    /// mutation, and the new population is ranked.  The weight distribution
    /// degenerates exactly when every candidate's fixed-point reciprocal
    /// weight rounds to zero; on success, elitism guarantees the best tour
    /// has not grown longer.
    pub fn step(&mut self) -> (r: Result<(), EngineError>)
        requires
            old(self).inv(),
        ensures
            final(self).inv(),
            final(self).base@ == old(self).base@,
            final(self).population_size == old(self).population_size,
            final(self).survival_percent == old(self).survival_percent,
            match r {
                Ok(()) => true,
                Err(e) => e == EngineError::CutSampleFailed || e
                    == EngineError::DegenerateWeights,
            },
            r == Err::<(), EngineError>(EngineError::DegenerateWeights) <==> (forall|i: int|
                0 <= i < old(self).population@.len()
                    ==> crate::engine::WEIGHT_SCALE as int / (#[trigger] old(
                    self,
                ).population@[i]).cost as int == 0),
            (r is Ok && crate::engine::survivor_count_spec(
                old(self).population_size as int,
                old(self).survival_percent as int,
            ) > 0) ==> final(self).population@[0].cost <= old(self).population@[0].cost,
    {
        let survivors = crate::engine::survivor_count(self.population_size, self.survival_percent);

        // Elitism: the best-scored candidates are carried over unchanged.
        let mut children: Vec<Chromosome> = Vec::new();
        let mut i: usize = 0;
        while i < survivors
            invariant
                old(self).inv(),
                *self == *old(self),
                i <= survivors <= self.population@.len(),
                children@.len() == i,
                i > 0 ==> children@[0].cost == old(self).population@[0].cost,
                forall|j: int| 0 <= j < i ==> (#[trigger] children@[j]).wf(),
                forall|j: int|
                    0 <= j < i ==> (#[trigger] children@[j]).is_permutation_of(self.base@),
            decreases survivors - i,
        {
            children.push(self.population[i].clone());
            i = i + 1;
        }

        // Fitness-proportionate weights over the entire current population:
        // every tour length is positive, but on maps so spread out that every
        // reciprocal weight rounds to zero the distribution is degenerate,
        // which is a fatal error.
        let mut costs: Vec<u64> = Vec::new();
        let mut c: usize = 0;
        while c < self.population.len()
            invariant
                old(self).inv(),
                *self == *old(self),
                c <= self.population@.len(),
                costs@.len() == c,
                forall|j: int| 0 <= j < c ==> #[trigger] costs@[j] == self.population@[j].cost,
                forall|j: int| 0 <= j < c ==> #[trigger] costs@[j] > 0,
            decreases self.population@.len() - c,
        {
            proof {
                crate::map::lemma_tour_len_positive(self.population@[c as int].solution@);
            }
            costs.push(self.population[c].cost);
            c = c + 1;
        }
        let weights = match crate::engine::reciprocal_weights(&costs) {
            Ok(w) => w,
            Err(e) => {
                proof {
                    assert forall|j: int|
                        0 <= j < self.population@.len()
                            implies crate::engine::WEIGHT_SCALE as int / (#[trigger] self
                        .population@[j]).cost as int == 0 by {
                        assert(costs@[j] == self.population@[j].cost);
                    }
                }
                return Err(e);
            },
        };
        proof {
            crate::engine::lemma_weight_sum_bound(weights@, crate::engine::WEIGHT_SCALE);
            // Some weight is positive, so the distribution did not degenerate.
            let wi = choose|wi: int| 0 <= wi < weights@.len() && weights@[wi] > 0;
            assert(crate::engine::WEIGHT_SCALE as int / self.population@[wi].cost as int > 0);
        }
        let sampler = match crate::rng::sampler_new(&weights) {
            Ok(s) => s,
            Err(_) => vstd::pervasive::unreached(),
        };

        // Breed the remaining offspring slots from distinct parent pairs;
        // each child is mutated before it joins the next generation.
        let pairs = (self.population_size - survivors) / 2;
        let mut p: usize = 0;
        while p < pairs
            invariant
                old(self).inv(),
                *self == *old(self),
                survivors <= self.population_size,
                (self.population_size - survivors) % 2 == 0,
                pairs == (self.population_size - survivors) / 2,
                p <= pairs,
                children@.len() == survivors + 2 * p,
                crate::rng::sampler_weights(sampler) == weights@,
                weights@.len() == self.population@.len(),
                survivors > 0 ==> children@[0].cost == old(self).population@[0].cost,
                exists|wi: int|
                    0 <= wi < old(self).population@.len()
                        && crate::engine::WEIGHT_SCALE as int / (#[trigger] old(
                        self,
                    ).population@[wi]).cost as int > 0,
                forall|j: int| 0 <= j < children@.len() ==> (#[trigger] children@[j]).wf(),
                forall|j: int|
                    0 <= j < children@.len() ==> (#[trigger] children@[j]).is_permutation_of(
                        self.base@,
                    ),
            decreases pairs - p,
        {
            let pair = crate::engine::sample_parent_pair(&sampler, self.population.len());
            let bred = self.population[pair.0].crossover(&self.population[pair.1]);
            match bred {
                Ok(two) => {
                    let (mut son, mut daughter) = two;
                    son.mutate();
                    daughter.mutate();
                    children.push(son);
                    children.push(daughter);
                },
                Err(e) => {
                    return Err(e);
                },
            }
            p = p + 1;
        }

        // Install and rank the next generation.
        self.population = children;
        let ghost pre = self.population@;
        rank_tours(&mut self.population);
        proof {
            lemma_multiset_eq_elements(pre, self.population@);
            assert forall|k: int|
                0 <= k < self.population@.len() implies (#[trigger] self.population@[k]).wf()
                && self.population@[k].is_permutation_of(self.base@) by {
                let x = self.population@[k];
                assert(pre.contains(x));
                let j = choose|j: int| 0 <= j < pre.len() && pre[j] == x;
            }
            // Elitism: the carried-over head of the old generation bounds the
            // new head's tour length.
            if survivors > 0 {
                lemma_multiset_eq_elements(self.population@, pre);
                assert(self.population@.contains(pre[0]));
                let j = choose|j: int|
                    0 <= j < self.population@.len() && self.population@[j] == pre[0];
                assert(self.population@[0].cost <= self.population@[j].cost);
            }
        }
        Ok(())
    }
}

/// Runs one whole travelling-salesman search: a fresh population of random
/// permutations of the map, evolved for the given number of generations (the
/// representation has no exact terminal value, so the budget is the only
/// stop).  The best candidate of the final ranked population is returned.
pub fn run_tsp(
    source: Tour,
    population_size: usize,
    survival_percent: usize,
    max_generations: usize,
) -> (r: Result<Chromosome, EngineError>)
    requires
        source@.len() <= 0x1_0000_0000,
        points_in_range(source@),
        source@.no_duplicates(),
        population_size <= crate::engine::MAX_POPULATION,
    ensures
        match r {
            Ok(best) => best.wf() && best.is_permutation_of(source@),
            Err(e) => e == EngineError::EmptyTarget || e == EngineError::OddPopulation || e
                == EngineError::InvalidSurvivalRate || e == EngineError::CutSampleFailed || e
                == EngineError::DegenerateWeights,
        },
        source@.len() < 2 ==> r == Err::<Chromosome, EngineError>(EngineError::EmptyTarget),
        (source@.len() >= 2 && (population_size == 0 || population_size % 2 != 0)) ==> r
            == Err::<Chromosome, EngineError>(EngineError::OddPopulation),
        (source@.len() >= 2 && population_size > 0 && population_size % 2 == 0
            && survival_percent >= 100) ==> r == Err::<Chromosome, EngineError>(
            EngineError::InvalidSurvivalRate,
        ),
        (source@.len() >= 2 && population_size > 0 && population_size % 2 == 0
            && survival_percent < 100 && max_generations == 0) ==> r is Ok,
{
    let mut engine = match TspEngine::new(source, population_size, survival_percent) {
        Ok(e) => e,
        Err(e) => {
            return Err(e);
        },
    };
    let mut g: usize = 0;
    while g < max_generations
        invariant
            engine.inv(),
            engine.base@ == source@,
            source@.len() >= 2,
            population_size > 0,
            population_size % 2 == 0,
            survival_percent < 100,
        decreases max_generations - g,
    {
        match engine.step() {
            Ok(()) => {},
            Err(e) => {
                return Err(e);
            },
        }
        g = g + 1;
    }
    let best = engine.best().clone();
    Ok(best)
}

} // verus!
