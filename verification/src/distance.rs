//! Fitness evaluation for byte-sequence candidates: Hamming distance and
//! Levenshtein (edit) distance, with the laws they obey.

use vstd::prelude::*;

use crate::EngineError;
use crate::Metric;

verus! {

/// The longest candidate or target the evaluator accepts (exclusive).  Above
/// this, the outside edit-distance routine's internal `u32` bound arithmetic
/// would wrap.
pub const MAX_TEXT_LEN: usize = 0x8000_0000;

/// The number of positions at which two equal-length sequences differ.
/// On sequences of unequal length, positions past the shorter one are ignored.
pub open spec fn hamming_dist_spec(s: Seq<u8>, t: Seq<u8>) -> nat
    decreases s.len(),
{
    if s.len() == 0 || t.len() == 0 {
        0
    } else {
        hamming_dist_spec(s.drop_last(), t.drop_last()) + (if s.last() == t.last() {
            0nat
        } else {
            1nat
        })
    }
}

pub open spec fn min3(a: nat, b: nat, c: nat) -> nat {
    if a <= b && a <= c {
        a
    } else if b <= c {
        b
    } else {
        c
    }
}

/// The minimum number of single-element insertions, deletions and
/// substitutions that turn `s` into `t` (unit-cost Levenshtein distance).
pub open spec fn edit_dist_spec(s: Seq<u8>, t: Seq<u8>) -> nat
    decreases s.len() + t.len(),
{
    if s.len() == 0 {
        t.len()
    } else if t.len() == 0 {
        s.len()
    } else {
        min3(
            edit_dist_spec(s.drop_first(), t.drop_first()) + (if s.first() == t.first() {
                0nat
            } else {
                1nat
            }),
            edit_dist_spec(s.drop_first(), t) + 1,
            edit_dist_spec(s, t.drop_first()) + 1,
        )
    }
}

/// The configured metric, as a single spec-level cost function.
pub open spec fn metric_dist(m: Metric, s: Seq<u8>, t: Seq<u8>) -> nat {
    match m {
        Metric::Hamming => hamming_dist_spec(s, t),
        Metric::Edit => edit_dist_spec(s, t),
    }
}

/// Relies on `triple_accel::hamming`: the count of mismatching positions of
/// two equal-length byte slices (it panics on unequal lengths, which the
/// precondition rules out).
#[verifier::external_body]
fn hamming_call(a: &Vec<u8>, b: &Vec<u8>) -> (r: u32)
    requires
        a@.len() == b@.len(),
        a@.len() <= u32::MAX,
    ensures
        r == hamming_dist_spec(a@, b@),
{
    triple_accel::hamming(a.as_slice(), b.as_slice())
}

/// Relies on `triple_accel::levenshtein`: the unit-cost Levenshtein distance
/// (its `LEVENSHTEIN_COSTS`: mismatch 1, gap 1, no transpositions).  Lengths
/// must stay below `MAX_TEXT_LEN`: at 2^31 and above the routine's internal
/// edit-bound computation (`min_len << 1` in `u32`) wraps and the banded
/// search panics on differing inputs.
#[verifier::external_body]
fn levenshtein_call(a: &Vec<u8>, b: &Vec<u8>) -> (r: u32)
    requires
        a@.len() < MAX_TEXT_LEN,
        b@.len() < MAX_TEXT_LEN,
    ensures
        r == edit_dist_spec(a@, b@),
{
    triple_accel::levenshtein(a.as_slice(), b.as_slice())
}

/// Scalar cost of a candidate `s` against the target `t`: a pure function of
/// its inputs.  Under `Hamming`, equal lengths are a precondition checked at
/// run time; under `Edit` any two sequences are accepted.
pub fn evaluate(s: &Vec<u8>, t: &Vec<u8>, metric: Metric) -> (r: Result<u32, EngineError>)
    requires
        s@.len() < MAX_TEXT_LEN,
        t@.len() < MAX_TEXT_LEN,
    ensures
        match r {
            Ok(c) => c == metric_dist(metric, s@, t@) && (metric is Hamming ==> s@.len()
                == t@.len()),
            Err(e) => e == EngineError::LengthMismatch && metric is Hamming && s@.len()
                != t@.len(),
        },
{
    match metric {
        Metric::Hamming => {
            if s.len() != t.len() {
                Err(EngineError::LengthMismatch)
            } else {
                Ok(hamming_call(s, t))
            }
        },
        Metric::Edit => Ok(levenshtein_call(s, t)),
    }
}

/// Law: fitness is deterministic.  Any two cost values that satisfy
/// `evaluate`'s postcondition for the same candidate, target and metric are
/// equal, because the cost is a function of those inputs alone.
pub proof fn lemma_evaluate_deterministic(m: Metric, s: Seq<u8>, t: Seq<u8>, c1: u32, c2: u32)
    requires
        c1 == metric_dist(m, s, t),
        c2 == metric_dist(m, s, t),
    ensures
        c1 == c2,
{
}

/// Law: Hamming distance is symmetric.
pub proof fn lemma_hamming_symmetric(s: Seq<u8>, t: Seq<u8>)
    ensures
        hamming_dist_spec(s, t) == hamming_dist_spec(t, s),
    decreases s.len(),
{
    if s.len() != 0 && t.len() != 0 {
        lemma_hamming_symmetric(s.drop_last(), t.drop_last());
    }
}

/// Law: on equal-length sequences, the Hamming distance is zero exactly when
/// the sequences are equal.
pub proof fn lemma_hamming_zero_iff_eq(s: Seq<u8>, t: Seq<u8>)
    requires
        s.len() == t.len(),
    ensures
        hamming_dist_spec(s, t) == 0 <==> s == t,
    decreases s.len(),
{
    if s.len() == 0 {
        assert(s =~= t);
    } else {
        lemma_hamming_zero_iff_eq(s.drop_last(), t.drop_last());
        if s == t {
            assert(s.drop_last() =~= t.drop_last());
        }
        if hamming_dist_spec(s, t) == 0 {
            assert(s =~= s.drop_last().push(s.last()));
            assert(t =~= t.drop_last().push(t.last()));
        }
    }
}

} // verus!

verus! {

/// Law: edit distance is zero exactly when the two sequences are equal.
pub proof fn lemma_edit_zero_iff_eq(s: Seq<u8>, t: Seq<u8>)
    ensures
        edit_dist_spec(s, t) == 0 <==> s == t,
    decreases s.len() + t.len(),
{
    if s.len() == 0 {
        if edit_dist_spec(s, t) == 0 {
            assert(s =~= t);
        }
    } else if t.len() == 0 {
    } else {
        lemma_edit_zero_iff_eq(s.drop_first(), t.drop_first());
        if edit_dist_spec(s, t) == 0 {
            // Only the substitution arm of the minimum can be zero, so the
            // first elements agree and the tails are equal.
            assert(s.first() == t.first());
            assert(s.drop_first() == t.drop_first());
            assert forall|i: int| 0 <= i < s.len() implies s[i] == t[i] by {
                if i > 0 {
                    assert(s[i] == s.drop_first()[i - 1]);
                    assert(t[i] == t.drop_first()[i - 1]);
                }
            }
            assert(s =~= t);
        }
        if s == t {
            assert(s.drop_first() =~= t.drop_first());
        }
    }
}

/// Edit distance is at least the length difference of the two sequences and
/// at most the sum of their lengths.
pub proof fn lemma_edit_dist_bounds(s: Seq<u8>, t: Seq<u8>)
    ensures
        edit_dist_spec(s, t) + t.len() >= s.len(),
        edit_dist_spec(s, t) + s.len() >= t.len(),
        edit_dist_spec(s, t) <= s.len() + t.len(),
    decreases s.len() + t.len(),
{
    if s.len() != 0 && t.len() != 0 {
        lemma_edit_dist_bounds(s.drop_first(), t.drop_first());
        lemma_edit_dist_bounds(s.drop_first(), t);
        lemma_edit_dist_bounds(s, t.drop_first());
    }
}

/// Law: edit distance satisfies the triangle inequality, over any three
/// sequences of any lengths.
pub proof fn lemma_edit_dist_triangle(a: Seq<u8>, b: Seq<u8>, c: Seq<u8>)
    ensures
        edit_dist_spec(a, c) <= edit_dist_spec(a, b) + edit_dist_spec(b, c),
    decreases a.len() + b.len() + c.len(),
{
    if a.len() == 0 {
        lemma_edit_dist_bounds(b, c);
    } else if c.len() == 0 {
        lemma_edit_dist_bounds(a, b);
    } else if b.len() == 0 {
        lemma_edit_dist_bounds(a, c);
    } else {
        let a1 = a.drop_first();
        let b1 = b.drop_first();
        let c1 = c.drop_first();
        let ab_sub = edit_dist_spec(a1, b1) + (if a.first() == b.first() {
            0nat
        } else {
            1nat
        });
        let ab_del = edit_dist_spec(a1, b) + 1;
        let ab_ins = edit_dist_spec(a, b1) + 1;
        let bc_sub = edit_dist_spec(b1, c1) + (if b.first() == c.first() {
            0nat
        } else {
            1nat
        });
        let bc_del = edit_dist_spec(b1, c) + 1;
        let bc_ins = edit_dist_spec(b, c1) + 1;
        assert(edit_dist_spec(a, b) == min3(ab_sub, ab_del, ab_ins));
        assert(edit_dist_spec(b, c) == min3(bc_sub, bc_del, bc_ins));
        if edit_dist_spec(a, b) == ab_del {
            // The first element of `a` is deleted: drop it on both sides.
            lemma_edit_dist_triangle(a1, b, c);
            assert(edit_dist_spec(a, c) <= edit_dist_spec(a1, c) + 1);
        } else if edit_dist_spec(b, c) == bc_ins {
            // The first element of `c` is inserted: drop it on both sides.
            lemma_edit_dist_triangle(a, b, c1);
            assert(edit_dist_spec(a, c) <= edit_dist_spec(a, c1) + 1);
        } else if edit_dist_spec(a, b) == ab_sub {
            if edit_dist_spec(b, c) == bc_sub {
                // Both ends substitute through `b`'s first element.
                lemma_edit_dist_triangle(a1, b1, c1);
                assert(edit_dist_spec(a, c) <= edit_dist_spec(a1, c1) + (if a.first() == c.first() {
                    0nat
                } else {
                    1nat
                }));
            } else {
                // `b`'s first element is deleted toward `c`.
                assert(edit_dist_spec(b, c) == bc_del);
                lemma_edit_dist_triangle(a1, b1, c);
                assert(edit_dist_spec(a, c) <= edit_dist_spec(a1, c) + 1);
                assert(edit_dist_spec(a1, c) <= edit_dist_spec(a1, b1) + edit_dist_spec(b1, c));
            }
        } else {
            assert(edit_dist_spec(a, b) == ab_ins);
            if edit_dist_spec(b, c) == bc_sub {
                // `b`'s first element is inserted toward `a` and substituted
                // toward `c`.
                lemma_edit_dist_triangle(a, b1, c1);
                assert(edit_dist_spec(a, c) <= edit_dist_spec(a, c1) + 1);
            } else {
                // `b`'s first element is inserted toward `a` and deleted
                // toward `c`: it never touches `a` or `c`.
                assert(edit_dist_spec(b, c) == bc_del);
                lemma_edit_dist_triangle(a, b1, c);
            }
        }
    }
}

} // verus!
