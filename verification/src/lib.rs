//! An evolutionary (genetic-algorithm) search engine.
//!
//! A population of scored candidates is evolved generation by generation
//! through elitist survival, fitness-weighted parent selection, crossover and
//! probabilistic mutation.  Two candidate representations are supported: byte
//! sequences matched against a target under Hamming or edit distance
//! (`chromosome` and `engine`), and permutations of a fixed set of points as
//! in the travelling-salesman problem (`map` and `tsp`).

use vstd::prelude::*;

pub mod distance;
pub mod rng;
pub mod chromosome;
pub mod perm;
pub mod engine;
pub mod map;
pub mod tsp;

verus! {

/// The distance metric used to score a byte-sequence candidate against the
/// target.  Lower is better; zero means an exact match.
#[derive(Clone, Copy, Debug, PartialEq, Eq, Structural)]
pub enum Metric {
    /// Count of positions where the two sequences differ (equal lengths only).
    Hamming,
    /// Minimum number of insertions, deletions and substitutions.
    Edit,
}

/// The fatal error conditions of the engine.  None of them is transient: each
/// signals a configuration error or an impossible request, never a condition
/// that a retry could clear.
#[derive(Clone, Copy, Debug, PartialEq, Eq, Structural)]
pub enum EngineError {
    /// Two sequences that had to be of one length were not.
    LengthMismatch,
    /// The target byte sequence is empty, or the point set has fewer than
    /// the two points a tour needs.
    EmptyTarget,
    /// The alphabet to draw solution values from is empty.
    EmptyAlphabet,
    /// The configured population size is zero or odd.
    OddPopulation,
    /// The configured survival percentage lies outside `[0, 100)`.
    InvalidSurvivalRate,
    /// The parent-sampling weights are empty or all zero.
    DegenerateWeights,
    /// Two distinct cut points cannot be drawn: the sequences are shorter
    /// than two elements, or bounded resampling was exhausted.
    CutSampleFailed,
    /// A point's coordinates lie outside the supported range.
    PointOutOfRange,
    /// The requested number of distinct random points could not be drawn
    /// within the resampling budget.
    MapSampleFailed,
    /// A point occurs twice in a solution that had to be a permutation of
    /// distinct points.
    DuplicatePoint,
}

} // verus!
