//! Travelling-salesman tests: the integer distance model, permutation
//! validity of the crossover, the mutation acceptance rule and the
//! end-to-end search on a small square.

use genesis::EngineError;
use genesis::map::Point;
use genesis::map::Tour;
use genesis::map::isqrt;
use genesis::map::random_map;
use genesis::map::tour_length;
use genesis::tsp::Chromosome;
use genesis::tsp::TspEngine;
use genesis::tsp::rank_tours;
use genesis::tsp::recombine_permutation;
use genesis::tsp::run_tsp;

fn pt(x: i64, y: i64) -> Point {
    Point { x, y }
}

fn square() -> Vec<Point> {
    vec![pt(0, 0), pt(10, 0), pt(10, 10), pt(0, 10)]
}

/// Sorts the coordinate pairs, so that point sequences can be compared as
/// sets regardless of order.
fn sorted_pairs(points: &[Point]) -> Vec<(i64, i64)> {
    let mut v: Vec<(i64, i64)> = points.iter().map(|p| (p.x, p.y)).collect();
    v.sort();
    v
}

fn assert_permutation(child: &[Point], base: &[Point]) {
    assert_eq!(child.len(), base.len());
    assert_eq!(sorted_pairs(child), sorted_pairs(base));
    let pairs = sorted_pairs(child);
    for w in pairs.windows(2) {
        assert_ne!(w[0], w[1], "duplicate point in child");
    }
}

#[test]
fn isqrt_is_floor_square_root() {
    assert_eq!(isqrt(0), 0);
    assert_eq!(isqrt(1), 1);
    assert_eq!(isqrt(3), 1);
    assert_eq!(isqrt(4), 2);
    assert_eq!(isqrt(200), 14);
    assert_eq!(isqrt(4_000_000_000_000), 2_000_000);
    assert_eq!(isqrt(u64::MAX), 0xFFFF_FFFF);
}

#[test]
fn tour_length_of_square_orders() {
    // Visiting the square's corners in perimeter order closes a tour of the
    // exact perimeter; the crossing order pays for two diagonals instead.
    let perimeter = square();
    assert_eq!(tour_length(&perimeter), 40);
    let crossing = vec![pt(0, 0), pt(10, 10), pt(10, 0), pt(0, 10)];
    assert_eq!(tour_length(&crossing), 48);
}

#[test]
fn tour_length_is_deterministic() {
    let points = square();
    assert_eq!(tour_length(&points), tour_length(&points));
}

#[test]
fn chromosome_new_validates_representation() {
    assert!(matches!(Chromosome::new(vec![pt(0, 0)]), Err(EngineError::EmptyTarget)));
    assert!(matches!(
        Chromosome::new(vec![pt(0, 0), pt(2_000_000, 0)]),
        Err(EngineError::PointOutOfRange)
    ));
    assert!(matches!(
        Chromosome::new(vec![pt(1, 1), pt(2, 2), pt(1, 1)]),
        Err(EngineError::DuplicatePoint)
    ));
    let c = Chromosome::new(square()).unwrap();
    assert_eq!(c.cost, 40);
}

#[test]
fn shuffled_candidate_is_permutation() {
    let base = square();
    let tour = Tour(base.clone());
    for _ in 0..20 {
        let c = Chromosome::random(&tour);
        assert_permutation(&c.solution, &base);
        assert_eq!(c.cost, tour_length(&c.solution));
    }
}

#[test]
fn permutation_crossover_children_are_permutations() {
    // Across lengths and all cut points, both children always hold exactly
    // the parents' point set: no duplicates, no omissions.
    for len in 2..8usize {
        let base: Vec<Point> = (0..len).map(|i| pt(i as i64 * 3, (i * i) as i64)).collect();
        let mut rotated = base.clone();
        rotated.rotate_left(len / 2);
        for min in 0..len {
            for max in (min + 1)..=len {
                let (son, daughter) = recombine_permutation(&base, &rotated, min, max);
                assert_permutation(&son, &base);
                assert_permutation(&daughter, &base);
                assert_eq!(&son[min..max], &rotated[min..max]);
                assert_eq!(&daughter[min..max], &base[min..max]);
            }
        }
    }
}

#[test]
fn crossover_candidates_stay_valid() {
    let base = square();
    let tour = Tour(base.clone());
    let a = Chromosome::random(&tour);
    let b = Chromosome::random(&tour);
    let (son, daughter) = a.crossover(&b).unwrap();
    assert_permutation(&son.solution, &base);
    assert_permutation(&daughter.solution, &base);
    assert_eq!(son.cost, tour_length(&son.solution));
    assert_eq!(daughter.cost, tour_length(&daughter.solution));
}

#[test]
fn swap_mutation_installs_improvement() {
    // The crossing order of the square improves to the perimeter order by
    // swapping two stops.
    let mut c = Chromosome::new(vec![pt(0, 0), pt(10, 10), pt(10, 0), pt(0, 10)]).unwrap();
    assert_eq!(c.cost, 48);
    c.random_swap_with(&vec![(1usize, 2usize)], false);
    assert_eq!(c.cost, 40);
    assert_eq!(sorted_pairs(&c.solution), sorted_pairs(&square()));
}

#[test]
fn swap_mutation_rejects_worse_candidate() {
    let mut c = Chromosome::new(square()).unwrap();
    assert_eq!(c.cost, 40);
    c.random_swap_with(&vec![(1usize, 2usize)], false);
    // The swap would lengthen the tour, so it is not installed.
    assert_eq!(c.cost, 40);
    assert_eq!(c.solution, square());
}

#[test]
fn swap_mutation_accepts_worse_candidate_when_allowed() {
    let mut c = Chromosome::new(square()).unwrap();
    c.random_swap_with(&vec![(1usize, 2usize)], true);
    assert_eq!(c.cost, 48);
}

#[test]
fn nearest_neighbor_never_worsens_without_permission() {
    let base: Vec<Point> = (0..9).map(|i| pt((i * 37) % 100, (i * 53) % 100)).collect();
    let tour = Tour(base.clone());
    for pivot in 0..base.len() {
        let mut c = Chromosome::random(&tour);
        let before = c.cost;
        c.nearest_neighbor_with(pivot, false);
        assert!(c.cost <= before);
        assert_permutation(&c.solution, &base);
    }
}

#[test]
fn rank_tours_puts_best_score_first() {
    let mut population = vec![
        Chromosome::new(vec![pt(0, 0), pt(10, 10), pt(10, 0), pt(0, 10)]).unwrap(),
        Chromosome::new(square()).unwrap(),
    ];
    rank_tours(&mut population);
    assert_eq!(population[0].cost, 40);
    assert_eq!(population[1].cost, 48);
}

#[test]
fn tsp_engine_rejects_bad_configuration() {
    let tour = Tour(square());
    assert!(matches!(
        TspEngine::new(Tour(vec![pt(0, 0)]), 4, 10),
        Err(EngineError::EmptyTarget)
    ));
    assert!(matches!(TspEngine::new(Tour(square()), 5, 10), Err(EngineError::OddPopulation)));
    assert!(matches!(
        TspEngine::new(tour, 4, 100),
        Err(EngineError::InvalidSurvivalRate)
    ));
}

#[test]
fn tsp_engine_keeps_best_first() {
    let mut engine = TspEngine::new(Tour(square()), 8, 25).unwrap();
    for _ in 0..5 {
        let best_cost = engine.best().cost;
        for c in &engine.population {
            assert!(best_cost <= c.cost);
        }
        engine.step().unwrap();
    }
}

#[test]
fn random_map_yields_distinct_points() {
    let tour = random_map(100, 100, 20).unwrap();
    assert_eq!(tour.0.len(), 20);
    let pairs = sorted_pairs(&tour.0);
    for w in pairs.windows(2) {
        assert_ne!(w[0], w[1]);
    }
    for p in &tour.0 {
        assert!(0 <= p.x && p.x < 100);
        assert!(0 <= p.y && p.y < 100);
    }
}

#[test]
fn random_map_fails_on_exhausted_domain() {
    assert!(matches!(random_map(1, 1, 2), Err(EngineError::MapSampleFailed)));
}

#[test]
fn search_finds_square_perimeter() {
    // Four points forming a square: within the generation budget, the best
    // tour reaches the optimal perimeter traversal (cost 40, unique up to
    // rotation and reflection).
    let best = run_tsp(Tour(square()), 64, 10, 300).unwrap();
    assert_eq!(best.cost, 40);
    assert_eq!(sorted_pairs(&best.solution), sorted_pairs(&square()));
}

#[test]
fn permutation_crossover_fill_keeps_rotated_order() {
    // Six distinct points; the mother is the father rotated by three.  With
    // cuts (1, 3), each child takes the other parent's middle segment and is
    // filled from its own parent read left-rotated by the upper cut, tail
    // first, with the segment's points skipped.
    let father: Vec<Point> = vec![pt(0, 0), pt(1, 0), pt(2, 0), pt(3, 0), pt(4, 0), pt(5, 0)];
    let mut mother = father.clone();
    mother.rotate_left(3);
    let (son, daughter) = recombine_permutation(&father, &mother, 1, 3);
    // seg = mother[1..3] = [4,5]; father rotated by 3 = [3,4,5,0,1,2];
    // filtered = [3,0,1,2]; tail gets [3,0,1], head gets [2].
    assert_eq!(son, vec![pt(2, 0), pt(4, 0), pt(5, 0), pt(3, 0), pt(0, 0), pt(1, 0)]);
    // seg = father[1..3] = [1,2]; mother rotated by 3 = [0,1,2,3,4,5];
    // filtered = [0,3,4,5]; tail gets [0,3,4], head gets [5].
    assert_eq!(daughter, vec![pt(5, 0), pt(1, 0), pt(2, 0), pt(0, 0), pt(3, 0), pt(4, 0)]);
}
