//! String-mode tests: fitness evaluation, crossover, mutation, ranking and
//! the end-to-end search.

use genesis::EngineError;
use genesis::Metric;
use genesis::chromosome::Chromosome;
use genesis::chromosome::rank;
use genesis::chromosome::recombine;
use genesis::chromosome::sample_cut_points;
use genesis::distance::evaluate;
use genesis::engine::Engine;
use genesis::engine::reciprocal_weights;
use genesis::engine::run;
use genesis::engine::survivor_count;

fn bytes(s: &str) -> Vec<u8> {
    s.as_bytes().to_vec()
}

#[test]
fn evaluate_hamming_exact() {
    let d = evaluate(&bytes("karolin"), &bytes("kathrin"), Metric::Hamming).unwrap();
    assert_eq!(d, 3);
    let d = evaluate(&bytes("AAAA"), &bytes("AAAA"), Metric::Hamming).unwrap();
    assert_eq!(d, 0);
}

#[test]
fn evaluate_hamming_length_mismatch() {
    let r = evaluate(&bytes("abc"), &bytes("ab"), Metric::Hamming);
    assert_eq!(r, Err(EngineError::LengthMismatch));
}

#[test]
fn evaluate_edit_exact() {
    let d = evaluate(&bytes("kitten"), &bytes("sitting"), Metric::Edit).unwrap();
    assert_eq!(d, 3);
    let d = evaluate(&bytes("abc"), &bytes(""), Metric::Edit).unwrap();
    assert_eq!(d, 3);
}

#[test]
fn evaluate_is_deterministic() {
    for metric in [Metric::Hamming, Metric::Edit] {
        let a = evaluate(&bytes("hello"), &bytes("world"), metric).unwrap();
        let b = evaluate(&bytes("hello"), &bytes("world"), metric).unwrap();
        assert_eq!(a, b);
    }
}

#[test]
fn hamming_is_symmetric() {
    let a = evaluate(&bytes("flaw"), &bytes("lawn"), Metric::Hamming).unwrap();
    let b = evaluate(&bytes("lawn"), &bytes("flaw"), Metric::Hamming).unwrap();
    assert_eq!(a, b);
}

#[test]
fn hamming_zero_only_on_equal() {
    assert_eq!(evaluate(&bytes("same"), &bytes("same"), Metric::Hamming).unwrap(), 0);
    assert!(evaluate(&bytes("same"), &bytes("sane"), Metric::Hamming).unwrap() > 0);
}

#[test]
fn edit_distance_triangle_inequality() {
    let samples = ["", "a", "abc", "abcd", "xbcd", "kitten", "sitting", "axbycz"];
    for a in samples {
        for b in samples {
            for c in samples {
                let ab = evaluate(&bytes(a), &bytes(b), Metric::Edit).unwrap();
                let bc = evaluate(&bytes(b), &bytes(c), Metric::Edit).unwrap();
                let ac = evaluate(&bytes(a), &bytes(c), Metric::Edit).unwrap();
                assert!(ac <= ab + bc, "triangle violated for {a:?} {b:?} {c:?}");
            }
        }
    }
}

#[test]
fn recombine_transplants_segment_with_wraparound_fill() {
    let father = bytes("ABCDEF");
    let mother = bytes("uvwxyz");
    let (son, daughter) = recombine(&father, &mother, 2, 4);
    // The cut segment comes from the other parent; the wraparound fill of
    // equal-length parents lands every other byte on its own index.
    assert_eq!(son, bytes("ABwxEF"));
    assert_eq!(daughter, bytes("uvCDyz"));
    assert_eq!(son.len(), father.len());
    assert_eq!(daughter.len(), father.len());
}

#[test]
fn recombine_children_have_parent_length() {
    for len in 2..10usize {
        let father: Vec<u8> = (0..len as u8).collect();
        let mother: Vec<u8> = (0..len as u8).map(|b| b + 100).collect();
        for min in 0..len {
            for max in (min + 1)..=len {
                let (son, daughter) = recombine(&father, &mother, min, max);
                assert_eq!(son.len(), len);
                assert_eq!(daughter.len(), len);
            }
        }
    }
}

#[test]
fn cut_points_always_distinct() {
    for len in 2..10usize {
        for _ in 0..200 {
            let (lo, hi) = sample_cut_points(len).unwrap();
            assert!(lo < hi);
            assert!(hi < len);
        }
    }
}

#[test]
fn cut_points_fail_on_tiny_domain() {
    assert_eq!(sample_cut_points(0), Err(EngineError::CutSampleFailed));
    assert_eq!(sample_cut_points(1), Err(EngineError::CutSampleFailed));
}

#[test]
fn chromosome_new_rejects_length_mismatch() {
    let goal = bytes("abcd");
    let r = Chromosome::new(bytes("abc"), &goal, Metric::Hamming);
    assert!(matches!(r, Err(EngineError::LengthMismatch)));
    let c = Chromosome::new(bytes("abcf"), &goal, Metric::Hamming).unwrap();
    assert_eq!(c.cost, 1);
}

#[test]
fn crossover_children_match_goal_length() {
    let goal = bytes("ABCDEFGH");
    let alphabet: Vec<u8> = (b'A'..=b'H').collect();
    let a = Chromosome::random(&goal, &alphabet, Metric::Hamming);
    let b = Chromosome::random(&goal, &alphabet, Metric::Hamming);
    let (son, daughter) = a.crossover(&b, &goal, &alphabet, Metric::Hamming).unwrap();
    assert_eq!(son.solution.len(), goal.len());
    assert_eq!(daughter.solution.len(), goal.len());
    // The cached costs are consistent with a fresh evaluation.
    assert_eq!(son.cost, evaluate(&son.solution, &goal, Metric::Hamming).unwrap());
    assert_eq!(daughter.cost, evaluate(&daughter.solution, &goal, Metric::Hamming).unwrap());
}

#[test]
fn mutation_installs_strict_improvement() {
    let goal = bytes("AAAA");
    let mut c = Chromosome::new(bytes("BBBB"), &goal, Metric::Hamming).unwrap();
    assert_eq!(c.cost, 4);
    c.mutate_with(&goal, &vec![(0usize, b'A')], false, Metric::Hamming);
    assert_eq!(c.solution, bytes("ABBB"));
    assert_eq!(c.cost, 3);
}

#[test]
fn mutation_rejects_worse_candidate() {
    let goal = bytes("AAAA");
    let mut c = Chromosome::new(bytes("AAAA"), &goal, Metric::Hamming).unwrap();
    c.mutate_with(&goal, &vec![(0usize, b'B')], false, Metric::Hamming);
    // A strictly worse candidate is never installed on the normal path.
    assert_eq!(c.solution, bytes("AAAA"));
    assert_eq!(c.cost, 0);
}

#[test]
fn mutation_accepts_worse_candidate_when_allowed() {
    let goal = bytes("AAAA");
    let mut c = Chromosome::new(bytes("AAAA"), &goal, Metric::Hamming).unwrap();
    c.mutate_with(&goal, &vec![(0usize, b'B')], true, Metric::Hamming);
    // The explicit allow-worse path installs the worse candidate.
    assert_eq!(c.solution, bytes("BAAA"));
    assert_eq!(c.cost, 1);
}

#[test]
fn rank_puts_minimal_cost_first() {
    let goal = bytes("AAAA");
    let mut population = vec![
        Chromosome::new(bytes("BBBB"), &goal, Metric::Hamming).unwrap(),
        Chromosome::new(bytes("ABAA"), &goal, Metric::Hamming).unwrap(),
        Chromosome::new(bytes("ABBB"), &goal, Metric::Hamming).unwrap(),
        Chromosome::new(bytes("ABBA"), &goal, Metric::Hamming).unwrap(),
    ];
    rank(&mut population);
    assert_eq!(population.len(), 4);
    let costs: Vec<u32> = population.iter().map(|c| c.cost).collect();
    assert_eq!(costs, vec![1, 2, 3, 4]);
    for c in &population {
        assert!(population[0].cost <= c.cost);
    }
}

#[test]
fn engine_reports_ranked_best_every_generation() {
    let goal = bytes("HELLO");
    let alphabet: Vec<u8> = (b'A'..=b'Z').collect();
    let mut engine = Engine::new(goal.clone(), alphabet, 16, 25, Metric::Hamming).unwrap();
    for _ in 0..5 {
        // The population invariant: after ranking, the head has minimal cost.
        let best_cost = engine.best().cost;
        for c in &engine.population {
            assert!(best_cost <= c.cost);
        }
        if engine.step().unwrap() {
            break;
        }
    }
}

#[test]
fn engine_rejects_bad_configuration() {
    let alphabet: Vec<u8> = vec![b'A', b'B'];
    let r = Engine::new(Vec::new(), alphabet.clone(), 4, 10, Metric::Hamming);
    assert!(matches!(r, Err(EngineError::EmptyTarget)));
    let r = Engine::new(bytes("AAAA"), Vec::new(), 4, 10, Metric::Hamming);
    assert!(matches!(r, Err(EngineError::EmptyAlphabet)));
    let r = Engine::new(bytes("AAAA"), alphabet.clone(), 5, 10, Metric::Hamming);
    assert!(matches!(r, Err(EngineError::OddPopulation)));
    let r = Engine::new(bytes("AAAA"), alphabet.clone(), 0, 10, Metric::Hamming);
    assert!(matches!(r, Err(EngineError::OddPopulation)));
    let r = Engine::new(bytes("AAAA"), alphabet, 4, 100, Metric::Hamming);
    assert!(matches!(r, Err(EngineError::InvalidSurvivalRate)));
}

#[test]
fn weights_reject_degenerate_distribution() {
    assert_eq!(reciprocal_weights(&Vec::new()), Err(EngineError::DegenerateWeights));
    assert_eq!(reciprocal_weights(&vec![u64::MAX]), Err(EngineError::DegenerateWeights));
    let w = reciprocal_weights(&vec![1u64, 2, 4]).unwrap();
    assert_eq!(w, vec![0x1_0000_0000u64, 0x8000_0000, 0x4000_0000]);
}

#[test]
fn search_recovers_small_target() {
    // Target "AAAA" over the alphabet {A, B}: the search space is tiny, so
    // the run reaches an exact match well within the generation budget.
    let goal = bytes("AAAA");
    let alphabet = vec![b'A', b'B'];
    let best = run(goal.clone(), alphabet, 64, 10, Metric::Hamming, 5000).unwrap();
    assert_eq!(best.cost, 0);
    assert_eq!(best.solution, goal);
}

#[test]
fn run_rejects_bad_configuration() {
    let alphabet = vec![b'A', b'B'];
    let r = run(Vec::new(), alphabet.clone(), 4, 10, Metric::Hamming, 10);
    assert_eq!(r.unwrap_err(), EngineError::EmptyTarget);
    let r = run(bytes("AAAA"), Vec::new(), 4, 10, Metric::Hamming, 10);
    assert_eq!(r.unwrap_err(), EngineError::EmptyAlphabet);
    let r = run(bytes("AAAA"), alphabet.clone(), 6, 99, Metric::Hamming, 10);
    assert!(r.is_ok());
    let r = run(bytes("AAAA"), alphabet, 6, 100, Metric::Hamming, 10);
    assert_eq!(r.unwrap_err(), EngineError::InvalidSurvivalRate);
}

#[test]
fn survivor_count_keeps_offspring_slots_even() {
    assert_eq!(survivor_count(64, 10), 6);
    assert_eq!(survivor_count(10, 25), 2);
    // 4 * 30 / 100 rounds to 1, leaving an odd remainder, so one extra
    // survivor is kept.
    assert_eq!(survivor_count(4, 30), 2);
    assert_eq!(survivor_count(8, 0), 0);
}

#[test]
fn search_converges_under_edit_distance() {
    let goal = bytes("ABBA");
    let alphabet = vec![b'A', b'B'];
    let best = run(goal.clone(), alphabet, 64, 10, Metric::Edit, 5000).unwrap();
    assert_eq!(best.cost, 0);
    assert_eq!(best.solution, goal);
}

#[test]
fn random_mutation_touches_at_most_three_positions() {
    let goal = bytes("ABCDEFGHIJ");
    let alphabet: Vec<u8> = (b'A'..=b'J').collect();
    for _ in 0..50 {
        let mut c = Chromosome::random(&goal, &alphabet, Metric::Hamming);
        let before = c.solution.clone();
        c.mutate(&goal, &alphabet, Metric::Hamming);
        let changed = before.iter().zip(c.solution.iter()).filter(|(a, b)| a != b).count();
        assert!(changed <= 3, "mutation changed {changed} positions");
        assert_eq!(c.solution.len(), before.len());
    }
}
