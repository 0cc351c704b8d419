use std::sync::mpsc::channel;

use threadpool::ThreadPool;

use prisoners_dilemma::game::run_game;
use prisoners_dilemma::tournament::{
    build_pairings, run_tournament, PairingResult, TournamentCollector,
};
use prisoners_dilemma::StrategyKind;

fn deterministic_set() -> Vec<StrategyKind> {
    vec![
        StrategyKind::AlwaysCooperate,
        StrategyKind::AlwaysDefect,
        StrategyKind::TitForTat,
        StrategyKind::TwoTitsForTat,
    ]
}

#[test]
fn test_build_pairings_order() {
    let pairings = build_pairings(3);
    assert_eq!(pairings.len(), 9);
    for i in 0..3 {
        for j in 0..3 {
            assert_eq!(pairings[i * 3 + j], (i, j));
        }
    }
}

#[test]
fn test_tournament_completeness() {
    // One result per ordered pairing, attributed in pairing order.
    let strategies = deterministic_set();
    let n = strategies.len();
    let results = run_tournament(&strategies, 4, 1);
    assert_eq!(results.len(), n * n);
    for (k, res) in results.iter().enumerate() {
        assert_eq!(res.first, k / n);
        assert_eq!(res.second, k % n);
    }
}

#[test]
fn test_tournament_exact_scores() {
    let strategies = vec![StrategyKind::AlwaysCooperate, StrategyKind::AlwaysDefect];
    let results = run_tournament(&strategies, 1, 2);
    let scores: Vec<(usize, usize, i32, i32)> = results
        .iter()
        .map(|r| (r.first, r.second, r.score1, r.score2))
        .collect();
    assert_eq!(
        scores,
        vec![(0, 0, 2, 2), (0, 1, 0, 3), (1, 0, 3, 0), (1, 1, 1, 1)]
    );
}

#[test]
fn test_tournament_worker_count_irrelevant() {
    // For deterministic strategies the result set does not depend on the
    // worker bound.
    let strategies = deterministic_set();
    let n = strategies.len();
    let serial = run_tournament(&strategies, 10, 1);
    let wide = run_tournament(&strategies, 10, n * n);
    assert_eq!(serial, wide);
}

fn run_concurrently(
    strategies: &[StrategyKind],
    iterations: i32,
    workers: usize,
) -> Vec<PairingResult> {
    // The concurrent fan-out/fan-in path: a bounded pool plays the
    // pairings in whatever order it likes, results come back over a
    // channel, and the collector attributes each to its pairing.
    let n = strategies.len();
    let pool = ThreadPool::new(workers);
    let (tx, rx) = channel::<(usize, usize, i32, i32)>();
    for i in 0..n {
        for j in 0..n {
            let tx = tx.clone();
            let s1 = strategies[i];
            let s2 = strategies[j];
            pool.execute(move || {
                let (score1, score2) = run_game(s1, s2, iterations);
                tx.send((i, j, score1, score2)).unwrap();
            });
        }
    }
    let mut collector = TournamentCollector::new(n);
    for _ in 0..n * n {
        let (i, j, score1, score2) = rx.recv().unwrap();
        let fresh = collector.record(i, j, score1, score2);
        assert!(fresh, "pairing ({i}, {j}) reported twice");
    }
    assert!(collector.is_complete());
    let mut results = Vec::new();
    for i in 0..n {
        for j in 0..n {
            let (score1, score2) = collector.result(i, j).expect("pairing missing");
            results.push(PairingResult {
                first: i,
                second: j,
                score1,
                score2,
            });
        }
    }
    results
}

#[test]
fn test_concurrent_matches_serial() {
    // Completion order under a concurrent pool is arbitrary; the
    // collected result set must still be the serial one, whether one
    // worker runs or one per pairing.
    let strategies = deterministic_set();
    let n = strategies.len();
    let serial = run_tournament(&strategies, 10, 1);
    let narrow = run_concurrently(&strategies, 10, 1);
    let wide = run_concurrently(&strategies, 10, n * n);
    assert_eq!(serial, narrow);
    assert_eq!(serial, wide);
}

#[test]
fn test_collector_rejects_duplicates() {
    let mut collector = TournamentCollector::new(2);
    assert!(collector.record(0, 1, 5, 7));
    assert!(!collector.record(0, 1, 99, 99));
    // The first report stands.
    assert_eq!(collector.result(0, 1), Some((5, 7)));
    assert_eq!(collector.recorded(), 1);
}

#[test]
fn test_collector_isolates_missing_pairing() {
    // One pairing never reports (a failed simulation); every other
    // result is still collected and attributed.
    let n = 3;
    let mut collector = TournamentCollector::new(n);
    for i in 0..n {
        for j in 0..n {
            if (i, j) != (1, 2) {
                assert!(collector.record(i, j, (i * n + j) as i32, 0));
            }
        }
    }
    assert!(!collector.is_complete());
    assert_eq!(collector.recorded(), n * n - 1);
    assert_eq!(collector.result(1, 2), None);
    for i in 0..n {
        for j in 0..n {
            if (i, j) != (1, 2) {
                assert_eq!(collector.result(i, j), Some(((i * n + j) as i32, 0)));
            }
        }
    }
    // The missing pairing can still arrive late and complete the set.
    assert!(collector.record(1, 2, 42, 24));
    assert!(collector.is_complete());
}

#[test]
fn test_concurrent_failure_isolation() {
    // A worker that dies before reporting must not poison the others:
    // the collector ends up incomplete, with exactly that slot empty.
    let strategies = deterministic_set();
    let n = strategies.len();
    let pool = ThreadPool::new(2);
    let (tx, rx) = channel::<(usize, usize, i32, i32)>();
    for i in 0..n {
        for j in 0..n {
            let tx = tx.clone();
            let s1 = strategies[i];
            let s2 = strategies[j];
            pool.execute(move || {
                if (i, j) == (2, 1) {
                    // Simulates a pairing whose simulation fails: it
                    // never sends a result.
                    return;
                }
                let (score1, score2) = run_game(s1, s2, 5);
                tx.send((i, j, score1, score2)).unwrap();
            });
        }
    }
    drop(tx);
    let mut collector = TournamentCollector::new(n);
    while let Ok((i, j, score1, score2)) = rx.recv() {
        assert!(collector.record(i, j, score1, score2));
    }
    assert!(!collector.is_complete());
    assert_eq!(collector.recorded(), n * n - 1);
    assert_eq!(collector.result(2, 1), None);
    for i in 0..n {
        for j in 0..n {
            if (i, j) != (2, 1) {
                assert!(collector.result(i, j).is_some());
            }
        }
    }
}

#[test]
fn test_tournament_with_random_strategy_completes() {
    let strategies = vec![
        StrategyKind::AlwaysCooperate,
        StrategyKind::Random,
        StrategyKind::TitForTat,
    ];
    let results = run_tournament(&strategies, 100, 1);
    assert_eq!(results.len(), 9);
    for res in &results {
        // 100 rounds at 0..=3 points each bound both scores.
        assert!(res.score1 >= 0 && res.score1 <= 300);
        assert!(res.score2 >= 0 && res.score2 <= 300);
    }
}
