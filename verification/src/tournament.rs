//! The tournament scheduler: every strategy against every strategy.
//!
//! With `n` strategies there are exactly `n * n` ordered pairings, and
//! pairing index `k` plays strategy `k / n` in seat 0 against strategy
//! `k % n` in seat 1. `run_tournament` runs them all and returns one
//! result per pairing, in pairing order. `TournamentCollector` is the
//! fan-in point for a driver that runs pairings concurrently and sees
//! results arrive in any order: it attributes each score pair to its
//! pairing, accepts it exactly once, and knows when every pairing has
//! reported.

use vstd::prelude::*;

use vstd::arithmetic::div_mod::{lemma_fundamental_div_mod, lemma_fundamental_div_mod_converse};

use crate::game::{run_game, score_of, valid_history};
use crate::strategies::{Move, Strategy, StrategyKind};

verus! {

/// The outcome of one pairing: which strategies sat in seats 0 and 1
/// (as indices into the tournament's strategy list) and their final
/// scores.
#[derive(Clone, Copy, Debug, PartialEq, Eq, Structural)]
pub struct PairingResult {
    /// Index of the strategy in seat 0.
    pub first: usize,
    /// Index of the strategy in seat 1.
    pub second: usize,
    /// Final score of seat 0.
    pub score1: i32,
    /// Final score of seat 1.
    pub score2: i32,
}

/// The two scores are the payoff sums of one complete `iterations`-round
/// game that the two strategies allow.
pub open spec fn game_scores_valid<S1: Strategy, S2: Strategy>(
    s1: S1,
    s2: S2,
    score1: i32,
    score2: i32,
    iterations: int,
) -> bool {
    exists|hist: Seq<[Move; 2]>|
        #[trigger] valid_history(s1, s2, hist, iterations) && score1 == score_of(hist, 0) && score2
            == score_of(hist, 1)
}

/// `res` correctly reports pairing `k` of the tournament: it names the
/// pairing's two strategy indices and carries scores from one complete
/// game between them.
pub open spec fn pairing_result_valid(
    strategies: Seq<StrategyKind>,
    res: PairingResult,
    k: int,
    iterations: int,
) -> bool {
    let n = strategies.len() as int;
    &&& res.first == k / n
    &&& res.second == k % n
    &&& game_scores_valid(
        strategies[res.first as int],
        strategies[res.second as int],
        res.score1,
        res.score2,
        iterations,
    )
}

/// Build the full ordered pairing list: `n * n` entries, where entry
/// `k` is the index pair `(k / n, k % n)`. Entry `i * n + j` is thus
/// `(i, j)`, for every `i` and `j` below `n`.
pub fn build_pairings(n: usize) -> (r: Vec<(usize, usize)>)
    requires
        n * n <= usize::MAX,
    ensures
        r@.len() == n * n,
        forall|k: int|
            0 <= k < n * n ==> #[trigger] r@[k] == (
                ((k / (n as int)) as usize),
                ((k % (n as int)) as usize),
            ),
{
    let mut r: Vec<(usize, usize)> = Vec::new();
    let mut i: usize = 0;
    while i < n
        invariant
            i <= n,
            n * n <= usize::MAX,
            r@.len() == i * n,
            forall|k: int|
                0 <= k < i * n ==> #[trigger] r@[k] == (
                    ((k / (n as int)) as usize),
                    ((k % (n as int)) as usize),
                ),
        decreases n - i,
    {
        let mut j: usize = 0;
        proof {
            assert(i * n + n <= n * n) by (nonlinear_arith)
                requires
                    0 <= i < n,
            ;
        }
        while j < n
            invariant
                i < n,
                j <= n,
                n * n <= usize::MAX,
                i * n + n <= n * n,
                r@.len() == i * n + j,
                forall|k: int|
                    0 <= k < i * n + j ==> #[trigger] r@[k] == (
                        ((k / (n as int)) as usize),
                        ((k % (n as int)) as usize),
                    ),
            decreases n - j,
        {
            r.push((i, j));
            proof {
                lemma_fundamental_div_mod_converse(
                    i * n + j,
                    n as int,
                    i as int,
                    j as int,
                );
            }
            j += 1;
        }
        proof {
            assert((i + 1) * n == i * n + n) by (nonlinear_arith);
        }
        i += 1;
    }
    r
}

/// Law: each ordered pair `(i, j)` of strategy indices below `n` is the
/// pairing at exactly one index of the pairing list, namely `i * n + j`.
pub proof fn lemma_each_pairing_exactly_once(n: int, i: int, j: int)
    requires
        0 <= i < n,
        0 <= j < n,
    ensures
        0 <= i * n + j < n * n,
        (i * n + j) / n == i,
        (i * n + j) % n == j,
{
    assert(0 <= i * n + j < n * n) by (nonlinear_arith)
        requires
            0 <= i < n,
            0 <= j < n,
    ;
    lemma_fundamental_div_mod_converse(i * n + j, n, i, j);
}

/// Law: no two pairing indices name the same ordered pair. An index that
/// reports the strategies `(i, j)` can only be `i * n + j`.
pub proof fn lemma_pairing_index_unique(n: int, i: int, j: int, k: int)
    requires
        0 <= i < n,
        0 <= j < n,
        0 <= k < n * n,
        k / n == i,
        k % n == j,
    ensures
        k == i * n + j,
{
    lemma_fundamental_div_mod(k, n);
    assert(k == n * i + j);
    assert(n * i == i * n) by (nonlinear_arith);
}

/// Run the whole tournament: one game per ordered pairing, every result
/// attributed to its pairing, none lost, none duplicated. The worker
/// count bounds a driver's concurrency and never changes what is
/// returned; this reference scheduler runs the pairings in order.
pub fn run_tournament(strategies: &Vec<StrategyKind>, iterations: i32, worker_count: usize) -> (r:
    Vec<PairingResult>)
    requires
        strategies@.len() >= 1,
        worker_count >= 1,
        0 <= iterations,
        3 * iterations <= i32::MAX,
        strategies@.len() * strategies@.len() <= usize::MAX,
    ensures
        r@.len() == strategies@.len() * strategies@.len(),
        forall|k: int|
            0 <= k < r@.len() ==> pairing_result_valid(
                strategies@,
                #[trigger] r@[k],
                k,
                iterations as int,
            ),
{
    let n = strategies.len();
    let pairings = build_pairings(n);
    let mut results: Vec<PairingResult> = Vec::new();
    let mut k: usize = 0;
    while k < pairings.len()
        invariant
            n == strategies@.len(),
            n >= 1,
            0 <= iterations,
            3 * iterations <= i32::MAX,
            n * n <= usize::MAX,
            pairings@.len() == n * n,
            forall|t: int|
                0 <= t < n * n ==> #[trigger] pairings@[t] == (
                    ((t / (n as int)) as usize),
                    ((t % (n as int)) as usize),
                ),
            k <= pairings@.len(),
            results@.len() == k,
            forall|t: int|
                0 <= t < k ==> pairing_result_valid(
                    strategies@,
                    #[trigger] results@[t],
                    t,
                    iterations as int,
                ),
        decreases pairings@.len() - k,
    {
        proof {
            lemma_fundamental_div_mod(k as int, n as int);
            assert((k as int) / (n as int) < n) by (nonlinear_arith)
                requires
                    n >= 1,
                    (k as int) < n * n,
                    k as int == (n as int) * ((k as int) / (n as int)) + (k as int) % (n as int),
                    0 <= (k as int) % (n as int) < n,
            ;
        }
        let pair = pairings[k];
        let i = pair.0;
        let j = pair.1;
        let strat_i = strategies[i];
        let strat_j = strategies[j];
        let scores = run_game(strat_i, strat_j, iterations);
        results.push(PairingResult { first: i, second: j, score1: scores.0, score2: scores.1 });
        k += 1;
    }
    results
}

/// Law: a tournament result set is complete and duplicate-free. For every
/// ordered pair of strategy indices `(i, j)` there is an entry reporting
/// it — the one at index `i * n + j` — and no entry anywhere else reports
/// the same pair.
pub proof fn lemma_tournament_exactly_once(
    strategies: Seq<StrategyKind>,
    r: Seq<PairingResult>,
    iterations: int,
    i: int,
    j: int,
)
    requires
        strategies.len() >= 1,
        r.len() == strategies.len() * strategies.len(),
        forall|k: int|
            0 <= k < r.len() ==> pairing_result_valid(strategies, #[trigger] r[k], k, iterations),
        0 <= i < strategies.len(),
        0 <= j < strategies.len(),
    ensures
        0 <= i * strategies.len() + j < r.len(),
        r[i * strategies.len() + j].first == i,
        r[i * strategies.len() + j].second == j,
        forall|k: int|
            0 <= k < r.len() && (#[trigger] r[k]).first == i && r[k].second == j ==> k == i
                * strategies.len() + j,
{
    let n = strategies.len() as int;
    lemma_each_pairing_exactly_once(n, i, j);
    assert(pairing_result_valid(strategies, r[i * n + j], i * n + j, iterations));
    assert forall|k: int|
        0 <= k < r.len() && (#[trigger] r[k]).first == i && r[k].second == j implies k == i * n
        + j by {
        assert(pairing_result_valid(strategies, r[k], k, iterations));
        lemma_pairing_index_unique(n, i, j, k);
    }
}

/// How many slots hold a recorded score pair.
spec fn count_some(s: Seq<Option<(i32, i32)>>) -> int
    decreases s.len(),
{
    if s.len() == 0 {
        0
    } else {
        count_some(s.drop_last()) + if s.last() is Some {
            1int
        } else {
            0int
        }
    }
}

proof fn lemma_count_some_le_len(s: Seq<Option<(i32, i32)>>)
    ensures
        0 <= count_some(s) <= s.len(),
    decreases s.len(),
{
    if s.len() > 0 {
        lemma_count_some_le_len(s.drop_last());
    }
}

proof fn lemma_count_some_update(s: Seq<Option<(i32, i32)>>, i: int, v: Option<(i32, i32)>)
    requires
        0 <= i < s.len(),
    ensures
        count_some(s.update(i, v)) == count_some(s) - (
        if s[i] is Some {
            1int
        } else {
            0int
        }) + (
        if v is Some {
            1int
        } else {
            0int
        }),
    decreases s.len(),
{
    let su = s.update(i, v);
    if i == s.len() - 1 {
        assert(su.drop_last() =~= s.drop_last());
    } else {
        assert(su.drop_last() =~= s.drop_last().update(i, v));
        lemma_count_some_update(s.drop_last(), i, v);
    }
}

proof fn lemma_count_some_full(s: Seq<Option<(i32, i32)>>)
    requires
        count_some(s) == s.len(),
    ensures
        forall|t: int| 0 <= t < s.len() ==> (#[trigger] s[t]) is Some,
    decreases s.len(),
{
    if s.len() > 0 {
        lemma_count_some_le_len(s.drop_last());
        lemma_count_some_full(s.drop_last());
        assert forall|t: int| 0 <= t < s.len() implies (#[trigger] s[t]) is Some by {
            if t < s.len() - 1 {
                assert(s.drop_last()[t] is Some);
            }
        }
    }
}

proof fn lemma_count_some_missing(s: Seq<Option<(i32, i32)>>)
    requires
        count_some(s) < s.len(),
    ensures
        exists|t: int| 0 <= t < s.len() && (#[trigger] s[t]) is None,
    decreases s.len(),
{
    lemma_count_some_le_len(s.drop_last());
    if s.last() is None {
        assert(s[s.len() - 1] is None);
    } else {
        lemma_count_some_missing(s.drop_last());
        let t = choose|t: int| 0 <= t < s.len() - 1 && (#[trigger] s.drop_last()[t]) is None;
        assert(s[t] is None);
    }
}

/// The fan-in point of a concurrent tournament run. Workers complete
/// pairings in any order; each reported score pair is attributed to the
/// slot of its originating pairing and accepted exactly once. The
/// collector is complete only when every one of the `n * n` pairings has
/// reported, so a driver that drains it cannot return a partial result
/// set unnoticed, and a pairing that never reports (a failed simulation)
/// leaves exactly its own slot empty.
pub struct TournamentCollector {
    n: usize,
    slots: Vec<Option<(i32, i32)>>,
    filled: usize,
}

impl TournamentCollector {
    /// How many strategies the tournament has; pairing indices run below
    /// this count on both sides.
    pub closed spec fn strategy_count(self) -> int {
        self.n as int
    }

    /// The score pair recorded so far for the pairing of strategies
    /// `(i, j)`, if any.
    pub closed spec fn slot(self, i: int, j: int) -> Option<(i32, i32)> {
        self.slots@[i * self.strategy_count() + j]
    }

    /// How many pairings have reported so far.
    pub closed spec fn recorded_count(self) -> int {
        self.filled as int
    }

    /// The collector's internal bookkeeping agrees with its slots.
    pub closed spec fn wf(self) -> bool {
        &&& self.slots@.len() == self.n * self.n
        &&& self.filled == count_some(self.slots@)
    }

    /// A collector for a tournament of `n` strategies, with every
    /// pairing's slot still empty.
    pub fn new(n: usize) -> (c: TournamentCollector)
        requires
            1 <= n,
            n * n <= usize::MAX,
        ensures
            c.wf(),
            c.strategy_count() == n,
            c.recorded_count() == 0,
            forall|i: int, j: int| 0 <= i < n && 0 <= j < n ==> #[trigger] c.slot(i, j) is None,
    {
        let total = n * n;
        let mut slots: Vec<Option<(i32, i32)>> = Vec::new();
        let mut t: usize = 0;
        while t < total
            invariant
                t <= total,
                slots@.len() == t,
                count_some(slots@) == 0,
                forall|u: int| 0 <= u < t ==> (#[trigger] slots@[u]) is None,
            decreases total - t,
        {
            let ghost before = slots@;
            slots.push(None);
            proof {
                assert(slots@.drop_last() =~= before);
            }
            t += 1;
        }
        let c = TournamentCollector { n, slots, filled: 0 };
        proof {
            assert forall|i: int, j: int|
                0 <= i < n && 0 <= j < n implies #[trigger] c.slot(i, j) is None by {
                lemma_each_pairing_exactly_once(n as int, i, j);
            }
        }
        c
    }

    /// Record the outcome of the pairing `(first, second)`. Returns true
    /// and fills exactly that pairing's slot if it was empty; a duplicate
    /// report is refused and changes nothing. No other slot is touched
    /// either way.
    pub fn record(&mut self, first: usize, second: usize, score1: i32, score2: i32) -> (fresh:
        bool)
        requires
            old(self).wf(),
            first < old(self).strategy_count(),
            second < old(self).strategy_count(),
        ensures
            final(self).wf(),
            final(self).strategy_count() == old(self).strategy_count(),
            fresh <==> old(self).slot(first as int, second as int) is None,
            fresh ==> final(self).slot(first as int, second as int) == Some((score1, score2)),
            fresh ==> final(self).recorded_count() == old(self).recorded_count() + 1,
            !fresh ==> *final(self) == *old(self),
            forall|i: int, j: int|
                0 <= i < old(self).strategy_count() && 0 <= j < old(self).strategy_count() && !(i
                    == first && j == second) ==> #[trigger] final(self).slot(i, j) == old(
                    self,
                ).slot(i, j),
    {
        let total = self.slots.len();
        proof {
            lemma_each_pairing_exactly_once(self.n as int, first as int, second as int);
            assert(first * self.n + second < total);
        }
        let idx = first * self.n + second;
        if self.slots[idx].is_none() {
            proof {
                lemma_count_some_le_len(self.slots@);
                lemma_count_some_update(self.slots@, idx as int, Some((score1, score2)));
            }
            self.slots.set(idx, Some((score1, score2)));
            proof {
                lemma_count_some_le_len(self.slots@);
            }
            self.filled += 1;
            proof {
                assert forall|i: int, j: int|
                    0 <= i < self.n && 0 <= j < self.n && !(i == first && j == second) implies #[trigger] self
                    .slot(i, j) == old(self).slot(i, j) by {
                    lemma_each_pairing_exactly_once(self.n as int, i, j);
                    let a = i * (self.n as int) + j;
                    let b = (first as int) * (self.n as int) + (second as int);
                    assert(a != b) by {
                        if a == b {
                            assert(a / (self.n as int) == i && a % (self.n as int) == j);
                            assert(b / (self.n as int) == first && b % (self.n as int) == second);
                        }
                    }
                }
            }
            true
        } else {
            false
        }
    }

    /// The recorded score pair for the pairing `(first, second)`, if it
    /// has reported yet.
    pub fn result(&self, first: usize, second: usize) -> (r: Option<(i32, i32)>)
        requires
            self.wf(),
            first < self.strategy_count(),
            second < self.strategy_count(),
        ensures
            r == self.slot(first as int, second as int),
    {
        let total = self.slots.len();
        proof {
            lemma_each_pairing_exactly_once(self.n as int, first as int, second as int);
            assert(first * self.n + second < total);
        }
        let idx = first * self.n + second;
        self.slots[idx]
    }

    /// Whether every pairing has reported: true exactly when no slot is
    /// still empty.
    pub fn is_complete(&self) -> (r: bool)
        requires
            self.wf(),
        ensures
            r <==> (forall|i: int, j: int|
                0 <= i < self.strategy_count() && 0 <= j < self.strategy_count()
                    ==> (#[trigger] self.slot(i, j)) is Some),
    {
        let r = self.filled == self.slots.len();
        proof {
            if r {
                lemma_count_some_full(self.slots@);
                assert forall|i: int, j: int|
                    0 <= i < self.strategy_count() && 0 <= j
                        < self.strategy_count() implies (#[trigger] self.slot(i, j)) is Some by {
                    lemma_each_pairing_exactly_once(self.n as int, i, j);
                }
            } else {
                lemma_count_some_le_len(self.slots@);
                lemma_count_some_missing(self.slots@);
                assert(self.n >= 1) by (nonlinear_arith)
                    requires
                        self.n * self.n >= 1,
                ;
                let t = choose|t: int|
                    0 <= t < self.slots@.len() && (#[trigger] self.slots@[t]) is None;
                lemma_fundamental_div_mod(t, self.n as int);
                let i = t / (self.n as int);
                let j = t % (self.n as int);
                assert(0 <= i < self.n) by (nonlinear_arith)
                    requires
                        self.n as int >= 1,
                        0 <= t < self.n * self.n,
                        t == (self.n as int) * (t / (self.n as int)) + t % (self.n as int),
                        0 <= t % (self.n as int) < self.n,
                        i == t / (self.n as int),
                ;
                lemma_pairing_index_unique(self.n as int, i, j, t);
                assert(self.slot(i, j) is None);
            }
        }
        r
    }

    /// How many pairings have reported so far.
    pub fn recorded(&self) -> (r: usize)
        ensures
            r == self.recorded_count(),
    {
        self.filled
    }
}

} // verus!
