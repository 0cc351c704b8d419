//! The game engine: one pairing of two strategies, played for a fixed
//! number of rounds.
//!
//! Each round, both players decide from the same pre-round history
//! snapshot — neither sees the other's current move — then the fixed
//! payoff table scores the pair of moves, and the round is appended to
//! the history. A player's score is, at every point, the sum of its
//! payoffs over the recorded history.

use vstd::prelude::*;

use crate::strategies::{History, Move, Strategy, StrategyKind};

verus! {

/// One round's rewards: (player 0's, player 1's).
pub type Payoff = (i32, i32);

/// The fixed payoff table. Mutual cooperation pays (2, 2); mutual
/// defection pays (1, 1); a lone defector takes 3 and leaves the
/// cooperator 0.
pub open spec fn payoff_of(m1: Move, m2: Move) -> (int, int) {
    match (m1, m2) {
        (Move::Cooperate, Move::Cooperate) => (2int, 2int),
        (Move::Cooperate, Move::Defect) => (0int, 3int),
        (Move::Defect, Move::Cooperate) => (3int, 0int),
        (Move::Defect, Move::Defect) => (1int, 1int),
    }
}

/// The reward the given seat earns from one round.
pub open spec fn round_payoff(round: [Move; 2], player: int) -> int {
    if player == 0 {
        payoff_of(round[0], round[1]).0
    } else {
        payoff_of(round[0], round[1]).1
    }
}

/// The total reward the given seat earns over a history.
pub open spec fn score_of(hist: Seq<[Move; 2]>, player: int) -> int
    decreases hist.len(),
{
    if hist.len() == 0 {
        0
    } else {
        score_of(hist.drop_last(), player) + round_payoff(hist.last(), player)
    }
}

/// One round's reward lies between 0 and 3, whatever was played.
pub proof fn lemma_round_payoff_bounds(round: [Move; 2], player: int)
    ensures
        0 <= round_payoff(round, player) <= 3,
{
}

/// Every round pays between 0 and 3, so a score over a history is bounded
/// by three points per round.
pub proof fn lemma_score_bounds(hist: Seq<[Move; 2]>, player: int)
    ensures
        0 <= score_of(hist, player) <= 3 * hist.len(),
    decreases hist.len(),
{
    if hist.len() > 0 {
        lemma_score_bounds(hist.drop_last(), player);
    }
}

/// Law: the payoff table is symmetric. Swapping the two moves swaps the
/// two rewards, for every combination of moves.
pub proof fn lemma_payoff_symmetric(m1: Move, m2: Move)
    ensures
        payoff_of(m1, m2).0 == payoff_of(m2, m1).1,
        payoff_of(m1, m2).1 == payoff_of(m2, m1).0,
{
}

/// Law: the payoff table, written out for all four move combinations.
pub proof fn lemma_payoff_table()
    ensures
        payoff_of(Move::Cooperate, Move::Cooperate) == (2int, 2int),
        payoff_of(Move::Cooperate, Move::Defect) == (0int, 3int),
        payoff_of(Move::Defect, Move::Cooperate) == (3int, 0int),
        payoff_of(Move::Defect, Move::Defect) == (1int, 1int),
{
}

/// One player's side of a game: its strategy and its running score.
/// A player is owned by exactly one game and never shared.
pub struct Player<S: Strategy> {
    pub score: i32,
    pub strategy: S,
}

impl<S: Strategy> Player<S> {
    /// A fresh player with no points yet.
    pub fn new(strat: S) -> (p: Player<S>)
        ensures
            p.score == 0,
            p.strategy == strat,
    {
        Player { score: 0, strategy: strat }
    }

    /// Ask the player's strategy for its next move.
    pub fn play(&self, hist: &History, hist_inx: usize) -> (m: Move)
        requires
            hist_inx == 0 || hist_inx == 1,
        ensures
            self.strategy.allows(hist@, hist_inx as int, m),
    {
        self.strategy.play(hist, hist_inx)
    }

    /// Add one round's reward to the running score.
    pub fn pay(&mut self, p: i32)
        requires
            i32::MIN <= old(self).score + p <= i32::MAX,
        ensures
            final(self).score == old(self).score + p,
            final(self).strategy == old(self).strategy,
    {
        self.score += p;
    }
}

/// One pairing's game: two players, the shared history, and how many
/// rounds to play.
pub struct PrisonerDilemmaGame<S1: Strategy, S2: Strategy> {
    pub iterations: i32,
    pub history: History,
    pub p1: Player<S1>,
    pub p2: Player<S2>,
}

impl<S1: Strategy, S2: Strategy> PrisonerDilemmaGame<S1, S2> {
    /// Both players' scores agree with the recorded history. Holds from
    /// `new` on fresh players and is preserved by every round.
    pub open spec fn scores_consistent(self) -> bool {
        &&& self.p1.score == score_of(self.history@, 0)
        &&& self.p2.score == score_of(self.history@, 1)
    }

    /// A new game with an empty history.
    pub fn new(p1: Player<S1>, p2: Player<S2>, iterations: i32) -> (g: PrisonerDilemmaGame<
        S1,
        S2,
    >)
        ensures
            g.p1 == p1,
            g.p2 == p2,
            g.iterations == iterations,
            g.history@ =~= Seq::<[Move; 2]>::empty(),
    {
        PrisonerDilemmaGame { p1, p2, iterations, history: Vec::new() }
    }

    /// The payoff pair for one round, straight from the table.
    pub fn calculate_payoff(m1: &Move, m2: &Move) -> (r: Payoff)
        ensures
            r.0 == payoff_of(*m1, *m2).0,
            r.1 == payoff_of(*m1, *m2).1,
    {
        match (m1, m2) {
            (Move::Cooperate, Move::Cooperate) => (2, 2),
            (Move::Cooperate, Move::Defect) => (0, 3),
            (Move::Defect, Move::Cooperate) => (3, 0),
            (Move::Defect, Move::Defect) => (1, 1),
        }
    }

    /// Play one round: both strategies decide from the same pre-round
    /// history, the payoff table scores the moves, and the round is
    /// appended to the history.
    pub fn play_round(&mut self)
        requires
            old(self).p1.score + 3 <= i32::MAX,
            old(self).p2.score + 3 <= i32::MAX,
            old(self).history@.len() < usize::MAX,
        ensures
            final(self).iterations == old(self).iterations,
            final(self).p1.strategy == old(self).p1.strategy,
            final(self).p2.strategy == old(self).p2.strategy,
            final(self).history@.len() == old(self).history@.len() + 1,
            final(self).history@.drop_last() =~= old(self).history@,
            old(self).p1.strategy.allows(
                old(self).history@,
                0,
                final(self).history@.last()[0],
            ),
            old(self).p2.strategy.allows(
                old(self).history@,
                1,
                final(self).history@.last()[1],
            ),
            final(self).p1.score == old(self).p1.score + round_payoff(
                final(self).history@.last(),
                0,
            ),
            final(self).p2.score == old(self).p2.score + round_payoff(
                final(self).history@.last(),
                1,
            ),
            old(self).scores_consistent() ==> final(self).scores_consistent(),
    {
        let m1 = self.p1.play(&self.history, 0);
        let m2 = self.p2.play(&self.history, 1);

        let (p1_pay, p2_pay) = Self::calculate_payoff(&m1, &m2);

        self.p1.pay(p1_pay);
        self.p2.pay(p2_pay);

        self.history.push([m1, m2]);

        proof {
            assert(self.history@.drop_last() =~= old(self).history@);
        }
    }

    /// Play `iterations` rounds. The old history stays as a prefix, every
    /// new round is one the two strategies allow for the history before
    /// it, and each score grows by exactly the payoffs of the new rounds.
    pub fn play(&mut self)
        requires
            0 <= old(self).iterations,
            old(self).p1.score + 3 * old(self).iterations <= i32::MAX,
            old(self).p2.score + 3 * old(self).iterations <= i32::MAX,
            old(self).history@.len() + old(self).iterations <= usize::MAX,
        ensures
            final(self).iterations == old(self).iterations,
            final(self).p1.strategy == old(self).p1.strategy,
            final(self).p2.strategy == old(self).p2.strategy,
            final(self).history@.len() == old(self).history@.len() + old(self).iterations,
            final(self).history@.subrange(0, old(self).history@.len() as int) == old(
                self,
            ).history@,
            rounds_allowed(
                old(self).p1.strategy,
                old(self).p2.strategy,
                final(self).history@,
                old(self).history@.len() as int,
            ),
            final(self).p1.score == old(self).p1.score + score_of(final(self).history@, 0)
                - score_of(old(self).history@, 0),
            final(self).p2.score == old(self).p2.score + score_of(final(self).history@, 1)
                - score_of(old(self).history@, 1),
            old(self).scores_consistent() ==> final(self).scores_consistent(),
    {
        let ghost start = *old(self);
        let ghost start_len = old(self).history@.len() as int;
        proof {
            assert(start.history@.subrange(0, start_len) =~= start.history@);
        }
        let mut i: i32 = 0;
        while i < self.iterations
            invariant
                0 <= i <= self.iterations,
                start_len == start.history@.len(),
                self.iterations == start.iterations,
                self.p1.strategy == start.p1.strategy,
                self.p2.strategy == start.p2.strategy,
                self.history@.len() == start_len + i,
                self.history@.subrange(0, start_len) == start.history@,
                rounds_allowed(start.p1.strategy, start.p2.strategy, self.history@, start_len),
                self.p1.score == start.p1.score + score_of(self.history@, 0) - score_of(
                    start.history@,
                    0,
                ),
                self.p2.score == start.p2.score + score_of(self.history@, 1) - score_of(
                    start.history@,
                    1,
                ),
                start.p1.score <= self.p1.score <= start.p1.score + 3 * i,
                start.p2.score <= self.p2.score <= start.p2.score + 3 * i,
                start.p1.score + 3 * start.iterations <= i32::MAX,
                start.p2.score + 3 * start.iterations <= i32::MAX,
                start_len + start.iterations <= usize::MAX,
            decreases self.iterations - i,
        {
            let ghost before = self.history@;
            self.play_round();
            i = i + 1;
            proof {
                lemma_round_payoff_bounds(self.history@.last(), 0);
                lemma_round_payoff_bounds(self.history@.last(), 1);
                lemma_push_preserves_prefix(before, self.history@, start_len);
                assert forall|k: int|
                    start_len <= k < self.history@.len() implies #[trigger] round_allowed_at(
                    start.p1.strategy,
                    start.p2.strategy,
                    self.history@,
                    k,
                ) by {
                    if k < before.len() {
                        lemma_push_preserves_prefix(before, self.history@, k);
                        assert(round_allowed_at(start.p1.strategy, start.p2.strategy, before, k));
                        assert(self.history@[k] == before[k]);
                    } else {
                        assert(self.history@.subrange(0, k) == self.history@.drop_last());
                        assert(self.history@[k] == self.history@.last());
                    }
                }
            }
        }
    }
}

/// Appending one round leaves every prefix of the old history unchanged.
proof fn lemma_push_preserves_prefix(pre: Seq<[Move; 2]>, post: Seq<[Move; 2]>, k: int)
    requires
        post.len() == pre.len() + 1,
        post.drop_last() == pre,
        0 <= k <= pre.len(),
    ensures
        post.subrange(0, k) == pre.subrange(0, k),
{
    assert forall|j: int| 0 <= j < k implies post.subrange(0, k)[j] == pre.subrange(0, k)[j] by {
        assert(pre[j] == post.drop_last()[j]);
    }
    assert(post.subrange(0, k) =~= pre.subrange(0, k));
}

/// Round `k` of `hist` is one that the two strategies allow, each deciding
/// from the history strictly before round `k`.
pub open spec fn round_allowed_at<S1: Strategy, S2: Strategy>(
    s1: S1,
    s2: S2,
    hist: Seq<[Move; 2]>,
    k: int,
) -> bool {
    &&& s1.allows(hist.subrange(0, k), 0, hist[k][0])
    &&& s2.allows(hist.subrange(0, k), 1, hist[k][1])
}

/// Every round of `hist` from index `from` on is one the two strategies
/// allow for the history before it.
pub open spec fn rounds_allowed<S1: Strategy, S2: Strategy>(
    s1: S1,
    s2: S2,
    hist: Seq<[Move; 2]>,
    from: int,
) -> bool {
    forall|k: int| from <= k < hist.len() ==> #[trigger] round_allowed_at(s1, s2, hist, k)
}

/// `hist` is a complete record of an `n`-round game between the two
/// strategies: it has exactly `n` rounds and every one of them was chosen
/// by the strategies from the rounds before it.
pub open spec fn valid_history<S1: Strategy, S2: Strategy>(
    s1: S1,
    s2: S2,
    hist: Seq<[Move; 2]>,
    n: int,
) -> bool {
    &&& hist.len() == n
    &&& rounds_allowed(s1, s2, hist, 0)
}

/// `s` admits at most one move per history at seat `inx`.
pub open spec fn deterministic_at<S: Strategy>(s: S, inx: int) -> bool {
    forall|hist: Seq<[Move; 2]>, m1: Move, m2: Move|
        #![trigger s.allows(hist, inx, m1), s.allows(hist, inx, m2)]
        s.allows(hist, inx, m1) && s.allows(hist, inx, m2) ==> m1 == m2
}

/// Law: the engine is deterministic for deterministic strategies. Any two
/// complete `n`-round histories that a deterministic pairing allows are
/// the same history, so the final scores are pinned as well.
pub proof fn lemma_deterministic_game_unique<S1: Strategy, S2: Strategy>(
    s1: S1,
    s2: S2,
    h1: Seq<[Move; 2]>,
    h2: Seq<[Move; 2]>,
    n: int,
)
    requires
        deterministic_at(s1, 0),
        deterministic_at(s2, 1),
        valid_history(s1, s2, h1, n),
        valid_history(s1, s2, h2, n),
    ensures
        h1 == h2,
    decreases n,
{
    if n == 0 {
        assert(h1 =~= h2);
    } else {
        let p1 = h1.drop_last();
        let p2 = h2.drop_last();
        assert forall|k: int| 0 <= k < n - 1 implies #[trigger] round_allowed_at(
            s1,
            s2,
            p1,
            k,
        ) by {
            assert(round_allowed_at(s1, s2, h1, k));
            assert(p1.subrange(0, k) =~= h1.subrange(0, k));
            assert(p1[k] == h1[k]);
        }
        assert forall|k: int| 0 <= k < n - 1 implies #[trigger] round_allowed_at(
            s1,
            s2,
            p2,
            k,
        ) by {
            assert(round_allowed_at(s1, s2, h2, k));
            assert(p2.subrange(0, k) =~= h2.subrange(0, k));
            assert(p2[k] == h2[k]);
        }
        lemma_deterministic_game_unique(s1, s2, p1, p2, n - 1);
        assert(round_allowed_at(s1, s2, h1, n - 1));
        assert(round_allowed_at(s1, s2, h2, n - 1));
        assert(h1.subrange(0, n - 1) == p1);
        assert(h2.subrange(0, n - 1) == p2);
        assert(h1[n - 1][0] == h2[n - 1][0]);
        assert(h1[n - 1][1] == h2[n - 1][1]);
        assert(h1[n - 1] =~= h2[n - 1]) by {
            broadcast use vstd::array::axiom_array_ext_equal;

        }
        assert forall|k: int| 0 <= k < n implies h1[k] == h2[k] by {
            if k < n - 1 {
                assert(h1[k] == p1[k]);
                assert(h2[k] == p2[k]);
            }
        }
        assert(h1 =~= h2);
    }
}

/// Every built-in strategy but Random admits exactly one move per
/// history, at either seat.
pub proof fn lemma_builtin_deterministic(k: StrategyKind, inx: int)
    requires
        k != StrategyKind::Random,
    ensures
        deterministic_at(k, inx),
{
}

/// Run one pairing to completion: fresh players, an empty history,
/// `iterations` rounds, and the final score pair out. The scores are the
/// payoff sums of one complete game history that the two strategies allow.
pub fn run_game<S1: Strategy, S2: Strategy>(strategy_a: S1, strategy_b: S2, iterations: i32) -> (r:
    (i32, i32))
    requires
        0 <= iterations,
        3 * iterations <= i32::MAX,
    ensures
        exists|hist: Seq<[Move; 2]>|
            #[trigger] valid_history(strategy_a, strategy_b, hist, iterations as int) && r.0
                == score_of(hist, 0) && r.1 == score_of(hist, 1),
{
    let p1 = Player::new(strategy_a);
    let p2 = Player::new(strategy_b);
    let mut game = PrisonerDilemmaGame::new(p1, p2, iterations);
    game.play();
    proof {
        assert(valid_history(strategy_a, strategy_b, game.history@, iterations as int));
    }
    (game.p1.score, game.p2.score)
}

} // verus!
