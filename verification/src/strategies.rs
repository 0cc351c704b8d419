//! Moves and the strategies that choose them.
//!
//! A strategy looks at the history of rounds played so far, and at which
//! seat it occupies (player 0 or player 1), and picks its next move. The
//! `Strategy` trait pins each implementation down with a spec-level
//! predicate `allows`: deterministic strategies admit exactly one move per
//! history, while `Random` admits either.

use vstd::prelude::*;

verus! {

/// One move in the prisoner's dilemma.
#[derive(Clone, Copy, Debug, PartialEq, Eq, Structural)]
pub enum Move {
    Cooperate,
    Defect,
}

/// The rounds played so far in one game, oldest first. Each round holds
/// the two moves, indexed by player seat (0 or 1).
pub type History = Vec<[Move; 2]>;

/// The seat index of the other player.
pub open spec fn opponent_of(inx: int) -> int {
    if inx == 1 {
        0
    } else {
        1
    }
}

/// The move TitForTat makes: cooperate on an empty history, otherwise
/// repeat the opponent's move from the most recent round.
pub open spec fn tit_for_tat_move(hist: Seq<[Move; 2]>, inx: int) -> Move {
    if hist.len() == 0 {
        Move::Cooperate
    } else {
        hist.last()[opponent_of(inx)]
    }
}

/// The move TwoTitsForTat makes: defect only when the opponent defected
/// in both of the two most recent rounds; with fewer than two rounds of
/// history, always cooperate.
pub open spec fn two_tits_for_tat_move(hist: Seq<[Move; 2]>, inx: int) -> Move {
    if hist.len() < 2 {
        Move::Cooperate
    } else if hist[hist.len() - 1][opponent_of(inx)] == Move::Defect && hist[hist.len()
        - 2][opponent_of(inx)] == Move::Defect {
        Move::Defect
    } else {
        Move::Cooperate
    }
}

/// A decision capability: pure, stateless, safe to consult from many
/// concurrent games. `allows` is the spec-level account of `play`: every
/// move `play` returns is one that `allows` admits for that history and
/// seat.
pub trait Strategy: Sized + Send + Sync {
    /// Which moves this strategy may produce for the given history and seat.
    spec fn allows(&self, hist: Seq<[Move; 2]>, inx: int, m: Move) -> bool;

    /// The strategy's display name, as a sequence of characters.
    spec fn spec_name(&self) -> Seq<char>;

    fn play(&self, hist: &History, hist_inx: usize) -> (m: Move)
        requires
            hist_inx == 0 || hist_inx == 1,
        ensures
            self.allows(hist@, hist_inx as int, m),
    ;

    fn name(&self) -> (s: String)
        ensures
            s@ == self.spec_name(),
    ;
}

/// Cooperates unconditionally.
pub struct AlwaysCooperate;

impl Strategy for AlwaysCooperate {
    open spec fn allows(&self, hist: Seq<[Move; 2]>, inx: int, m: Move) -> bool {
        m == Move::Cooperate
    }

    open spec fn spec_name(&self) -> Seq<char> {
        "Always Cooperate"@
    }

    fn play(&self, _hist: &History, _hist_inx: usize) -> (m: Move) {
        Move::Cooperate
    }

    fn name(&self) -> (s: String) {
        "Always Cooperate".to_owned()
    }
}

/// Defects unconditionally.
pub struct AlwaysDefect;

impl Strategy for AlwaysDefect {
    open spec fn allows(&self, hist: Seq<[Move; 2]>, inx: int, m: Move) -> bool {
        m == Move::Defect
    }

    open spec fn spec_name(&self) -> Seq<char> {
        "Always Defect"@
    }

    fn play(&self, _hist: &History, _hist_inx: usize) -> (m: Move) {
        Move::Defect
    }

    fn name(&self) -> (s: String) {
        "Always Defect".to_owned()
    }
}

/// Cooperates first, then mirrors the opponent's previous move.
pub struct TitForTat;

impl Strategy for TitForTat {
    open spec fn allows(&self, hist: Seq<[Move; 2]>, inx: int, m: Move) -> bool {
        m == tit_for_tat_move(hist, inx)
    }

    open spec fn spec_name(&self) -> Seq<char> {
        "TitForTat"@
    }

    fn play(&self, hist: &History, hist_inx: usize) -> (m: Move) {
        let opponent_inx: usize = if hist_inx == 1 {
            0
        } else {
            1
        };
        let n: usize = hist.len();
        if n == 0 {
            Move::Cooperate
        } else {
            hist[n - 1][opponent_inx]
        }
    }

    fn name(&self) -> (s: String) {
        "TitForTat".to_owned()
    }
}

/// Relies on `rand::random::<bool>()`: one fresh draw from the calling
/// thread's generator, never shared across threads. Either value may come
/// back, so nothing is promised of the result.
#[verifier::external_body]
fn coin_flip() -> bool {
    rand::random::<bool>()
}

/// Cooperates or defects with equal probability, from a per-thread
/// random source.
pub struct Random;

impl Strategy for Random {
    open spec fn allows(&self, hist: Seq<[Move; 2]>, inx: int, m: Move) -> bool {
        true
    }

    open spec fn spec_name(&self) -> Seq<char> {
        "Random"@
    }

    fn play(&self, _hist: &History, _hist_inx: usize) -> (m: Move) {
        if coin_flip() {
            Move::Cooperate
        } else {
            Move::Defect
        }
    }

    fn name(&self) -> (s: String) {
        "Random".to_owned()
    }
}

/// Defects only after two consecutive defections by the opponent.
pub struct TwoTitsForTat;

impl Strategy for TwoTitsForTat {
    open spec fn allows(&self, hist: Seq<[Move; 2]>, inx: int, m: Move) -> bool {
        m == two_tits_for_tat_move(hist, inx)
    }

    open spec fn spec_name(&self) -> Seq<char> {
        "TwoTitsForTat"@
    }

    fn play(&self, hist: &History, hist_inx: usize) -> (m: Move) {
        let opponent_inx: usize = if hist_inx == 1 {
            0
        } else {
            1
        };
        let n: usize = hist.len();
        if n < 2 {
            Move::Cooperate
        } else if hist[n - 1][opponent_inx] == Move::Defect && hist[n - 2][opponent_inx]
            == Move::Defect {
            Move::Defect
        } else {
            Move::Cooperate
        }
    }

    fn name(&self) -> (s: String) {
        "TwoTitsForTat".to_owned()
    }
}

/// One of the built-in strategies, selected by value so that one list can
/// mix them. Behaves exactly as the strategy it names.
#[derive(Clone, Copy, Debug, PartialEq, Eq, Structural)]
pub enum StrategyKind {
    AlwaysCooperate,
    AlwaysDefect,
    TitForTat,
    Random,
    TwoTitsForTat,
}

impl Strategy for StrategyKind {
    open spec fn allows(&self, hist: Seq<[Move; 2]>, inx: int, m: Move) -> bool {
        match self {
            StrategyKind::AlwaysCooperate => m == Move::Cooperate,
            StrategyKind::AlwaysDefect => m == Move::Defect,
            StrategyKind::TitForTat => m == tit_for_tat_move(hist, inx),
            StrategyKind::Random => true,
            StrategyKind::TwoTitsForTat => m == two_tits_for_tat_move(hist, inx),
        }
    }

    open spec fn spec_name(&self) -> Seq<char> {
        match self {
            StrategyKind::AlwaysCooperate => "Always Cooperate"@,
            StrategyKind::AlwaysDefect => "Always Defect"@,
            StrategyKind::TitForTat => "TitForTat"@,
            StrategyKind::Random => "Random"@,
            StrategyKind::TwoTitsForTat => "TwoTitsForTat"@,
        }
    }

    fn play(&self, hist: &History, hist_inx: usize) -> (m: Move) {
        match self {
            StrategyKind::AlwaysCooperate => (AlwaysCooperate {}).play(hist, hist_inx),
            StrategyKind::AlwaysDefect => (AlwaysDefect {}).play(hist, hist_inx),
            StrategyKind::TitForTat => (TitForTat {}).play(hist, hist_inx),
            StrategyKind::Random => (Random {}).play(hist, hist_inx),
            StrategyKind::TwoTitsForTat => (TwoTitsForTat {}).play(hist, hist_inx),
        }
    }

    fn name(&self) -> (s: String) {
        match self {
            StrategyKind::AlwaysCooperate => (AlwaysCooperate {}).name(),
            StrategyKind::AlwaysDefect => (AlwaysDefect {}).name(),
            StrategyKind::TitForTat => (TitForTat {}).name(),
            StrategyKind::Random => (Random {}).name(),
            StrategyKind::TwoTitsForTat => (TwoTitsForTat {}).name(),
        }
    }
}

/// How often the opponent of seat `inx` has defected over the whole
/// history.
pub open spec fn opponent_defections(hist: Seq<[Move; 2]>, inx: int) -> int
    decreases hist.len(),
{
    if hist.len() == 0 {
        0
    } else {
        opponent_defections(hist.drop_last(), inx) + if hist.last()[opponent_of(inx)]
            == Move::Defect {
            1int
        } else {
            0int
        }
    }
}

/// Law: with fewer than two recorded rounds, TwoTitsForTat cooperates,
/// whatever those rounds hold.
pub proof fn lemma_two_tits_for_tat_short_history(hist: Seq<[Move; 2]>, inx: int)
    requires
        hist.len() < 2,
    ensures
        two_tits_for_tat_move(hist, inx) == Move::Cooperate,
{
}

/// Law: after at most one defection by the opponent in the whole history,
/// TwoTitsForTat still cooperates; retaliation takes two consecutive
/// defections.
pub proof fn lemma_two_tits_for_tat_single_defection(hist: Seq<[Move; 2]>, inx: int)
    requires
        opponent_defections(hist, inx) <= 1,
    ensures
        two_tits_for_tat_move(hist, inx) == Move::Cooperate,
{
    if hist.len() >= 2 {
        let prior = hist.drop_last();
        assert(opponent_defections(hist, inx) == opponent_defections(prior, inx) + if hist.last()[
            opponent_of(inx)
        ] == Move::Defect {
            1int
        } else {
            0int
        });
        assert(opponent_defections(prior, inx) == opponent_defections(prior.drop_last(), inx)
            + if prior.last()[opponent_of(inx)] == Move::Defect {
            1int
        } else {
            0int
        });
        lemma_opponent_defections_nonneg(prior.drop_last(), inx);
        assert(prior.last() == hist[hist.len() - 2]);
    }
}

/// Law: when the opponent defected in both of the two most recent rounds,
/// TwoTitsForTat defects.
pub proof fn lemma_two_tits_for_tat_retaliates(hist: Seq<[Move; 2]>, inx: int)
    requires
        hist.len() >= 2,
        hist[hist.len() - 1][opponent_of(inx)] == Move::Defect,
        hist[hist.len() - 2][opponent_of(inx)] == Move::Defect,
    ensures
        two_tits_for_tat_move(hist, inx) == Move::Defect,
{
}

proof fn lemma_opponent_defections_nonneg(hist: Seq<[Move; 2]>, inx: int)
    ensures
        opponent_defections(hist, inx) >= 0,
    decreases hist.len(),
{
    if hist.len() > 0 {
        lemma_opponent_defections_nonneg(hist.drop_last(), inx);
    }
}

} // verus!
