//! A round-robin tournament of the iterated prisoner's dilemma.
//!
//! Two players repeatedly choose to cooperate or defect; a fixed payoff
//! table scores each round. Strategies decide their next move from the
//! shared history of previous rounds. The tournament pairs every strategy
//! against every strategy (itself included) and collects one score pair
//! per pairing.

pub mod game;
pub mod registry;
pub mod strategies;
pub mod tournament;

pub use game::{Payoff, Player, PrisonerDilemmaGame};
pub use strategies::{
    AlwaysCooperate, AlwaysDefect, History, Move, Random, Strategy, StrategyKind, TitForTat,
    TwoTitsForTat,
};
