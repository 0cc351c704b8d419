use prisoners_dilemma::game::run_game;
use prisoners_dilemma::{
    AlwaysCooperate, AlwaysDefect, Move, Player, PrisonerDilemmaGame, TitForTat,
};

type Game = PrisonerDilemmaGame<AlwaysCooperate, AlwaysCooperate>;

// ============ PAYOFF TESTS ============

#[test]
fn test_payoff_both_cooperate() {
    let payoff = Game::calculate_payoff(&Move::Cooperate, &Move::Cooperate);
    assert_eq!(payoff, (2, 2));
}

#[test]
fn test_payoff_p1_defect_p2_cooperate() {
    let payoff = Game::calculate_payoff(&Move::Defect, &Move::Cooperate);
    assert_eq!(payoff, (3, 0));
}

#[test]
fn test_payoff_p1_cooperate_p2_defect() {
    let payoff = Game::calculate_payoff(&Move::Cooperate, &Move::Defect);
    assert_eq!(payoff, (0, 3));
}

#[test]
fn test_payoff_both_defect() {
    let payoff = Game::calculate_payoff(&Move::Defect, &Move::Defect);
    assert_eq!(payoff, (1, 1));
}

#[test]
fn test_payoff_table_symmetric() {
    // Swapping the moves swaps the rewards, for all four combinations.
    let moves = [Move::Cooperate, Move::Defect];
    for m1 in moves {
        for m2 in moves {
            let (a, b) = Game::calculate_payoff(&m1, &m2);
            let (c, d) = Game::calculate_payoff(&m2, &m1);
            assert_eq!((a, b), (d, c));
        }
    }
}

// ============ PLAYER TESTS ============

#[test]
fn test_player_initialization() {
    let strategy = AlwaysCooperate {};
    let player = Player::new(strategy);
    assert_eq!(player.score, 0);
}

#[test]
fn test_player_pay() {
    let strategy = AlwaysCooperate {};
    let mut player = Player::new(strategy);
    player.pay(5);
    assert_eq!(player.score, 5);
    player.pay(3);
    assert_eq!(player.score, 8);
}

// ============ GAME MECHANICS TESTS ============

#[test]
fn test_game_initialization() {
    let p1 = Player::new(AlwaysCooperate {});
    let p2 = Player::new(AlwaysDefect {});
    let game = PrisonerDilemmaGame::new(p1, p2, 100);

    assert_eq!(game.iterations, 100);
    assert_eq!(game.history.len(), 0);
    assert_eq!(game.p1.score, 0);
    assert_eq!(game.p2.score, 0);
}

#[test]
fn test_single_round() {
    let p1 = Player::new(AlwaysCooperate {});
    let p2 = Player::new(AlwaysDefect {});
    let mut game = PrisonerDilemmaGame::new(p1, p2, 1);

    game.play_round();

    // AlwaysCooperate vs AlwaysDefect: p1 gets 0, p2 gets 3
    assert_eq!(game.p1.score, 0);
    assert_eq!(game.p2.score, 3);
    assert_eq!(game.history.len(), 1);
    assert_eq!(game.history[0], [Move::Cooperate, Move::Defect]);
}

#[test]
fn test_multiple_rounds() {
    let p1 = Player::new(AlwaysCooperate {});
    let p2 = Player::new(AlwaysCooperate {});
    let mut game = PrisonerDilemmaGame::new(p1, p2, 5);

    game.play();

    // Both cooperate every round: 5 * 2 = 10 each
    assert_eq!(game.p1.score, 10);
    assert_eq!(game.p2.score, 10);
    assert_eq!(game.history.len(), 5);
}

#[test]
fn test_tit_for_tat_vs_always_cooperate() {
    let p1 = Player::new(TitForTat {});
    let p2 = Player::new(AlwaysCooperate {});
    let mut game = PrisonerDilemmaGame::new(p1, p2, 10);

    game.play();

    // Both should cooperate every round
    assert_eq!(game.p1.score, 20);
    assert_eq!(game.p2.score, 20);
}

#[test]
fn test_tit_for_tat_vs_always_defect() {
    let p1 = Player::new(TitForTat {});
    let p2 = Player::new(AlwaysDefect {});
    let mut game = PrisonerDilemmaGame::new(p1, p2, 10);

    game.play();

    // First round: TitForTat cooperates, AlwaysDefect defects
    // p1 gets 0, p2 gets 3
    // Rounds 2-10: TitForTat defects, AlwaysDefect defects
    // p1 gets 1, p2 gets 1 each round
    // Total: p1 = 0 + 9 = 9, p2 = 3 + 9 = 12
    assert_eq!(game.p1.score, 9);
    assert_eq!(game.p2.score, 12);
}

#[test]
fn test_always_defect_vs_always_defect() {
    let p1 = Player::new(AlwaysDefect {});
    let p2 = Player::new(AlwaysDefect {});
    let mut game = PrisonerDilemmaGame::new(p1, p2, 10);

    game.play();

    // Both defect every round: 10 * 1 = 10 each
    assert_eq!(game.p1.score, 10);
    assert_eq!(game.p2.score, 10);
}

#[test]
fn test_zero_iterations() {
    let p1 = Player::new(AlwaysDefect {});
    let p2 = Player::new(AlwaysDefect {});
    let mut game = PrisonerDilemmaGame::new(p1, p2, 0);

    game.play();

    assert_eq!(game.p1.score, 0);
    assert_eq!(game.p2.score, 0);
    assert_eq!(game.history.len(), 0);
}

#[test]
fn test_cooperation_history_recorded() {
    let p1 = Player::new(AlwaysCooperate {});
    let p2 = Player::new(AlwaysCooperate {});
    let mut game = PrisonerDilemmaGame::new(p1, p2, 5);

    game.play();

    assert_eq!(game.history.len(), 5);
    for round in &game.history {
        assert_eq!(*round, [Move::Cooperate, Move::Cooperate]);
    }
}

#[test]
fn test_run_game_mutual_cooperation() {
    let scores = run_game(AlwaysCooperate {}, AlwaysCooperate {}, 5);
    assert_eq!(scores, (10, 10));
}

#[test]
fn test_run_game_asymmetric() {
    let scores = run_game(AlwaysCooperate {}, AlwaysDefect {}, 1);
    assert_eq!(scores, (0, 3));
}

#[test]
fn test_run_game_tit_for_tat_punishes() {
    let scores = run_game(TitForTat {}, AlwaysDefect {}, 10);
    assert_eq!(scores, (9, 12));
}
