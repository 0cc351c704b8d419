use prisoners_dilemma::registry::{parse_strategies, strategy_from_name};
use prisoners_dilemma::{Strategy, StrategyKind};

#[test]
fn test_parse_single_strategy() {
    let strategies = parse_strategies("always-cooperate".as_bytes());
    assert_eq!(strategies.len(), 1);
    assert_eq!(strategies[0].name(), "Always Cooperate");
}

#[test]
fn test_parse_multiple_strategies() {
    let strategies = parse_strategies("always-cooperate,always-defect,tit-for-tat".as_bytes());
    assert_eq!(strategies.len(), 3);
    assert_eq!(strategies[0].name(), "Always Cooperate");
    assert_eq!(strategies[1].name(), "Always Defect");
    assert_eq!(strategies[2].name(), "TitForTat");
}

#[test]
fn test_parse_strategies_with_whitespace() {
    let strategies = parse_strategies("always-cooperate, always-defect, tit-for-tat".as_bytes());
    assert_eq!(strategies.len(), 3);
}

#[test]
fn test_parse_strategies_case_insensitive() {
    let strategies = parse_strategies("ALWAYS-COOPERATE,Always-Defect".as_bytes());
    assert_eq!(strategies.len(), 2);
}

#[test]
fn test_parse_all_strategies() {
    let strategies = parse_strategies(
        "always-cooperate,always-defect,tit-for-tat,random,two-tits-for-tat".as_bytes(),
    );
    assert_eq!(strategies.len(), 5);
}

#[test]
fn test_parse_duplicate_strategies() {
    let strategies = parse_strategies("always-cooperate,always-cooperate".as_bytes());
    assert_eq!(strategies.len(), 2); // Duplicates are allowed
}

#[test]
fn test_parse_invalid_strategy_falls_back() {
    let strategies = parse_strategies("invalid-strategy".as_bytes());
    // Should fall back to all strategies
    assert_eq!(strategies.len(), 5);
}

#[test]
fn test_parse_mixed_valid_invalid() {
    let strategies = parse_strategies("always-cooperate,invalid".as_bytes());
    // Invalid strategy is skipped, uses the valid one
    assert_eq!(strategies.len(), 1);
    assert_eq!(strategies[0].name(), "Always Cooperate");
}

#[test]
fn test_parse_empty_string_falls_back() {
    let strategies = parse_strategies("".as_bytes());
    assert_eq!(strategies.len(), 5);
}

#[test]
fn test_strategy_from_name_lookup() {
    assert_eq!(
        strategy_from_name(" Two-Tits-For-Tat ".as_bytes()),
        Some(StrategyKind::TwoTitsForTat)
    );
    assert_eq!(
        strategy_from_name("random".as_bytes()),
        Some(StrategyKind::Random)
    );
    assert_eq!(strategy_from_name("nonsense".as_bytes()), None);
    assert_eq!(strategy_from_name("".as_bytes()), None);
}

#[test]
fn test_parse_default_order() {
    let strategies = parse_strategies("unknown".as_bytes());
    assert_eq!(
        strategies,
        vec![
            StrategyKind::AlwaysCooperate,
            StrategyKind::AlwaysDefect,
            StrategyKind::TitForTat,
            StrategyKind::Random,
            StrategyKind::TwoTitsForTat,
        ]
    );
}
