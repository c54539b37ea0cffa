use spellclash::nim::{
    all_piles, best_action, nim_sum, parse_human_action, NimAction, NimPerfectEvaluator, NimPile, NimPiles,
    NimPlayer, NimState, NimStatus,
};

#[test]
fn new_game_has_equal_piles_and_player_one_to_move() {
    let state = NimState::new(5);
    assert_eq!(state.piles, NimPiles { pile_a: 5, pile_b: 5, pile_c: 5 });
    assert_eq!(state.turn, NimPlayer::One);
    assert_eq!(state.status(), NimStatus::InProgress { current_turn: NimPlayer::One });
}

#[test]
fn new_with_piles_keeps_sizes() {
    let state = NimState::new_with_piles(1, 2, 3);
    assert_eq!(state.piles.get(NimPile::PileA), 1);
    assert_eq!(state.piles.get(NimPile::PileB), 2);
    assert_eq!(state.piles.get(NimPile::PileC), 3);
}

#[test]
fn all_piles_in_order() {
    assert_eq!(all_piles(), vec![NimPile::PileA, NimPile::PileB, NimPile::PileC]);
}

#[test]
fn nim_sum_is_xor_of_piles() {
    assert_eq!(nim_sum(&NimState::new_with_piles(1, 2, 3)), 0);
    assert_eq!(nim_sum(&NimState::new_with_piles(5, 3, 1)), 7);
    assert_eq!(nim_sum(&NimState::new(4)), 4);
}

#[test]
fn legal_actions_take_one_to_all_of_each_pile() {
    let state = NimState::new_with_piles(2, 0, 1);
    let actions = state.legal_actions(NimPlayer::One);
    assert_eq!(
        actions,
        vec![
            NimAction { pile: NimPile::PileA, amount: 1 },
            NimAction { pile: NimPile::PileA, amount: 2 },
            NimAction { pile: NimPile::PileC, amount: 1 },
        ]
    );
}

#[test]
fn legal_actions_of_empty_game_are_empty() {
    let state = NimState::new(0);
    assert!(state.legal_actions(NimPlayer::Two).is_empty());
}

#[test]
fn execute_action_removes_counters_and_passes_turn() {
    let mut state = NimState::new(3);
    state.execute_action(NimPlayer::One, NimAction { pile: NimPile::PileB, amount: 2 });
    assert_eq!(state.piles, NimPiles { pile_a: 3, pile_b: 1, pile_c: 3 });
    assert_eq!(state.turn, NimPlayer::Two);
    state.execute_action(NimPlayer::Two, NimAction { pile: NimPile::PileA, amount: 3 });
    assert_eq!(state.piles, NimPiles { pile_a: 0, pile_b: 1, pile_c: 3 });
    assert_eq!(state.turn, NimPlayer::One);
}

#[test]
fn player_taking_last_counter_wins() {
    let mut state = NimState::new_with_piles(0, 0, 2);
    state.execute_action(NimPlayer::One, NimAction { pile: NimPile::PileC, amount: 2 });
    assert_eq!(state.status(), NimStatus::Completed { winner: NimPlayer::One });
}

#[test]
fn make_copy_is_equal_and_independent() {
    let state = NimState::new_with_piles(4, 5, 6);
    let mut copy = state.make_copy();
    assert_eq!(copy.piles, state.piles);
    assert_eq!(copy.turn, state.turn);
    copy.execute_action(NimPlayer::One, NimAction { pile: NimPile::PileA, amount: 1 });
    assert_eq!(state.piles.pile_a, 4);
    assert_eq!(copy.piles.pile_a, 3);
}

#[test]
fn perfect_evaluator_rates_by_nim_sum() {
    let evaluator = NimPerfectEvaluator {};
    let balanced = NimState::new_with_piles(1, 2, 3);
    assert_eq!(evaluator.evaluate(&balanced, NimPlayer::One), -1);
    assert_eq!(evaluator.evaluate(&balanced, NimPlayer::Two), 1);
    let unbalanced = NimState::new_with_piles(1, 2, 4);
    assert_eq!(evaluator.evaluate(&unbalanced, NimPlayer::One), 1);
    assert_eq!(evaluator.evaluate(&unbalanced, NimPlayer::Two), -1);
}

#[test]
fn completed_game_rated_for_winner() {
    let evaluator = NimPerfectEvaluator {};
    let mut state = NimState::new_with_piles(0, 1, 0);
    state.execute_action(NimPlayer::One, NimAction { pile: NimPile::PileB, amount: 1 });
    assert_eq!(evaluator.evaluate(&state, NimPlayer::One), 1);
    assert_eq!(evaluator.evaluate(&state, NimPlayer::Two), -1);
}

#[test]
fn every_move_from_balanced_state_unbalances() {
    let state = NimState::new_with_piles(1, 2, 3);
    for action in state.legal_actions(NimPlayer::One) {
        let mut next = state.make_copy();
        next.execute_action(NimPlayer::One, action);
        assert_ne!(nim_sum(&next), 0);
    }
}

#[test]
fn unbalanced_state_has_balancing_move() {
    let state = NimState::new_with_piles(3, 5, 7);
    let balancing = state.legal_actions(NimPlayer::One).into_iter().any(|action| {
        let mut next = state.make_copy();
        next.execute_action(NimPlayer::One, action);
        nim_sum(&next) == 0
    });
    assert!(balancing);
}

#[test]
fn pile_display_names() {
    assert_eq!(NimPile::PileA.display_name(), "Pile A");
    assert_eq!(NimPile::PileB.display_name(), "Pile B");
    assert_eq!(NimPile::PileC.display_name(), "Pile C");
}

#[test]
fn human_action_parses_letter_and_digit() {
    let state = NimState::new(4);
    assert_eq!(
        parse_human_action("a2", &state),
        Some(NimAction { pile: NimPile::PileA, amount: 2 })
    );
    assert_eq!(
        parse_human_action("c4", &state),
        Some(NimAction { pile: NimPile::PileC, amount: 4 })
    );
}

#[test]
fn human_action_rejects_bad_input() {
    let state = NimState::new(4);
    assert_eq!(parse_human_action("a5", &state), None);
    assert_eq!(parse_human_action("d1", &state), None);
    assert_eq!(parse_human_action("a0", &state), None);
    assert_eq!(parse_human_action("a", &state), None);
    assert_eq!(parse_human_action("a12", &state), None);
}

#[test]
fn best_action_balances_the_piles() {
    let state = NimState::new_with_piles(3, 5, 7);
    let action = best_action(&state).expect("a move exists");
    assert_eq!(action, NimAction { pile: NimPile::PileA, amount: 1 });
    let mut next = state.make_copy();
    next.execute_action(NimPlayer::One, action);
    assert_eq!(nim_sum(&next), 0);
}

#[test]
fn best_action_from_lost_position_is_first_move() {
    let state = NimState::new_with_piles(1, 2, 3);
    assert_eq!(best_action(&state), Some(NimAction { pile: NimPile::PileA, amount: 1 }));
    assert_eq!(best_action(&NimState::new(0)), None);
}

#[test]
fn state_display_lists_piles() {
    assert_eq!(NimState::new_with_piles(1, 20, 305).to_display_string(), "Piles: A[1] B[20] C[305]");
    assert_eq!(NimState::new(0).to_display_string(), "Piles: A[0] B[0] C[0]");
    assert_eq!(
        NimState::new(u32::MAX).to_display_string(),
        "Piles: A[4294967295] B[4294967295] C[4294967295]"
    );
}
