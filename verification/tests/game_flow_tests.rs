use spellclash::actions::{execute, ExecuteAction};
use spellclash::auto_pass::{acting_player, auto_pass_action, continuation, Continuation};
use spellclash::card_parser::{ManaColor, ManaCostItem};
use spellclash::combat_queries::{can_attack, can_block, legal_attackers, legal_blockers};
use spellclash::game_state::{PlayerType, 
    AttackTarget, CardState, CombatAction, CombatState, GameAction, GameState, GameStatus,
    PlayerOptions, PlayerState, StateBasedEvent, ThisTurnState,
};
use spellclash::legality::{can_take_action, compute, LegalActions};
use spellclash::play_card::can_play_card;
use spellclash::primitives::{
    CardTypes, Colors, GamePhaseStep, LandSubtypes, PlayerName, PlayerSet, TurnData, Zone,
};
use spellclash::spell_planner::mana_payment;
use spellclash::player_queries::{inactive_players, next_player, next_player_after, player_count};
use spellclash::steps::advance;

const HUMAN: LegalActions = LegalActions { for_human_player: true };

fn no_types() -> CardTypes {
    CardTypes {
        artifact: false,
        battle: false,
        creature: false,
        enchantment: false,
        instant: false,
        land: false,
        planeswalker: false,
        sorcery: false,
    }
}

fn no_land_types() -> LandSubtypes {
    LandSubtypes { plains: false, island: false, swamp: false, mountain: false, forest: false, others: 0 }
}

fn no_colors() -> Colors {
    Colors { white: false, blue: false, black: false, red: false, green: false }
}

fn early() -> TurnData {
    TurnData { active_player: PlayerName::One, turn_number: 0 }
}

fn forest(id: u64, owner: PlayerName, zone: Zone) -> CardState {
    CardState {
        id,
        owner,
        controller: owner,
        zone,
        tapped: false,
        damage: 0,
        face_up: zone == Zone::Battlefield,
        is_token: false,
        card_types: CardTypes { land: true, ..no_types() },
        land_subtypes: LandSubtypes { forest: true, ..no_land_types() },
        colors: no_colors(),
        mana_cost: vec![],
        power: None,
        toughness: None,
        entered_current_zone: early(),
        last_changed_control: early(),
        revealed_to: PlayerSet { one: false, two: false, three: false, four: false },
        attached_to: None,
    }
}

fn creature(id: u64, owner: PlayerName, zone: Zone, power: i64, toughness: i64) -> CardState {
    CardState {
        id,
        owner,
        controller: owner,
        zone,
        tapped: false,
        damage: 0,
        face_up: zone == Zone::Battlefield,
        is_token: false,
        card_types: CardTypes { creature: true, ..no_types() },
        land_subtypes: no_land_types(),
        colors: Colors { green: true, ..no_colors() },
        mana_cost: vec![ManaCostItem::Generic, ManaCostItem::Colored(ManaColor::Green)],
        power: Some(power),
        toughness: Some(toughness),
        entered_current_zone: early(),
        last_changed_control: early(),
        revealed_to: PlayerSet { one: false, two: false, three: false, four: false },
        attached_to: None,
    }
}

fn options() -> PlayerOptions {
    PlayerOptions {
        hold_priority: false,
        auto_pass: false,
        active_turn_stops: vec![],
        inactive_turn_stops: vec![],
    }
}

fn player() -> PlayerState {
    PlayerState {
        life: 20,
        lands_played: 0,
        options: options(),
        player_type: PlayerType::Nobody,
        deck_name: None,
    }
}

fn two_player_game(cards: Vec<CardState>, libraries: Vec<Vec<u64>>) -> GameState {
    let mut libraries = libraries;
    while libraries.len() < 4 {
        libraries.push(vec![]);
    }
    GameState {
        status: GameStatus::Playing,
        step: GamePhaseStep::PreCombatMain,
        turn: TurnData { active_player: PlayerName::One, turn_number: 1 },
        priority: PlayerName::One,
        passed: PlayerSet::empty(),
        all_players: PlayerSet { one: true, two: true, three: false, four: false },
        players: vec![player(), player(), player(), player()],
        cards,
        libraries,
        graveyards: vec![vec![], vec![], vec![], vec![]],
        stack: vec![],
        combat: None,
        history: vec![vec![], vec![], vec![], vec![]],
        state_based_events: None,
        agent_search: false,
        control_changing_effects: vec![],
        this_turn: ThisTurnState::new(),
    }
}

/// Cards: two forests of player one (one in play, one in hand), a 2/2 in
/// hand, a 2/2 in play, a 0/4 of player two in play.
fn standard_game() -> GameState {
    two_player_game(
        vec![
            forest(0, PlayerName::One, Zone::Battlefield),
            forest(1, PlayerName::One, Zone::Hand),
            creature(2, PlayerName::One, Zone::Hand, 2, 2),
            creature(3, PlayerName::One, Zone::Battlefield, 2, 2),
            creature(4, PlayerName::Two, Zone::Battlefield, 0, 4),
            creature(5, PlayerName::One, Zone::Library, 1, 1),
            creature(6, PlayerName::One, Zone::Library, 3, 3),
            creature(7, PlayerName::Two, Zone::Library, 1, 1),
        ],
        vec![vec![5, 6], vec![7]],
    )
}

fn act(game: &mut GameState, player: PlayerName, action: GameAction) {
    assert!(can_take_action(game, player, &action), "{action:?} should be legal for {player:?}");
    execute(game, player, action, ExecuteAction { skip_undo_tracking: false, validate: true });
}

fn both_pass(game: &mut GameState) {
    let first = game.priority;
    act(game, first, GameAction::PassPriority);
    let second = game.priority;
    act(game, second, GameAction::PassPriority);
}

#[test]
fn main_phase_actions_of_active_player() {
    let game = standard_game();
    assert_eq!(
        compute(&game, PlayerName::One, HUMAN),
        vec![GameAction::PassPriority, GameAction::ProposePlayingCard(1)]
    );
    assert!(compute(&game, PlayerName::Two, HUMAN).is_empty());
    assert!(can_play_card(&game, PlayerName::One, 1));
    assert!(!can_play_card(&game, PlayerName::One, 2));
    assert!(!can_play_card(&game, PlayerName::Two, 1));
}

#[test]
fn playing_a_land_puts_it_onto_the_battlefield_face_up() {
    let mut game = standard_game();
    act(&mut game, PlayerName::One, GameAction::ProposePlayingCard(1));
    assert_eq!(game.cards[1].zone, Zone::Battlefield);
    assert!(game.cards[1].face_up);
    assert_eq!(game.players[0].lands_played, 1);
    assert_eq!(game.history[0].len(), 1);
    assert_eq!(game.priority, PlayerName::One);
    assert_eq!(
        compute(&game, PlayerName::One, HUMAN),
        vec![GameAction::PassPriority, GameAction::ProposePlayingCard(2)]
    );
}

#[test]
fn casting_a_creature_taps_lands_and_passes_priority() {
    let mut game = standard_game();
    act(&mut game, PlayerName::One, GameAction::ProposePlayingCard(1));
    act(&mut game, PlayerName::One, GameAction::ProposePlayingCard(2));
    assert!(game.cards[0].tapped);
    assert!(game.cards[1].tapped);
    assert_eq!(game.cards[2].zone, Zone::Stack);
    assert_eq!(game.stack, vec![2]);
    assert_eq!(game.priority, PlayerName::Two);
    assert_eq!(game.passed, PlayerSet { one: true, two: false, three: false, four: false });
    act(&mut game, PlayerName::Two, GameAction::PassPriority);
    assert_eq!(game.cards[2].zone, Zone::Battlefield);
    assert!(game.cards[2].face_up);
    assert!(game.stack.is_empty());
    assert_eq!(game.passed, PlayerSet::empty());
    assert_eq!(game.step, GamePhaseStep::PreCombatMain);
}

#[test]
fn holding_priority_keeps_it_after_casting() {
    let mut game = standard_game();
    game.players[0].options.hold_priority = true;
    act(&mut game, PlayerName::One, GameAction::ProposePlayingCard(1));
    act(&mut game, PlayerName::One, GameAction::ProposePlayingCard(2));
    assert_eq!(game.priority, PlayerName::One);
    assert_eq!(game.cards[2].zone, Zone::Stack);
}

#[test]
fn mana_payment_taps_forests_for_green_and_generic() {
    let mut game = standard_game();
    game.cards[1].zone = Zone::Battlefield;
    game.cards[1].face_up = true;
    let plan = mana_payment(&game, 2).expect("payable");
    assert_eq!(plan.basic_land_abilities_to_activate, vec![0, 1]);
}

#[test]
fn mana_payment_fails_without_enough_lands() {
    let game = standard_game();
    assert!(mana_payment(&game, 2).is_none());
    assert!(mana_payment(&game, 99).is_none());
}

#[test]
fn passing_with_empty_stack_moves_to_next_step() {
    let mut game = standard_game();
    both_pass(&mut game);
    assert_eq!(game.step, GamePhaseStep::BeginCombat);
    assert_eq!(game.priority, PlayerName::One);
    both_pass(&mut game);
    assert_eq!(game.step, GamePhaseStep::DeclareAttackers);
    assert!(matches!(game.combat, Some(CombatState::ProposingAttackers(_))));
}

#[test]
fn combat_with_a_block_deals_damage_to_creatures() {
    let mut game = standard_game();
    both_pass(&mut game);
    both_pass(&mut game);
    assert_eq!(legal_attackers(&game, PlayerName::One), vec![3]);
    assert_eq!(
        compute(&game, PlayerName::One, HUMAN),
        vec![
            GameAction::CombatAction(CombatAction::AddSelectedAttacker(3)),
            GameAction::CombatAction(CombatAction::ConfirmAttackers),
        ]
    );
    act(&mut game, PlayerName::One, GameAction::CombatAction(CombatAction::AddSelectedAttacker(3)));
    act(&mut game, PlayerName::One, GameAction::CombatAction(CombatAction::ConfirmAttackers));
    assert!(game.cards[3].tapped);
    both_pass(&mut game);
    assert_eq!(game.step, GamePhaseStep::DeclareBlockers);
    assert_eq!(legal_blockers(&game, PlayerName::Two), vec![4]);
    act(&mut game, PlayerName::Two, GameAction::CombatAction(CombatAction::AddSelectedBlocker(4)));
    act(&mut game, PlayerName::Two, GameAction::CombatAction(CombatAction::ConfirmBlockers));
    act(&mut game, PlayerName::One, GameAction::CombatAction(CombatAction::ConfirmBlockerOrder));
    assert!(matches!(game.combat, Some(CombatState::ConfirmedBlockers(_))));
    both_pass(&mut game);
    assert_eq!(game.step, GamePhaseStep::FirstStrikeDamage);
    both_pass(&mut game);
    assert_eq!(game.step, GamePhaseStep::CombatDamage);
    assert_eq!(game.cards[4].damage, 2);
    assert_eq!(game.cards[3].damage, 0);
    assert_eq!(game.cards[4].zone, Zone::Battlefield);
    assert_eq!(game.players[1].life, 20);
}

#[test]
fn unblocked_attacker_damages_the_defending_player() {
    let mut game = standard_game();
    both_pass(&mut game);
    both_pass(&mut game);
    act(&mut game, PlayerName::One, GameAction::CombatAction(CombatAction::AddSelectedAttacker(3)));
    act(&mut game, PlayerName::One, GameAction::CombatAction(CombatAction::ConfirmAttackers));
    both_pass(&mut game);
    act(&mut game, PlayerName::Two, GameAction::CombatAction(CombatAction::ConfirmBlockers));
    act(&mut game, PlayerName::One, GameAction::CombatAction(CombatAction::ConfirmBlockerOrder));
    both_pass(&mut game);
    both_pass(&mut game);
    assert_eq!(game.players[1].life, 18);
    both_pass(&mut game);
    assert_eq!(game.step, GamePhaseStep::EndCombat);
    both_pass(&mut game);
    assert_eq!(game.step, GamePhaseStep::PostCombatMain);
    assert!(game.combat.is_none());
}

#[test]
fn lethal_combat_damage_ends_the_game() {
    let mut game = standard_game();
    game.players[1].life = 2;
    both_pass(&mut game);
    both_pass(&mut game);
    act(&mut game, PlayerName::One, GameAction::CombatAction(CombatAction::AddSelectedAttacker(3)));
    act(&mut game, PlayerName::One, GameAction::CombatAction(CombatAction::ConfirmAttackers));
    both_pass(&mut game);
    act(&mut game, PlayerName::Two, GameAction::CombatAction(CombatAction::ConfirmBlockers));
    act(&mut game, PlayerName::One, GameAction::CombatAction(CombatAction::ConfirmBlockerOrder));
    both_pass(&mut game);
    both_pass(&mut game);
    assert_eq!(game.players[1].life, 0);
    assert_eq!(
        game.status,
        GameStatus::GameOver { winners: PlayerSet { one: true, two: false, three: false, four: false } }
    );
    assert!(compute(&game, PlayerName::One, HUMAN).is_empty());
}

#[test]
fn creature_cannot_attack_the_turn_it_arrives() {
    let mut game = standard_game();
    game.cards[3].entered_current_zone = game.turn;
    assert_eq!(can_attack(&game, 3), Some(false));
    assert_eq!(can_attack(&game, 99), None);
    assert_eq!(can_block(&game, 4), Some(true));
    assert_eq!(can_block(&game, 3), Some(false));
}

#[test]
fn turn_passes_to_next_player_after_cleanup() {
    let mut game = standard_game();
    game.step = GamePhaseStep::EndStep;
    game.cards[4].tapped = true;
    game.cards[3].damage = 1;
    advance(&mut game);
    assert_eq!(game.step, GamePhaseStep::Upkeep);
    assert_eq!(game.turn, TurnData { active_player: PlayerName::Two, turn_number: 1 });
    assert_eq!(game.priority, PlayerName::Two);
    assert!(!game.cards[4].tapped);
    assert_eq!(game.cards[3].damage, 0);
    advance(&mut game);
    assert_eq!(game.step, GamePhaseStep::Draw);
    assert_eq!(game.cards[7].zone, Zone::Hand);
    assert!(game.libraries[1].is_empty());
}

#[test]
fn turn_number_grows_when_play_returns_to_first_seat() {
    let mut game = standard_game();
    game.turn = TurnData { active_player: PlayerName::Two, turn_number: 3 };
    game.priority = PlayerName::Two;
    game.step = GamePhaseStep::Cleanup;
    advance(&mut game);
    assert_eq!(game.turn, TurnData { active_player: PlayerName::One, turn_number: 4 });
    assert_eq!(game.step, GamePhaseStep::Upkeep);
}

#[test]
fn auto_pass_without_stops() {
    let game = standard_game();
    assert_eq!(auto_pass_action(&game, PlayerName::One), Some(GameAction::PassPriority));
    assert_eq!(auto_pass_action(&game, PlayerName::Two), None);
}

#[test]
fn auto_pass_respects_stops() {
    let mut game = standard_game();
    game.players[0].options.active_turn_stops = vec![GamePhaseStep::PreCombatMain];
    assert_eq!(auto_pass_action(&game, PlayerName::One), None);
    game.players[0].options.auto_pass = true;
    assert_eq!(auto_pass_action(&game, PlayerName::One), None);
}

#[test]
fn auto_confirms_attackers_when_none_can_attack() {
    let mut game = standard_game();
    game.cards[3].tapped = true;
    both_pass(&mut game);
    both_pass(&mut game);
    assert_eq!(
        auto_pass_action(&game, PlayerName::One),
        Some(GameAction::CombatAction(CombatAction::ConfirmAttackers))
    );
}

#[test]
fn auto_confirms_blockers_when_nothing_attacks() {
    let mut game = standard_game();
    both_pass(&mut game);
    both_pass(&mut game);
    act(&mut game, PlayerName::One, GameAction::CombatAction(CombatAction::ConfirmAttackers));
    both_pass(&mut game);
    assert_eq!(
        auto_pass_action(&game, PlayerName::Two),
        Some(GameAction::CombatAction(CombatAction::ConfirmBlockers))
    );
}

#[test]
fn removing_a_selected_attacker_restores_the_declaration() {
    let mut game = standard_game();
    both_pass(&mut game);
    both_pass(&mut game);
    act(&mut game, PlayerName::One, GameAction::CombatAction(CombatAction::AddSelectedAttacker(3)));
    match &game.combat {
        Some(CombatState::ProposingAttackers(a)) => {
            assert_eq!(a.proposed_attacks.entries, vec![(3, AttackTarget::Player(PlayerName::Two))]);
        }
        _ => panic!("attackers are being declared"),
    }
    act(&mut game, PlayerName::One, GameAction::CombatAction(CombatAction::RemoveAttacker(3)));
    match &game.combat {
        Some(CombatState::ProposingAttackers(a)) => {
            assert!(a.proposed_attacks.entries.is_empty());
            assert!(a.selected_attackers.ids.is_empty());
        }
        _ => panic!("attackers are being declared"),
    }
}

#[test]
fn illegal_action_is_not_offered() {
    let game = standard_game();
    assert!(!can_take_action(&game, PlayerName::Two, &GameAction::PassPriority));
    assert!(!can_take_action(
        &game,
        PlayerName::One,
        &GameAction::CombatAction(CombatAction::ConfirmAttackers)
    ));
}

#[test]
fn agent_actions_skip_undo_tracking() {
    let mut game = standard_game();
    execute(
        &mut game,
        PlayerName::One,
        GameAction::PassPriority,
        ExecuteAction { skip_undo_tracking: true, validate: true },
    );
    assert_eq!(game.history[0].len(), 1);
    assert!(!game.history[0][0].track_for_undo);
    assert!(!spellclash::legality::can_undo(&game));
}

#[test]
fn agent_search_records_nothing() {
    let mut game = standard_game();
    game.agent_search = true;
    execute(
        &mut game,
        PlayerName::One,
        GameAction::PassPriority,
        ExecuteAction { skip_undo_tracking: false, validate: false },
    );
    assert!(game.history[0].is_empty());
    assert_eq!(game.priority, PlayerName::Two);
    assert_eq!(game.state_based_events, None::<Vec<StateBasedEvent>>);
}

#[test]
fn removing_a_selected_blocker_restores_the_declaration() {
    let mut game = standard_game();
    both_pass(&mut game);
    both_pass(&mut game);
    act(&mut game, PlayerName::One, GameAction::CombatAction(CombatAction::AddSelectedAttacker(3)));
    act(&mut game, PlayerName::One, GameAction::CombatAction(CombatAction::ConfirmAttackers));
    both_pass(&mut game);
    act(&mut game, PlayerName::Two, GameAction::CombatAction(CombatAction::AddSelectedBlocker(4)));
    match &game.combat {
        Some(CombatState::ProposingBlockers(b)) => {
            assert_eq!(b.proposed_blocks.entries, vec![(4, vec![3])]);
        }
        _ => panic!("blockers are being declared"),
    }
    act(&mut game, PlayerName::Two, GameAction::CombatAction(CombatAction::RemoveBlocker(4)));
    match &game.combat {
        Some(CombatState::ProposingBlockers(b)) => {
            assert!(b.proposed_blocks.entries.is_empty());
            assert!(b.selected_blockers.ids.is_empty());
            assert_eq!(b.defender, PlayerName::Two);
        }
        _ => panic!("blockers are being declared"),
    }
}

#[test]
fn agent_actions_are_among_human_actions() {
    let mut game = standard_game();
    both_pass(&mut game);
    both_pass(&mut game);
    act(&mut game, PlayerName::One, GameAction::CombatAction(CombatAction::AddSelectedAttacker(3)));
    let agent = compute(&game, PlayerName::One, LegalActions { for_human_player: false });
    let human = compute(&game, PlayerName::One, HUMAN);
    assert_eq!(agent, vec![GameAction::CombatAction(CombatAction::ConfirmAttackers)]);
    assert_eq!(
        human,
        vec![
            GameAction::CombatAction(CombatAction::RemoveAttacker(3)),
            GameAction::CombatAction(CombatAction::ConfirmAttackers),
        ]
    );
    for action in &agent {
        assert!(human.contains(action));
    }
}

#[test]
fn automatic_actions_are_legal() {
    let mut game = standard_game();
    for _ in 0..4 {
        let next = match continuation(&game) {
            Continuation::AutoPass { player, action } => (player, action),
            other => panic!("expected an automatic action, got {other:?}"),
        };
        assert!(can_take_action(&game, next.0, &next.1));
        execute(&mut game, next.0, next.1, ExecuteAction { skip_undo_tracking: true, validate: true });
    }
    assert_eq!(game.step, GamePhaseStep::DeclareAttackers);
    assert_eq!(continuation(&game), Continuation::AwaitDecision(PlayerName::One));
}

#[test]
fn continuation_stops_when_game_is_over() {
    let mut game = standard_game();
    game.status = GameStatus::GameOver { winners: PlayerSet::only(PlayerName::One) };
    assert_eq!(continuation(&game), Continuation::GameOver);
}

#[test]
fn turn_order_cycles_through_seated_players() {
    let mut game = standard_game();
    assert_eq!(player_count(&game), 2);
    assert_eq!(next_player(&game), PlayerName::Two);
    assert_eq!(next_player_after(&game, PlayerName::Two), PlayerName::One);
    game.all_players = PlayerSet { one: true, two: true, three: true, four: false };
    let mut player = PlayerName::One;
    let mut seen = vec![];
    for _ in 0..3 {
        player = next_player_after(&game, player);
        seen.push(player);
    }
    assert_eq!(seen, vec![PlayerName::Two, PlayerName::Three, PlayerName::One]);
}

#[test]
fn inactive_players_leave_out_the_active_player() {
    let mut game = standard_game();
    let inactive = inactive_players(&game);
    assert!(!inactive.contains(PlayerName::One));
    assert!(inactive.contains(PlayerName::Two));
    assert!(!inactive.contains(PlayerName::Three));
    game.all_players = PlayerSet { one: true, two: true, three: true, four: false };
    game.turn.active_player = PlayerName::Two;
    let inactive = inactive_players(&game);
    assert!(inactive.contains(PlayerName::One));
    assert!(!inactive.contains(PlayerName::Two));
    assert!(inactive.contains(PlayerName::Three));
    assert_eq!(inactive.len(), 2);
}

fn dual_land(id: u64) -> CardState {
    let mut card = forest(id, PlayerName::One, Zone::Battlefield);
    card.land_subtypes = LandSubtypes { plains: true, island: true, ..no_land_types() };
    card
}

fn white_blue_spell(id: u64) -> CardState {
    let mut card = creature(id, PlayerName::One, Zone::Hand, 1, 1);
    card.mana_cost = vec![
        ManaCostItem::Colored(ManaColor::White),
        ManaCostItem::Colored(ManaColor::Blue),
    ];
    card
}

#[test]
fn mana_payment_never_taps_a_land_twice() {
    let game = two_player_game(vec![dual_land(0), white_blue_spell(1)], vec![]);
    assert!(mana_payment(&game, 1).is_none());
    let mut island = forest(2, PlayerName::One, Zone::Battlefield);
    island.land_subtypes = LandSubtypes { island: true, ..no_land_types() };
    let game = two_player_game(vec![dual_land(0), white_blue_spell(1), island], vec![]);
    let plan = mana_payment(&game, 1).expect("payable");
    assert_eq!(plan.basic_land_abilities_to_activate, vec![0, 2]);
}

#[test]
fn continuation_asks_an_agent_to_decide() {
    let mut game = standard_game();
    while let Continuation::AutoPass { player, action } = continuation(&game) {
        execute(&mut game, player, action, ExecuteAction { skip_undo_tracking: true, validate: true });
    }
    assert_eq!(continuation(&game), Continuation::AwaitDecision(PlayerName::One));
    game.players[0].player_type = PlayerType::Agent;
    assert_eq!(continuation(&game), Continuation::AskAgent(PlayerName::One));
    game.players[0].player_type = PlayerType::Human(3);
    assert_eq!(continuation(&game), Continuation::AwaitDecision(PlayerName::One));
}

#[test]
fn acting_as_the_next_player() {
    let game = standard_game();
    assert_eq!(acting_player(&game, PlayerName::Two, Some(PlayerName::One)), PlayerName::One);
    assert_eq!(acting_player(&game, PlayerName::Two, Some(PlayerName::Two)), PlayerName::Two);
    assert_eq!(acting_player(&game, PlayerName::Two, None), PlayerName::Two);
    assert_eq!(acting_player(&game, PlayerName::One, Some(PlayerName::Two)), PlayerName::One);
}
