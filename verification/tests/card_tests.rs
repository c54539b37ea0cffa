use spellclash::card_predicates;
use spellclash::card_parser::{ManaColor, ManaCostItem};
use spellclash::card_queries;
use spellclash::create_copy::{of_card_in_zone, of_permanent, of_spell, ChooseNewTargets};
use spellclash::change_controller::{gain_control, gain_control_this_turn, remove_control};
use spellclash::combat_queries::can_attack;
use spellclash::game_state::{PlayerType, 
    CardState, ControlChangingEffect, GameState, GameStatus, PlayerOptions, PlayerState, StateBasedEvent,
    ThisTurnState,
};
use spellclash::move_card::{draw, draw_cards, move_all_to_top, move_to_top, run};
use spellclash::permanents::{deal_damage, sacrifice, tap, turn_face_up, untap};
use spellclash::players;
use spellclash::primitives::{
    CardTypes, Color, Colors, GamePhaseStep, LandSubtypes, LandType, PlayerName, PlayerSet, TurnData, Zone,
};
use spellclash::text_change_queries::{color, land_subtype};
use spellclash::resolve::resolve_top_of_stack;
use spellclash::spells::counter;
use spellclash::state_based_actions::on_will_receive_priority;
use spellclash::steps::advance;

fn no_types() -> CardTypes {
    CardTypes {
        artifact: false,
        battle: false,
        creature: false,
        enchantment: false,
        instant: false,
        land: false,
        planeswalker: false,
        sorcery: false,
    }
}

fn no_land_types() -> LandSubtypes {
    LandSubtypes { plains: false, island: false, swamp: false, mountain: false, forest: false, others: 0 }
}

fn no_colors() -> Colors {
    Colors { white: false, blue: false, black: false, red: false, green: false }
}

fn early() -> TurnData {
    TurnData { active_player: PlayerName::One, turn_number: 0 }
}

fn forest(id: u64, owner: PlayerName, zone: Zone) -> CardState {
    CardState {
        id,
        owner,
        controller: owner,
        zone,
        tapped: false,
        damage: 0,
        face_up: zone == Zone::Battlefield,
        is_token: false,
        card_types: CardTypes { land: true, ..no_types() },
        land_subtypes: LandSubtypes { forest: true, ..no_land_types() },
        colors: no_colors(),
        mana_cost: vec![],
        power: None,
        toughness: None,
        entered_current_zone: early(),
        last_changed_control: early(),
        revealed_to: PlayerSet { one: false, two: false, three: false, four: false },
        attached_to: None,
    }
}

fn creature(id: u64, owner: PlayerName, zone: Zone, power: i64, toughness: i64) -> CardState {
    CardState {
        id,
        owner,
        controller: owner,
        zone,
        tapped: false,
        damage: 0,
        face_up: zone == Zone::Battlefield,
        is_token: false,
        card_types: CardTypes { creature: true, ..no_types() },
        land_subtypes: no_land_types(),
        colors: Colors { green: true, ..no_colors() },
        mana_cost: vec![ManaCostItem::Generic, ManaCostItem::Colored(ManaColor::Green)],
        power: Some(power),
        toughness: Some(toughness),
        entered_current_zone: early(),
        last_changed_control: early(),
        revealed_to: PlayerSet { one: false, two: false, three: false, four: false },
        attached_to: None,
    }
}

fn options() -> PlayerOptions {
    PlayerOptions {
        hold_priority: false,
        auto_pass: false,
        active_turn_stops: vec![],
        inactive_turn_stops: vec![],
    }
}

fn player() -> PlayerState {
    PlayerState {
        life: 20,
        lands_played: 0,
        options: options(),
        player_type: PlayerType::Nobody,
        deck_name: None,
    }
}

fn two_player_game(cards: Vec<CardState>, libraries: Vec<Vec<u64>>) -> GameState {
    let mut libraries = libraries;
    while libraries.len() < 4 {
        libraries.push(vec![]);
    }
    GameState {
        status: GameStatus::Playing,
        step: GamePhaseStep::PreCombatMain,
        turn: TurnData { active_player: PlayerName::One, turn_number: 1 },
        priority: PlayerName::One,
        passed: PlayerSet::empty(),
        all_players: PlayerSet { one: true, two: true, three: false, four: false },
        players: vec![player(), player(), player(), player()],
        cards,
        libraries,
        graveyards: vec![vec![], vec![], vec![], vec![]],
        stack: vec![],
        combat: None,
        history: vec![vec![], vec![], vec![], vec![]],
        state_based_events: None,
        agent_search: false,
        control_changing_effects: vec![],
        this_turn: ThisTurnState::new(),
    }
}

/// Cards: two forests of player one (one in play, one in hand), a 2/2 in
/// hand, a 2/2 in play, a 0/4 of player two in play.
fn standard_game() -> GameState {
    two_player_game(
        vec![
            forest(0, PlayerName::One, Zone::Battlefield),
            forest(1, PlayerName::One, Zone::Hand),
            creature(2, PlayerName::One, Zone::Hand, 2, 2),
            creature(3, PlayerName::One, Zone::Battlefield, 2, 2),
            creature(4, PlayerName::Two, Zone::Battlefield, 0, 4),
            creature(5, PlayerName::One, Zone::Library, 1, 1),
            creature(6, PlayerName::One, Zone::Library, 3, 3),
            creature(7, PlayerName::Two, Zone::Library, 1, 1),
        ],
        vec![vec![5, 6], vec![7]],
    )
}


fn token(card: CardState) -> CardState {
    CardState { is_token: true, ..card }
}

#[test]
fn drawing_takes_the_top_card() {
    let mut game = standard_game();
    draw(&mut game, PlayerName::One);
    assert_eq!(game.cards[6].zone, Zone::Hand);
    assert!(!game.cards[6].face_up);
    assert_eq!(game.libraries[0], vec![5]);
    assert_eq!(game.cards[6].entered_current_zone, game.turn);
}

#[test]
fn drawing_several_cards() {
    let mut game = standard_game();
    draw_cards(&mut game, PlayerName::One, 2);
    assert_eq!(game.cards[5].zone, Zone::Hand);
    assert_eq!(game.cards[6].zone, Zone::Hand);
    assert!(game.libraries[0].is_empty());
    assert_eq!(game.state_based_events, None::<Vec<StateBasedEvent>>);
}

#[test]
fn drawing_from_empty_library_loses_at_next_check() {
    let mut game = standard_game();
    draw_cards(&mut game, PlayerName::Two, 2);
    assert_eq!(game.cards[7].zone, Zone::Hand);
    assert_eq!(
        game.state_based_events,
        Some(vec![StateBasedEvent::DrawFromEmptyLibrary(PlayerName::Two)])
    );
    assert!(on_will_receive_priority(&mut game));
    assert_eq!(
        game.status,
        GameStatus::GameOver { winners: PlayerSet { one: true, two: false, three: false, four: false } }
    );
    assert_eq!(game.state_based_events, None::<Vec<StateBasedEvent>>);
}

#[test]
fn damage_to_player_lowers_life_and_is_noted() {
    let mut game = standard_game();
    players::deal_damage(&mut game, PlayerName::Two, 5);
    assert_eq!(game.players[1].life, 15);
    assert_eq!(
        game.state_based_events,
        Some(vec![StateBasedEvent::LifeTotalDecrease(PlayerName::Two)])
    );
    assert!(!on_will_receive_priority(&mut game));
    assert_eq!(game.status, GameStatus::Playing);
}

#[test]
fn lethal_damage_to_player_loses() {
    let mut game = standard_game();
    players::deal_damage(&mut game, PlayerName::One, 20);
    assert!(on_will_receive_priority(&mut game));
    assert_eq!(
        game.status,
        GameStatus::GameOver { winners: PlayerSet { one: false, two: true, three: false, four: false } }
    );
}

#[test]
fn lethal_damage_destroys_creature() {
    let mut game = standard_game();
    deal_damage(&mut game, 3, 2);
    assert_eq!(game.cards[3].damage, 2);
    assert!(on_will_receive_priority(&mut game));
    assert_eq!(game.cards[3].zone, Zone::Graveyard);
    assert_eq!(game.cards[3].damage, 0);
    assert_eq!(game.status, GameStatus::Playing);
}

#[test]
fn damage_below_toughness_leaves_creature() {
    let mut game = standard_game();
    deal_damage(&mut game, 4, 3);
    assert!(!on_will_receive_priority(&mut game));
    assert_eq!(game.cards[4].zone, Zone::Battlefield);
    assert_eq!(game.cards[4].damage, 3);
}

#[test]
fn damage_to_card_off_the_battlefield_does_nothing() {
    let mut game = standard_game();
    deal_damage(&mut game, 2, 3);
    assert_eq!(game.cards[2].damage, 0);
    assert_eq!(game.state_based_events, None::<Vec<StateBasedEvent>>);
}

#[test]
fn zero_toughness_and_deathtouch_destroy() {
    let mut game = standard_game();
    game.cards[4].toughness = Some(0);
    game.state_based_events = Some(vec![
        StateBasedEvent::CreatureToughnessChanged(4),
        StateBasedEvent::CreatureDamagedByDeathtouch(3),
        StateBasedEvent::CreatureDamagedByDeathtouch(99),
    ]);
    assert!(on_will_receive_priority(&mut game));
    assert_eq!(game.cards[4].zone, Zone::Graveyard);
    assert_eq!(game.cards[3].zone, Zone::Graveyard);
}

#[test]
fn token_leaving_battlefield_is_noted_then_cleared() {
    let mut game = standard_game();
    game.cards[3] = token(game.cards[3].clone());
    game.state_based_events = Some(vec![StateBasedEvent::CreatureDamagedByDeathtouch(3)]);
    assert!(on_will_receive_priority(&mut game));
    assert_eq!(game.cards[3].zone, Zone::Graveyard);
    assert_eq!(game.state_based_events, None::<Vec<StateBasedEvent>>);
}

#[test]
fn moving_a_card_to_library_puts_it_on_top() {
    let mut game = standard_game();
    assert_eq!(move_to_top(&mut game, 3), Some(()));
    assert_eq!(game.libraries[0], vec![5, 6, 3]);
    assert_eq!(game.cards[3].zone, Zone::Library);
    assert!(!game.cards[3].face_up);
    assert_eq!(move_to_top(&mut game, 50), None);
}

#[test]
fn moving_all_to_top_in_order() {
    let mut game = standard_game();
    move_all_to_top(&mut game, &vec![2, 1]);
    assert_eq!(game.libraries[0], vec![5, 6, 2, 1]);
}

#[test]
fn leaving_battlefield_untaps_and_heals() {
    let mut game = standard_game();
    game.cards[4].tapped = true;
    game.cards[4].damage = 1;
    assert_eq!(run(&mut game, 4, Zone::Hand), Some(()));
    assert!(!game.cards[4].tapped);
    assert_eq!(game.cards[4].damage, 0);
    assert_eq!(game.cards[4].zone, Zone::Hand);
}

#[test]
fn tap_and_untap_affect_permanents_only() {
    let mut game = standard_game();
    tap(&mut game, 3);
    assert!(game.cards[3].tapped);
    untap(&mut game, 3);
    assert!(!game.cards[3].tapped);
    tap(&mut game, 2);
    assert!(!game.cards[2].tapped);
}

#[test]
fn sacrifice_moves_permanent_to_graveyard() {
    let mut game = standard_game();
    sacrifice(&mut game, 3);
    assert_eq!(game.cards[3].zone, Zone::Graveyard);
    sacrifice(&mut game, 2);
    assert_eq!(game.cards[2].zone, Zone::Hand);
}

#[test]
fn countering_a_spell_moves_it_to_graveyard() {
    let mut game = standard_game();
    run(&mut game, 2, Zone::Stack);
    assert_eq!(game.stack, vec![2]);
    assert_eq!(counter(&mut game, 2), Some(()));
    assert!(game.stack.is_empty());
    assert_eq!(game.cards[2].zone, Zone::Graveyard);
    assert_eq!(counter(&mut game, 77), None);
}

#[test]
fn resolving_a_creature_puts_it_onto_battlefield() {
    let mut game = standard_game();
    run(&mut game, 2, Zone::Stack);
    resolve_top_of_stack(&mut game);
    assert_eq!(game.cards[2].zone, Zone::Battlefield);
    assert!(game.cards[2].face_up);
    assert!(game.stack.is_empty());
}

#[test]
fn resolving_a_sorcery_puts_it_into_graveyard() {
    let mut game = standard_game();
    game.cards[2].card_types = CardTypes { sorcery: true, ..no_types() };
    run(&mut game, 2, Zone::Stack);
    resolve_top_of_stack(&mut game);
    assert_eq!(game.cards[2].zone, Zone::Graveyard);
}

#[test]
fn resolving_empty_stack_changes_nothing() {
    let mut game = standard_game();
    resolve_top_of_stack(&mut game);
    assert!(game.stack.is_empty());
    assert_eq!(game.cards[2].zone, Zone::Hand);
}

#[test]
fn copy_of_permanent_is_a_new_token() {
    let mut game = standard_game();
    assert_eq!(of_permanent(&mut game, 3, PlayerName::Two), Some(()));
    assert_eq!(game.cards.len(), 9);
    let copy = &game.cards[8];
    assert_eq!(copy.id, 8);
    assert!(copy.is_token);
    assert_eq!(copy.owner, PlayerName::Two);
    assert_eq!(copy.controller, PlayerName::Two);
    assert_eq!(copy.zone, Zone::Battlefield);
    assert_eq!(copy.power, Some(2));
    assert_eq!(of_permanent(&mut game, 42, PlayerName::Two), None);
}

#[test]
fn copy_of_spell_goes_on_stack() {
    let mut game = standard_game();
    run(&mut game, 2, Zone::Stack);
    assert_eq!(of_spell(&mut game, 2, PlayerName::One, ChooseNewTargets::Yes), Some(()));
    assert_eq!(game.stack, vec![2, 8]);
    assert_eq!(game.cards[8].zone, Zone::Stack);
}

#[test]
fn copy_into_library_goes_on_top() {
    let mut game = standard_game();
    assert_eq!(of_card_in_zone(&mut game, 4, PlayerName::One, Zone::Library, false), Some(8));
    assert_eq!(game.libraries[0], vec![5, 6, 8]);
}

#[test]
fn face_down_permanent_is_a_two_two_without_types() {
    let mut game = standard_game();
    game.cards[4].face_up = false;
    assert_eq!(card_queries::power(&game, 4), Some(2));
    assert_eq!(card_queries::toughness(&game, 4), Some(2));
    assert_eq!(card_predicates::creature(&game, 4), Some(false));
    assert_eq!(card_predicates::green(&game, 4), Some(false));
    turn_face_up(&mut game, 4);
    assert_eq!(card_queries::power(&game, 4), Some(0));
    assert_eq!(card_queries::toughness(&game, 4), Some(4));
    assert_eq!(card_predicates::creature(&game, 4), Some(true));
    assert_eq!(card_predicates::green(&game, 4), Some(true));
}

#[test]
fn card_predicates_on_lands() {
    let game = standard_game();
    assert_eq!(card_predicates::land(&game, 0), Some(true));
    assert_eq!(card_predicates::nonland(&game, 0), Some(false));
    assert_eq!(card_predicates::forest(&game, 0), Some(true));
    assert_eq!(card_predicates::island(&game, 0), Some(false));
    assert_eq!(card_predicates::plains(&game, 0), Some(false));
    assert_eq!(card_predicates::swamp(&game, 0), Some(false));
    assert_eq!(card_predicates::mountain(&game, 0), Some(false));
    assert_eq!(card_predicates::planeswalker(&game, 0), Some(false));
    assert_eq!(card_predicates::battle(&game, 0), Some(false));
    assert_eq!(card_predicates::white(&game, 0), Some(false));
    assert_eq!(card_predicates::blue(&game, 0), Some(false));
    assert_eq!(card_predicates::black(&game, 0), Some(false));
    assert_eq!(card_predicates::red(&game, 0), Some(false));
    assert_eq!(card_predicates::always_true(&game, 0), Some(true));
    assert_eq!(card_predicates::land(&game, 100), None);
}

#[test]
fn card_queries_of_missing_card() {
    let game = standard_game();
    assert_eq!(card_queries::power(&game, 100), None);
    assert_eq!(card_queries::colors(&game, 100), None);
    assert!(card_queries::card_types(&game, 100).is_none());
    assert!(card_queries::land_subtypes(&game, 100).is_none());
    assert_eq!(card_queries::colors(&game, 2), Some(Colors { green: true, ..no_colors() }));
}

fn zone_lists_agree(game: &GameState) -> bool {
    let owners = [PlayerName::One, PlayerName::Two, PlayerName::Three, PlayerName::Four];
    for (piles, zone) in [(&game.libraries, Zone::Library), (&game.graveyards, Zone::Graveyard)] {
        for (p, pile) in piles.iter().enumerate() {
            for (i, id) in pile.iter().enumerate() {
                let card = &game.cards[*id as usize];
                if card.zone != zone || card.owner != owners[p] || pile[..i].contains(id) {
                    return false;
                }
            }
        }
    }
    for card in &game.cards {
        let p = owners.iter().position(|o| *o == card.owner).unwrap();
        if (card.zone == Zone::Library) != game.libraries[p].contains(&card.id) {
            return false;
        }
        if (card.zone == Zone::Graveyard) != game.graveyards[p].contains(&card.id) {
            return false;
        }
        if (card.zone == Zone::Stack) != game.stack.contains(&card.id) {
            return false;
        }
    }
    true
}

#[test]
fn moves_and_copies_keep_zone_lists_in_agreement() {
    let mut game = standard_game();
    assert!(zone_lists_agree(&game));
    run(&mut game, 2, Zone::Stack);
    assert!(zone_lists_agree(&game));
    run(&mut game, 3, Zone::Library);
    assert!(zone_lists_agree(&game));
    run(&mut game, 3, Zone::Library);
    assert!(zone_lists_agree(&game));
    assert_eq!(game.libraries[0], vec![5, 6, 3]);
    of_spell(&mut game, 2, PlayerName::Two, ChooseNewTargets::No);
    assert!(zone_lists_agree(&game));
    of_card_in_zone(&mut game, 4, PlayerName::Two, Zone::Library, false);
    assert!(zone_lists_agree(&game));
    run(&mut game, 6, Zone::Graveyard);
    assert!(zone_lists_agree(&game));
}

#[test]
fn second_check_changes_nothing() {
    let mut game = standard_game();
    deal_damage(&mut game, 3, 5);
    assert!(on_will_receive_priority(&mut game));
    let cards = game.cards.clone();
    let libraries = game.libraries.clone();
    let status = game.status;
    assert!(!on_will_receive_priority(&mut game));
    assert_eq!(game.cards.len(), cards.len());
    for (a, b) in game.cards.iter().zip(cards.iter()) {
        assert_eq!(a.zone, b.zone);
        assert_eq!(a.damage, b.damage);
        assert_eq!(a.tapped, b.tapped);
    }
    assert_eq!(game.libraries, libraries);
    assert_eq!(game.status, status);
}

#[test]
fn gain_control_changes_controller() {
    let mut game = standard_game();
    assert_eq!(gain_control(&mut game, PlayerName::Two, 7, 3), Some(()));
    assert_eq!(game.cards[3].controller, PlayerName::Two);
    assert_eq!(game.cards[3].last_changed_control, game.turn);
    assert_eq!(
        game.control_changing_effects,
        vec![ControlChangingEffect { card_id: 3, event_id: 7, controller: PlayerName::Two }]
    );
}

#[test]
fn gain_control_by_current_controller_records_nothing() {
    let mut game = standard_game();
    assert_eq!(gain_control(&mut game, PlayerName::One, 7, 3), Some(()));
    assert_eq!(game.cards[3].controller, PlayerName::One);
    assert_eq!(game.cards[3].last_changed_control, early());
    assert!(game.control_changing_effects.is_empty());
}

#[test]
fn gain_control_of_missing_card_fails() {
    let mut game = standard_game();
    assert_eq!(gain_control(&mut game, PlayerName::Two, 7, 99), None);
    assert_eq!(gain_control_this_turn(&mut game, PlayerName::Two, 7, 99), None);
    assert_eq!(remove_control(&mut game, 7, 99), None);
    assert!(game.control_changing_effects.is_empty());
    assert!(game.this_turn.control_changing_effects.is_empty());
}

#[test]
fn remove_control_undoes_gain() {
    let mut game = standard_game();
    gain_control(&mut game, PlayerName::Two, 7, 3);
    assert_eq!(remove_control(&mut game, 7, 3), Some(()));
    assert_eq!(game.cards[3].controller, PlayerName::One);
    assert!(game.control_changing_effects.is_empty());
}

#[test]
fn remove_control_falls_back_to_earlier_effect() {
    let mut game = standard_game();
    gain_control(&mut game, PlayerName::Two, 7, 3);
    gain_control(&mut game, PlayerName::One, 8, 3);
    assert_eq!(game.cards[3].controller, PlayerName::One);
    assert_eq!(game.control_changing_effects.len(), 2);
    remove_control(&mut game, 8, 3);
    assert_eq!(game.cards[3].controller, PlayerName::Two);
    remove_control(&mut game, 7, 3);
    assert_eq!(game.cards[3].controller, PlayerName::One);
    assert!(game.control_changing_effects.is_empty());
}

#[test]
fn control_gained_this_turn_ends_in_cleanup() {
    let mut game = standard_game();
    game.step = GamePhaseStep::EndStep;
    assert_eq!(gain_control_this_turn(&mut game, PlayerName::Two, 9, 3), Some(()));
    assert_eq!(game.this_turn.control_changing_effects, vec![(9, 3)]);
    assert_eq!(game.cards[3].controller, PlayerName::Two);
    advance(&mut game);
    assert_eq!(game.cards[3].controller, PlayerName::One);
    assert!(game.control_changing_effects.is_empty());
    assert!(game.this_turn.control_changing_effects.is_empty());
    assert_eq!(game.turn.active_player, PlayerName::Two);
    assert_eq!(game.step, GamePhaseStep::Upkeep);
}

#[test]
fn moving_card_ends_control_effects() {
    let mut game = standard_game();
    gain_control(&mut game, PlayerName::Two, 7, 3);
    run(&mut game, 3, Zone::Graveyard);
    assert_eq!(game.cards[3].controller, PlayerName::One);
    assert!(game.control_changing_effects.is_empty());
}

#[test]
fn spell_resolving_keeps_control_effects() {
    let mut game = standard_game();
    run(&mut game, 2, Zone::Stack);
    gain_control(&mut game, PlayerName::Two, 5, 2);
    run(&mut game, 2, Zone::Battlefield);
    assert_eq!(game.cards[2].controller, PlayerName::Two);
    assert_eq!(
        game.control_changing_effects,
        vec![ControlChangingEffect { card_id: 2, event_id: 5, controller: PlayerName::Two }]
    );
}

#[test]
fn text_change_queries_give_back_what_is_named() {
    let game = standard_game();
    assert_eq!(land_subtype(&game, LandType::Island), LandType::Island);
    assert_eq!(color(&game, Color::Red), Color::Red);
}

#[test]
fn color_predicates_read_card_colors() {
    let game = standard_game();
    assert_eq!(card_predicates::green(&game, 3), Some(true));
    assert_eq!(card_predicates::white(&game, 3), Some(false));
    assert_eq!(card_predicates::green(&game, 0), Some(false));
    assert_eq!(card_predicates::forest(&game, 0), Some(true));
    assert_eq!(card_predicates::plains(&game, 0), Some(false));
    assert_eq!(card_predicates::red(&game, 99), None);
}

#[test]
fn creature_gained_this_turn_cannot_attack() {
    let mut game = standard_game();
    assert_eq!(can_attack(&game, 4), Some(false));
    gain_control(&mut game, PlayerName::One, 7, 4);
    assert_eq!(game.cards[4].controller, PlayerName::One);
    assert_eq!(can_attack(&game, 4), Some(false));
    game.turn.turn_number = 2;
    assert_eq!(can_attack(&game, 4), Some(true));
}

#[test]
fn moving_cards_reveals_them() {
    let mut game = standard_game();
    draw(&mut game, PlayerName::One);
    let drawn = &game.cards[6];
    assert_eq!(drawn.zone, Zone::Hand);
    assert!(drawn.revealed_to.contains(PlayerName::One));
    assert!(!drawn.revealed_to.contains(PlayerName::Two));
    run(&mut game, 6, Zone::Graveyard);
    assert!(game.cards[6].revealed_to.contains(PlayerName::Two));
    assert!(game.cards[6].revealed_to.contains(PlayerName::Four));
}

#[test]
fn leaving_the_battlefield_drops_attachments() {
    let mut game = standard_game();
    game.cards[3].attached_to = Some(4);
    run(&mut game, 3, Zone::Hand);
    assert_eq!(game.cards[3].attached_to, None);
    assert!(game.cards[3].revealed_to.contains(PlayerName::One));
}

#[test]
fn turning_face_up_reveals_to_everyone() {
    let mut game = standard_game();
    turn_face_up(&mut game, 2);
    assert!(game.cards[2].face_up);
    assert!(game.cards[2].revealed_to.contains(PlayerName::Three));
}

#[test]
fn graveyards_keep_the_order_cards_arrive_in() {
    let mut game = standard_game();
    run(&mut game, 3, Zone::Graveyard);
    run(&mut game, 2, Zone::Graveyard);
    run(&mut game, 4, Zone::Graveyard);
    assert_eq!(game.graveyards[0], vec![3, 2]);
    assert_eq!(game.graveyards[1], vec![4]);
    run(&mut game, 3, Zone::Graveyard);
    assert_eq!(game.graveyards[0], vec![2, 3]);
    run(&mut game, 2, Zone::Hand);
    assert_eq!(game.graveyards[0], vec![3]);
    assert!(zone_lists_agree(&game));
}

#[test]
fn destroyed_creatures_go_to_the_top_of_the_graveyard() {
    let mut game = standard_game();
    run(&mut game, 2, Zone::Graveyard);
    game.cards[3].damage = 2;
    game.state_based_events = Some(vec![StateBasedEvent::CreatureDamaged(3)]);
    on_will_receive_priority(&mut game);
    assert_eq!(game.graveyards[0], vec![2, 3]);
    assert_eq!(game.cards[3].zone, Zone::Graveyard);
}

#[test]
fn drawn_card_is_revealed_to_its_owner_only() {
    let mut game = standard_game();
    draw(&mut game, PlayerName::Two);
    let card = &game.cards[7];
    assert_eq!(card.zone, Zone::Hand);
    assert!(!card.face_up);
    assert!(card.revealed_to.contains(PlayerName::Two));
    assert!(!card.revealed_to.contains(PlayerName::One));
}
