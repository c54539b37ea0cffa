use spellclash::game_state::{CardState, DeckName, GameStatus, PlayerType};
use spellclash::new_game::{create_game, find_deck, start_game, PrintedCardId, PRINTED_CARD_COUNT};
use spellclash::primitives::{
    CardTypes, Colors, GamePhaseStep, LandSubtypes, PlayerName, PlayerSet, TurnData, Zone,
};

fn blank(power: Option<i64>) -> CardState {
    let turn = TurnData { active_player: PlayerName::Two, turn_number: 9 };
    CardState {
        id: 77,
        owner: PlayerName::Two,
        controller: PlayerName::Two,
        zone: Zone::Graveyard,
        tapped: true,
        damage: 3,
        face_up: true,
        is_token: true,
        card_types: CardTypes {
            artifact: false,
            battle: false,
            creature: power.is_some(),
            enchantment: false,
            instant: false,
            land: power.is_none(),
            planeswalker: false,
            sorcery: false,
        },
        land_subtypes: LandSubtypes {
            plains: false,
            island: false,
            swamp: false,
            mountain: false,
            forest: false,
            others: 0,
        },
        colors: Colors { white: false, blue: false, black: false, red: false, green: false },
        mana_cost: vec![],
        power,
        toughness: power,
        entered_current_zone: turn,
        last_changed_control: turn,
        revealed_to: PlayerSet { one: false, two: false, three: false, four: false },
        attached_to: None,
    }
}

fn catalog() -> Vec<CardState> {
    let mut catalog = vec![];
    for i in 0..PRINTED_CARD_COUNT {
        catalog.push(blank(if i == 1 { Some(2) } else { None }));
    }
    catalog
}

#[test]
fn decks_hold_their_cards() {
    assert_eq!(
        find_deck(DeckName::Dandan).cards,
        vec![
            (PrintedCardId::Island, 30),
            (PrintedCardId::CrystalSpray, 15),
            (PrintedCardId::Dandan, 15),
            (PrintedCardId::DanceOfTheSkywise, 15),
        ]
    );
    let green = find_deck(DeckName::GreenVanilla).cards;
    assert_eq!(green.len(), 36);
    assert_eq!(green[0], (PrintedCardId::Forest, 35));
    assert_eq!(green.iter().map(|e| e.1).sum::<u64>(), 70);
    assert_eq!(find_deck(DeckName::SomeDandans).cards.iter().map(|e| e.1).sum::<u64>(), 70);
}

#[test]
fn new_game_puts_decks_into_libraries() {
    let catalog = catalog();
    let game = create_game(PlayerType::Human(5), DeckName::GrizzlyBearGiantGrowth, PlayerType::Agent, DeckName::AllDandans, &catalog);
    assert_eq!(game.cards.len(), 120);
    assert_eq!(game.libraries[0], (0..60).collect::<Vec<u64>>());
    assert_eq!(game.libraries[1], (60..120).collect::<Vec<u64>>());
    assert!(game.libraries[2].is_empty() && game.libraries[3].is_empty());
    assert_eq!(game.status, GameStatus::Setup);
    assert_eq!(game.step, GamePhaseStep::Untap);
    assert_eq!(game.turn, TurnData { active_player: PlayerName::One, turn_number: 0 });
    assert_eq!(game.players[0].life, 20);
    assert_eq!(game.players[1].life, 20);
    assert_eq!(game.players[0].player_type, PlayerType::Human(5));
    assert_eq!(game.players[0].deck_name, Some(DeckName::GrizzlyBearGiantGrowth));
    assert_eq!(game.players[1].player_type, PlayerType::Agent);
    assert_eq!(game.players[1].deck_name, Some(DeckName::AllDandans));
    assert_eq!(game.players[2].player_type, PlayerType::Nobody);
    assert_eq!(game.players[3].deck_name, None);
    let bear = &game.cards[20];
    assert_eq!(bear.id, 20);
    assert_eq!(bear.owner, PlayerName::One);
    assert_eq!(bear.zone, Zone::Library);
    assert_eq!(bear.power, Some(2));
    assert!(!bear.tapped && !bear.face_up && !bear.is_token && bear.damage == 0);
    assert_eq!(game.cards[0].power, None);
    assert_eq!(game.cards[60].owner, PlayerName::Two);
    assert_eq!(game.cards[60].controller, PlayerName::Two);
    assert_eq!(game.cards[119].id, 119);
}

#[test]
fn starting_a_game_draws_opening_hands() {
    let catalog = catalog();
    let mut game = create_game(PlayerType::Human(5), DeckName::Dandan, PlayerType::Human(6), DeckName::AllDandans, &catalog);
    start_game(&mut game);
    assert_eq!(game.status, GameStatus::Playing);
    assert_eq!(game.step, GamePhaseStep::Upkeep);
    assert_eq!(game.libraries[0].len(), 68);
    assert_eq!(game.libraries[1].len(), 53);
    let hand_one: Vec<u64> = (0..game.cards.len() as u64)
        .filter(|&i| game.cards[i as usize].zone == Zone::Hand && game.cards[i as usize].owner == PlayerName::One)
        .collect();
    assert_eq!(hand_one, (68..75).collect::<Vec<u64>>());
    assert_eq!(game.cards.iter().filter(|c| c.zone == Zone::Hand).count(), 14);
}
