use spellclash::id_collections::IdSet;
use spellclash::legality::LegalActions;
use spellclash::primitives::PlayerName;
use spellclash::prompts::{
    can_take_action, compute, execute, CardOrderLocation, ChoicePrompt, MultipleChoicePrompt,
    PickNumberPrompt, Prompt, PromptAction, PromptExecutionResult, PromptResponse, PromptType,
    Quantity, SelectOrderPrompt, Text,
};

const AGENT: LegalActions = LegalActions { for_human_player: false };
const HUMAN: LegalActions = LegalActions { for_human_player: true };

fn order_prompt(cards: Vec<(CardOrderLocation, Vec<u64>)>, quantity: Quantity) -> Prompt {
    Prompt {
        player: PlayerName::One,
        label: None,
        prompt_type: PromptType::SelectOrder(SelectOrderPrompt {
            cards,
            moved: IdSet::new(),
            quantity,
        }),
    }
}

#[test]
fn pick_number_offers_each_number_in_range() {
    let prompt = Prompt {
        player: PlayerName::One,
        label: Some(Text::SelectNumber),
        prompt_type: PromptType::PickNumber(PickNumberPrompt { minimum: 2, maximum: 4 }),
    };
    assert_eq!(
        compute(&prompt, PlayerName::One, HUMAN),
        vec![PromptAction::PickNumber(2), PromptAction::PickNumber(3), PromptAction::PickNumber(4)]
    );
}

#[test]
fn empty_number_range_offers_nothing() {
    let prompt = Prompt {
        player: PlayerName::One,
        label: None,
        prompt_type: PromptType::PickNumber(PickNumberPrompt { minimum: 5, maximum: 4 }),
    };
    assert!(compute(&prompt, PlayerName::One, HUMAN).is_empty());
}

#[test]
fn prompt_for_another_player_offers_nothing() {
    let prompt = Prompt {
        player: PlayerName::Two,
        label: None,
        prompt_type: PromptType::PickNumber(PickNumberPrompt { minimum: 0, maximum: 3 }),
    };
    assert!(compute(&prompt, PlayerName::One, HUMAN).is_empty());
    assert!(!can_take_action(&prompt, PlayerName::One, PromptAction::PickNumber(1)));
    assert!(can_take_action(&prompt, PlayerName::Two, PromptAction::PickNumber(1)));
}

#[test]
fn entity_and_multiple_choice_offers() {
    let entity = Prompt {
        player: PlayerName::One,
        label: Some(Text::SelectTarget),
        prompt_type: PromptType::EntityChoice(ChoicePrompt { optional: false, choices: vec![5, 7] }),
    };
    assert_eq!(
        compute(&entity, PlayerName::One, AGENT),
        vec![PromptAction::SelectEntity(5), PromptAction::SelectEntity(7)]
    );
    let choice = Prompt {
        player: PlayerName::One,
        label: Some(Text::SelectMode),
        prompt_type: PromptType::MultipleChoice(MultipleChoicePrompt {
            choices: vec![Text::SelectMode, Text::SelectTarget],
        }),
    };
    assert_eq!(
        compute(&choice, PlayerName::One, AGENT),
        vec![PromptAction::SelectChoice(0), PromptAction::SelectChoice(1)]
    );
}

#[test]
fn agent_ordering_moves_out_of_unordered_only() {
    let prompt = order_prompt(
        vec![(CardOrderLocation::Unordered, vec![1, 2]), (CardOrderLocation::TopOfLibrary, vec![])],
        Quantity::Ordered(1),
    );
    assert_eq!(
        compute(&prompt, PlayerName::One, AGENT),
        vec![
            PromptAction::SelectOrder(1, CardOrderLocation::TopOfLibrary, 0),
            PromptAction::SelectOrder(2, CardOrderLocation::TopOfLibrary, 0),
        ]
    );
}

#[test]
fn human_ordering_offers_every_other_position() {
    let prompt = order_prompt(
        vec![(CardOrderLocation::Unordered, vec![1, 2]), (CardOrderLocation::TopOfLibrary, vec![])],
        Quantity::Ordered(1),
    );
    assert_eq!(
        compute(&prompt, PlayerName::One, HUMAN),
        vec![
            PromptAction::SelectOrder(1, CardOrderLocation::Unordered, 1),
            PromptAction::SelectOrder(1, CardOrderLocation::Unordered, 2),
            PromptAction::SelectOrder(1, CardOrderLocation::TopOfLibrary, 0),
            PromptAction::SelectOrder(2, CardOrderLocation::Unordered, 0),
            PromptAction::SelectOrder(2, CardOrderLocation::Unordered, 2),
            PromptAction::SelectOrder(2, CardOrderLocation::TopOfLibrary, 0),
        ]
    );
}

#[test]
fn placing_a_card_moves_it_and_reaches_the_maximum() {
    let prompt = order_prompt(
        vec![(CardOrderLocation::Unordered, vec![1, 2]), (CardOrderLocation::TopOfLibrary, vec![])],
        Quantity::Ordered(1),
    );
    let result = execute(prompt, PromptAction::SelectOrder(1, CardOrderLocation::TopOfLibrary, 0));
    let PromptExecutionResult::Prompt(next) = result else {
        panic!("expected the prompt to stay open");
    };
    let PromptType::SelectOrder(data) = &next.prompt_type else {
        panic!("expected an ordering prompt");
    };
    assert_eq!(
        data.cards,
        vec![(CardOrderLocation::Unordered, vec![2]), (CardOrderLocation::TopOfLibrary, vec![1])]
    );
    assert_eq!(data.moved.ids, vec![1]);
    assert_eq!(data.count_ordered_cards(), 1);
    assert_eq!(data.cards_in_location(CardOrderLocation::TopOfLibrary), vec![1]);
    assert_eq!(compute(&next, PlayerName::One, AGENT), vec![PromptAction::SubmitCardSelection]);
}

#[test]
fn placing_in_a_new_location_adds_it() {
    let prompt = order_prompt(vec![(CardOrderLocation::Unordered, vec![4])], Quantity::AnyNumber);
    let result = execute(prompt, PromptAction::SelectOrder(4, CardOrderLocation::Graveyard, 0));
    let PromptExecutionResult::Prompt(next) = result else {
        panic!("expected the prompt to stay open");
    };
    let PromptType::SelectOrder(data) = &next.prompt_type else {
        panic!("expected an ordering prompt");
    };
    assert_eq!(
        data.cards,
        vec![(CardOrderLocation::Unordered, vec![]), (CardOrderLocation::Graveyard, vec![4])]
    );
}

#[test]
fn any_number_can_always_be_submitted() {
    let prompt = order_prompt(vec![(CardOrderLocation::Unordered, vec![3])], Quantity::AnyNumber);
    let actions = compute(&prompt, PlayerName::One, AGENT);
    assert_eq!(actions, vec![PromptAction::SubmitCardSelection]);
}

#[test]
fn submitting_answers_with_the_order() {
    let prompt = order_prompt(
        vec![(CardOrderLocation::TopOfLibrary, vec![8, 9])],
        Quantity::AnyNumber,
    );
    match execute(prompt, PromptAction::SubmitCardSelection) {
        PromptExecutionResult::PromptResponse(PromptResponse::SelectOrder(cards)) => {
            assert_eq!(cards, vec![(CardOrderLocation::TopOfLibrary, vec![8, 9])]);
        }
        _ => panic!("expected an ordering answer"),
    }
}

#[test]
fn simple_answers() {
    let prompt = Prompt {
        player: PlayerName::One,
        label: None,
        prompt_type: PromptType::PickNumber(PickNumberPrompt { minimum: 0, maximum: 9 }),
    };
    assert!(matches!(
        execute(prompt, PromptAction::PickNumber(3)),
        PromptExecutionResult::PromptResponse(PromptResponse::PickNumber(3))
    ));
    let prompt = Prompt {
        player: PlayerName::One,
        label: None,
        prompt_type: PromptType::EntityChoice(ChoicePrompt { optional: true, choices: vec![1] }),
    };
    assert!(matches!(
        execute(prompt, PromptAction::SelectEntity(1)),
        PromptExecutionResult::PromptResponse(PromptResponse::EntityChoice(1))
    ));
}

#[test]
fn agent_never_moves_a_card_twice() {
    let prompt = order_prompt(
        vec![(CardOrderLocation::Unordered, vec![1, 2]), (CardOrderLocation::TopOfLibrary, vec![])],
        Quantity::Ordered(2),
    );
    let result = execute(prompt, PromptAction::SelectOrder(1, CardOrderLocation::TopOfLibrary, 0));
    let PromptExecutionResult::Prompt(next) = result else {
        panic!("expected the prompt to stay open");
    };
    assert_eq!(
        compute(&next, PlayerName::One, AGENT),
        vec![
            PromptAction::SelectOrder(2, CardOrderLocation::TopOfLibrary, 0),
            PromptAction::SelectOrder(2, CardOrderLocation::TopOfLibrary, 1),
        ]
    );
}
