//! Characteristics of cards as the game sees them: a face-down permanent is
//! a 2/2 with no printed characteristics.
use crate::game_state::{spec_card_types, CardState, GameState};
use crate::primitives::{CardTypes, Colors, LandSubtypes, Zone};
use crate::spell_planner::spec_land_subtypes;
use vstd::prelude::*;

verus! {

/// Whether the card shows no face: it is face down on the battlefield.
pub open spec fn shows_no_face(card: CardState) -> bool {
    card.zone == Zone::Battlefield && !card.face_up
}

/// The power of a card: 2 when it shows no face, else its printed power, or
/// 0 when none is printed.
pub open spec fn spec_power(card: CardState) -> i64 {
    if shows_no_face(card) {
        2
    } else {
        match card.power {
            Some(p) => p,
            None => 0,
        }
    }
}

/// The toughness of a card: 2 when it shows no face, else its printed
/// toughness, or 0 when none is printed.
pub open spec fn spec_toughness(card: CardState) -> i64 {
    if shows_no_face(card) {
        2
    } else {
        match card.toughness {
            Some(t) => t,
            None => 0,
        }
    }
}

/// The power of card `id`, or `None` when there is no such card.
pub fn power(game: &GameState, id: u64) -> (p: Option<i64>)
    requires
        game.wf(),
    ensures
        p == (if id < game.cards@.len() {
            Some(spec_power(game.cards@[id as int]))
        } else {
            None::<i64>
        }),
{
    let card = match game.card(id) {
        Some(c) => c,
        None => {
            return None;
        },
    };
    if card.zone == Zone::Battlefield && !card.face_up {
        Some(2)
    } else {
        match card.power {
            Some(p) => Some(p),
            None => Some(0),
        }
    }
}

/// The toughness of card `id`, or `None` when there is no such card.
pub fn toughness(game: &GameState, id: u64) -> (t: Option<i64>)
    requires
        game.wf(),
    ensures
        t == (if id < game.cards@.len() {
            Some(spec_toughness(game.cards@[id as int]))
        } else {
            None::<i64>
        }),
{
    let card = match game.card(id) {
        Some(c) => c,
        None => {
            return None;
        },
    };
    if card.zone == Zone::Battlefield && !card.face_up {
        Some(2)
    } else {
        match card.toughness {
            Some(t) => Some(t),
            None => Some(0),
        }
    }
}

/// The colors of a card: none when it shows no face, else its printed
/// colors.
pub open spec fn spec_colors(card: CardState) -> Colors {
    if shows_no_face(card) {
        Colors { white: false, blue: false, black: false, red: false, green: false }
    } else {
        card.colors
    }
}

/// The card types of card `id`, or `None` when there is no such card.
pub fn card_types(game: &GameState, id: u64) -> (types: Option<CardTypes>)
    requires
        game.wf(),
    ensures
        types == (match game.spec_card(id) {
            Some(c) => Some(spec_card_types(c)),
            None => None::<CardTypes>,
        }),
{
    match game.card(id) {
        Some(card) => Some(crate::game_state::card_types(card)),
        None => None,
    }
}

/// The land types of card `id`, or `None` when there is no such card.
pub fn land_subtypes(game: &GameState, id: u64) -> (types: Option<LandSubtypes>)
    requires
        game.wf(),
    ensures
        types == (match game.spec_card(id) {
            Some(c) => Some(spec_land_subtypes(c)),
            None => None::<LandSubtypes>,
        }),
{
    match game.card(id) {
        Some(card) => {
            if card.zone == Zone::Battlefield && !card.face_up {
                Some(
                    LandSubtypes {
                        plains: false,
                        island: false,
                        swamp: false,
                        mountain: false,
                        forest: false,
                        others: 0,
                    },
                )
            } else {
                Some(card.land_subtypes)
            }
        },
        None => None,
    }
}

/// The colors of card `id`, or `None` when there is no such card.
pub fn colors(game: &GameState, id: u64) -> (colors: Option<Colors>)
    requires
        game.wf(),
    ensures
        colors == (match game.spec_card(id) {
            Some(c) => Some(spec_colors(c)),
            None => None::<Colors>,
        }),
{
    match game.card(id) {
        Some(card) => {
            if card.zone == Zone::Battlefield && !card.face_up {
                Some(Colors { white: false, blue: false, black: false, red: false, green: false })
            } else {
                Some(card.colors)
            }
        },
        None => None,
    }
}

} // verus!
