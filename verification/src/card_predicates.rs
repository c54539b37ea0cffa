//! Predicates on cards, each `None` when there is no such card.
use crate::card_queries::{card_types, colors, land_subtypes, spec_colors};
use crate::game_state::{spec_card_types, GameState};
use crate::primitives::{Color, LandType};
use crate::spell_planner::spec_land_subtypes;
use crate::text_change_queries::{color, land_subtype};
use vstd::prelude::*;

verus! {

/// Holds of every card.
pub fn always_true(_game: &GameState, _id: u64) -> (b: Option<bool>)
    ensures
        b == Some(true),
{
    Some(true)
}

/// Whether card `id` is a creature.
pub fn creature(game: &GameState, id: u64) -> (b: Option<bool>)
    requires
        game.wf(),
    ensures
        b == (match game.spec_card(id) {
            Some(c) => Some(spec_card_types(c).creature),
            None => None::<bool>,
        }),
{
    match card_types(game, id) {
        Some(types) => Some(types.creature),
        None => None,
    }
}

/// Whether card `id` is a planeswalker.
pub fn planeswalker(game: &GameState, id: u64) -> (b: Option<bool>)
    requires
        game.wf(),
    ensures
        b == (match game.spec_card(id) {
            Some(c) => Some(spec_card_types(c).planeswalker),
            None => None::<bool>,
        }),
{
    match card_types(game, id) {
        Some(types) => Some(types.planeswalker),
        None => None,
    }
}

/// Whether card `id` is a land.
pub fn land(game: &GameState, id: u64) -> (b: Option<bool>)
    requires
        game.wf(),
    ensures
        b == (match game.spec_card(id) {
            Some(c) => Some(spec_card_types(c).land),
            None => None::<bool>,
        }),
{
    match card_types(game, id) {
        Some(types) => Some(types.land),
        None => None,
    }
}

/// Whether card `id` is a battle.
pub fn battle(game: &GameState, id: u64) -> (b: Option<bool>)
    requires
        game.wf(),
    ensures
        b == (match game.spec_card(id) {
            Some(c) => Some(spec_card_types(c).battle),
            None => None::<bool>,
        }),
{
    match card_types(game, id) {
        Some(types) => Some(types.battle),
        None => None,
    }
}

/// Whether card `id` is not a land.
pub fn nonland(game: &GameState, id: u64) -> (b: Option<bool>)
    requires
        game.wf(),
    ensures
        b == (match game.spec_card(id) {
            Some(c) => Some(!spec_card_types(c).land),
            None => None::<bool>,
        }),
{
    match land(game, id) {
        Some(l) => Some(!l),
        None => None,
    }
}

/// Whether card `id` has the land type Plains.
pub fn plains(game: &GameState, id: u64) -> (b: Option<bool>)
    requires
        game.wf(),
    ensures
        b == (match game.spec_card(id) {
            Some(c) => Some(spec_land_subtypes(c).has(LandType::Plains)),
            None => None::<bool>,
        }),
{
    match land_subtypes(game, id) {
        Some(types) => Some(types.contains(land_subtype(game, LandType::Plains))),
        None => None,
    }
}

/// Whether card `id` has the land type Island.
pub fn island(game: &GameState, id: u64) -> (b: Option<bool>)
    requires
        game.wf(),
    ensures
        b == (match game.spec_card(id) {
            Some(c) => Some(spec_land_subtypes(c).has(LandType::Island)),
            None => None::<bool>,
        }),
{
    match land_subtypes(game, id) {
        Some(types) => Some(types.contains(land_subtype(game, LandType::Island))),
        None => None,
    }
}

/// Whether card `id` has the land type Swamp.
pub fn swamp(game: &GameState, id: u64) -> (b: Option<bool>)
    requires
        game.wf(),
    ensures
        b == (match game.spec_card(id) {
            Some(c) => Some(spec_land_subtypes(c).has(LandType::Swamp)),
            None => None::<bool>,
        }),
{
    match land_subtypes(game, id) {
        Some(types) => Some(types.contains(land_subtype(game, LandType::Swamp))),
        None => None,
    }
}

/// Whether card `id` has the land type Mountain.
pub fn mountain(game: &GameState, id: u64) -> (b: Option<bool>)
    requires
        game.wf(),
    ensures
        b == (match game.spec_card(id) {
            Some(c) => Some(spec_land_subtypes(c).has(LandType::Mountain)),
            None => None::<bool>,
        }),
{
    match land_subtypes(game, id) {
        Some(types) => Some(types.contains(land_subtype(game, LandType::Mountain))),
        None => None,
    }
}

/// Whether card `id` has the land type Forest.
pub fn forest(game: &GameState, id: u64) -> (b: Option<bool>)
    requires
        game.wf(),
    ensures
        b == (match game.spec_card(id) {
            Some(c) => Some(spec_land_subtypes(c).has(LandType::Forest)),
            None => None::<bool>,
        }),
{
    match land_subtypes(game, id) {
        Some(types) => Some(types.contains(land_subtype(game, LandType::Forest))),
        None => None,
    }
}

/// Whether card `id` is white.
pub fn white(game: &GameState, id: u64) -> (b: Option<bool>)
    requires
        game.wf(),
    ensures
        b == (match game.spec_card(id) {
            Some(c) => Some(spec_colors(c).white),
            None => None::<bool>,
        }),
{
    match colors(game, id) {
        Some(c) => Some(c.contains(color(game, Color::White))),
        None => None,
    }
}

/// Whether card `id` is blue.
pub fn blue(game: &GameState, id: u64) -> (b: Option<bool>)
    requires
        game.wf(),
    ensures
        b == (match game.spec_card(id) {
            Some(c) => Some(spec_colors(c).blue),
            None => None::<bool>,
        }),
{
    match colors(game, id) {
        Some(c) => Some(c.contains(color(game, Color::Blue))),
        None => None,
    }
}

/// Whether card `id` is black.
pub fn black(game: &GameState, id: u64) -> (b: Option<bool>)
    requires
        game.wf(),
    ensures
        b == (match game.spec_card(id) {
            Some(c) => Some(spec_colors(c).black),
            None => None::<bool>,
        }),
{
    match colors(game, id) {
        Some(c) => Some(c.contains(color(game, Color::Black))),
        None => None,
    }
}

/// Whether card `id` is red.
pub fn red(game: &GameState, id: u64) -> (b: Option<bool>)
    requires
        game.wf(),
    ensures
        b == (match game.spec_card(id) {
            Some(c) => Some(spec_colors(c).red),
            None => None::<bool>,
        }),
{
    match colors(game, id) {
        Some(c) => Some(c.contains(color(game, Color::Red))),
        None => None,
    }
}

/// Whether card `id` is green.
pub fn green(game: &GameState, id: u64) -> (b: Option<bool>)
    requires
        game.wf(),
    ensures
        b == (match game.spec_card(id) {
            Some(c) => Some(spec_colors(c).green),
            None => None::<bool>,
        }),
{
    match colors(game, id) {
        Some(c) => Some(c.contains(color(game, Color::Green))),
        None => None,
    }
}

} // verus!
