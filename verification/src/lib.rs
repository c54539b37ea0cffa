//! Verified rules logic for a card game engine, together with the game of
//! Nim used to exercise game-playing agents.
use vstd::prelude::*;

pub mod actions;
pub mod auto_pass;
pub mod card_parser;
pub mod card_predicates;
pub mod card_queries;
pub mod change_controller;
pub mod combat_actions;
pub mod combat_queries;
pub mod create_copy;
pub mod game_state;
pub mod id_collections;
pub mod legality;
pub mod move_card;
pub mod new_game;
pub mod nim;
pub mod permanents;
pub mod play_card;
pub mod player_queries;
pub mod players;
pub mod primitives;
pub mod spell_planner;
pub mod spells;
pub mod state_based_actions;
pub mod steps;
pub mod text_change_queries;
pub mod priority;
pub mod prompts;
pub mod resolve;

verus! {

} // verus!
