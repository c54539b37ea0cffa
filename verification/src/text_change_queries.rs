//! Text-changing effects replace a land type or a color named in a card's
//! rules text by another. No card carries such an effect, so each query
//! gives back what it is asked about.
use crate::game_state::GameState;
use crate::primitives::{Color, LandType};
use vstd::prelude::*;

verus! {

/// The land type that has replaced `named` in the text being read.
pub fn land_subtype(_game: &GameState, named: LandType) -> (replaced: LandType)
    ensures
        replaced == named,
{
    named
}

/// The color that has replaced `named` in the text being read.
pub fn color(_game: &GameState, named: Color) -> (replaced: Color)
    ensures
        replaced == named,
{
    named
}

} // verus!
