//! Changes to spells on the stack.
use crate::game_state::GameState;
use crate::move_card::{moved, run};
use crate::primitives::Zone;
use vstd::prelude::*;

verus! {

/// Counters spell `target`: it goes to its owner's graveyard. `None`,
/// changing nothing, when there is no such card.
pub fn counter(game: &mut GameState, target: u64) -> (result: Option<()>)
    requires
        old(game).wf(),
    ensures
        final(game).wf(),
        result is None <==> target >= old(game).cards@.len(),
        result is None ==> *final(game) == *old(game),
        result is Some ==> moved(old(game), final(game), target, Zone::Graveyard),
{
    run(game, target, Zone::Graveyard)
}

} // verus!
