//! Resolving the top of the stack. Cards here have no abilities, so a spell
//! that resolves only moves: a permanent spell enters the battlefield face
//! up, any other spell goes to its owner's graveyard.
use crate::game_state::{spec_card_types, GameState};
use crate::move_card::{moved, run};
use crate::permanents::{faced_up, turn_face_up};
use crate::primitives::Zone;
use vstd::prelude::*;

verus! {

/// The game after card `id`, the top of the stack, resolves.
pub open spec fn card_resolved(old: &GameState, new: &GameState, id: u64) -> bool {
    if spec_card_types(old.cards@[id as int]).spec_is_permanent() {
        exists|up: GameState| #[trigger] faced_up(old, &up, id) && moved(&up, new, id, Zone::Battlefield)
    } else {
        moved(old, new, id, Zone::Graveyard)
    }
}

/// The game after the top of the stack resolves; nothing happens when the
/// stack is empty.
pub open spec fn resolved(old: &GameState, new: &GameState) -> bool {
    if old.stack@.len() == 0 {
        *new == *old
    } else {
        card_resolved(old, new, old.stack@.last())
    }
}

/// Resolves the top item of the stack, if there is one.
pub fn resolve_top_of_stack(game: &mut GameState)
    requires
        old(game).wf(),
    ensures
        final(game).wf(),
        resolved(old(game), final(game)),
{
    let size = game.stack.len();
    if size == 0 {
        return;
    }
    let id = game.stack[size - 1];
    proof {
        assert(game.stack@[size - 1] < game.cards@.len());
    }
    resolve_top_card_of_stack(game, id);
}

/// Resolves card `id`: a permanent spell enters the battlefield face up,
/// any other spell goes to its owner's graveyard.
fn resolve_top_card_of_stack(game: &mut GameState, id: u64)
    requires
        old(game).wf(),
        id < old(game).cards@.len(),
    ensures
        final(game).wf(),
        card_resolved(old(game), final(game), id),
{
    assert(id < game.cards.len());
    let i = id as usize;
    assert(i == id);
    let types = crate::game_state::card_types(&game.cards[i]);
    if types.is_permanent() {
        turn_face_up(game, id);
        let ghost up = *game;
        run(game, id, Zone::Battlefield);
        proof {
            assert(faced_up(old(game), &up, id));
            assert(moved(&up, game, id, Zone::Battlefield));
        }
    } else {
        run(game, id, Zone::Graveyard);
    }
}

} // verus!
