//! Changes to players: damage to a player lowers their life total.
use crate::game_state::{pending_events, GameState, PlayerOptions, PlayerState, StateBasedEvent};
use crate::primitives::{player_index, PlayerName};
use vstd::prelude::*;

verus! {

/// The game after `player` is dealt `damage`: their life total goes down
/// by it and the decrease is noted for the next check of state-based
/// actions.
pub open spec fn player_damaged(old: &GameState, new: &GameState, player: PlayerName, damage: u64) -> bool {
    &&& new.players@ == old.players@.update(
        player_index(player) as int,
        PlayerState {
            life: (old.spec_player(player).life - (damage as i64)) as i64,
            ..old.spec_player(player)
        },
    )
    &&& new.state_based_events is Some
    &&& pending_events(new.state_based_events) == pending_events(old.state_based_events).push(
        StateBasedEvent::LifeTotalDecrease(player),
    )
    &&& new.status == old.status
    &&& new.step == old.step
    &&& new.turn == old.turn
    &&& new.priority == old.priority
    &&& new.passed == old.passed
    &&& new.all_players == old.all_players
    &&& new.cards == old.cards
    &&& new.libraries == old.libraries
    &&& new.graveyards == old.graveyards
    &&& new.stack == old.stack
    &&& new.combat == old.combat
    &&& new.history == old.history
    &&& new.agent_search == old.agent_search
    &&& new.control_changing_effects == old.control_changing_effects
    &&& new.this_turn == old.this_turn
}

/// Deals `damage` to `player`: their life total goes down by it, and the
/// decrease is noted for the next check of state-based actions.
pub fn deal_damage(game: &mut GameState, player: PlayerName, damage: u64)
    requires
        old(game).wf(),
        i64::MIN <= old(game).spec_player(player).life - (damage as i64),
        old(game).spec_player(player).life - (damage as i64) <= i64::MAX,
    ensures
        final(game).wf(),
        player_damaged(old(game), final(game), player, damage),
{
    let i = player.index();
    let mut state = PlayerState {
        life: 0,
        lands_played: 0,
        options: PlayerOptions {
            hold_priority: false,
            auto_pass: false,
            active_turn_stops: Vec::new(),
            inactive_turn_stops: Vec::new(),
        },
        player_type: crate::game_state::PlayerType::Nobody,
        deck_name: None,
    };
    game.players.set_and_swap(i, &mut state);
    state.life = state.life - (damage as i64);
    game.players.set(i, state);
    proof {
        assert(game.players@ =~= old(game).players@.update(
            player_index(player) as int,
            PlayerState {
                life: (old(game).spec_player(player).life - (damage as i64)) as i64,
                ..old(game).spec_player(player)
            },
        ));
    }
    game.add_state_based_event(StateBasedEvent::LifeTotalDecrease(player));
}

} // verus!
