//! Passing priority: once every player has passed in a row, the top of the
//! stack resolves, or the turn moves on when the stack is empty.
use crate::game_state::GameState;
use crate::player_queries::{next_player_after, seat_supported, spec_next_player_after};
use crate::primitives::{PlayerName, PlayerSet};
use crate::resolve::{resolve_top_of_stack, resolved};
use crate::steps::{advance, advanced, can_advance, nobody, players_seated};
use vstd::prelude::*;

verus! {

/// `set` with `player` added.
pub open spec fn with_player(set: PlayerSet, player: PlayerName) -> PlayerSet {
    PlayerSet {
        one: set.one || player == PlayerName::One,
        two: set.two || player == PlayerName::Two,
        three: set.three || player == PlayerName::Three,
        four: set.four || player == PlayerName::Four,
    }
}

/// Whether every player will have passed once `player` passes.
pub open spec fn all_passed(game: &GameState, player: PlayerName) -> bool {
    with_player(game.passed, player).count() == game.all_players.count()
}

/// The game after `player` passes priority: when all players have passed,
/// the passes are cleared and the top of the stack resolves, or the turn
/// moves on if the stack is empty; otherwise the next player receives
/// priority.
pub open spec fn passed_priority(old: &GameState, new: &GameState, player: PlayerName) -> bool {
    if all_passed(old, player) {
        let cleared = GameState { passed: nobody(), ..*old };
        if old.stack@.len() == 0 {
            advanced(&cleared, new)
        } else {
            resolved(&cleared, new)
        }
    } else {
        *new == (GameState {
            passed: with_player(old.passed, player),
            priority: spec_next_player_after(old.all_players.count(), old.priority),
            ..*old
        })
    }
}

/// What passing priority needs: `player` holds priority, and the turn can
/// move on if it will.
pub open spec fn can_pass(game: &GameState, player: PlayerName) -> bool {
    &&& game.priority == player
    &&& all_passed(game, player) && game.stack@.len() == 0 ==> can_advance(game)
}

/// `player`, who holds priority, passes it.
pub fn pass(game: &mut GameState, player: PlayerName)
    requires
        old(game).wf(),
        players_seated(old(game)),
        can_pass(old(game), player),
    ensures
        final(game).wf(),
        players_seated(final(game)),
        passed_priority(old(game), final(game), player),
{
    game.passed.insert(player);
    proof {
        assert(game.passed == with_player(old(game).passed, player)) by {
            assert(game.passed.has(PlayerName::One) == with_player(old(game).passed, player).one);
            assert(game.passed.has(PlayerName::Two) == with_player(old(game).passed, player).two);
            assert(game.passed.has(PlayerName::Three) == with_player(old(game).passed, player).three);
            assert(game.passed.has(PlayerName::Four) == with_player(old(game).passed, player).four);
        }
    }
    if game.passed.len() == game.all_players.len() {
        game.passed.clear();
        proof {
            assert(game.passed == nobody()) by {
                assert(!game.passed.has(PlayerName::One));
                assert(!game.passed.has(PlayerName::Two));
                assert(!game.passed.has(PlayerName::Three));
                assert(!game.passed.has(PlayerName::Four));
            }
            assert(*game == (GameState { passed: nobody(), ..*old(game) }));
        }
        if game.stack.len() == 0 {
            advance(game);
        } else {
            resolve_top_of_stack(game);
        }
    } else {
        game.priority = next_player_after(game, game.priority);
        proof {
            crate::player_queries::law_turn_order_cycles(old(game).all_players.count(), old(game).priority);
            reveal_with_fuel(crate::player_queries::nth_player_after, 2);
            assert(crate::player_queries::nth_player_after(old(game).all_players.count(), old(game).priority, 1) == game.priority);
        }
    }
}

/// In a game of two players where nobody has passed and the stack is empty,
/// when the player with priority passes and then the other player passes,
/// the turn moves on to its next step.
pub proof fn law_two_passes_move_the_turn_on(g0: &GameState, g1: &GameState, g2: &GameState)
    requires
        g0.all_players.count() == 2,
        seat_supported(2, g0.priority),
        g0.passed == nobody(),
        g0.stack@.len() == 0,
        passed_priority(g0, g1, g0.priority),
        passed_priority(g1, g2, g1.priority),
    ensures
        g1.priority == spec_next_player_after(2, g0.priority),
        g1.priority != g0.priority,
        advanced(&GameState { priority: g1.priority, ..*g0 }, g2),
{
    let p = g0.priority;
    assert(with_player(nobody(), p).count() == 1);
    let q = spec_next_player_after(2, p);
    assert(q != p);
    assert(with_player(with_player(nobody(), p), q).count() == 2);
    assert(GameState { passed: nobody(), ..*g1 } == GameState { priority: g1.priority, ..*g0 });
}

} // verus!
