//! Queries about the players of a game: turn order, who is inactive, and how
//! many lands a player may still play this turn.
use crate::game_state::GameState;
use crate::primitives::{player_at, player_index, PlayerName, PlayerSet};
use vstd::prelude::*;

verus! {

/// Turn order is defined for two to four players, each seated in one of the
/// first seats.
pub open spec fn seat_supported(count: nat, player: PlayerName) -> bool {
    2 <= count <= 4 && player_index(player) < count
}

/// The player after `player` in turn order at a table of `count` players.
pub open spec fn spec_next_player_after(count: nat, player: PlayerName) -> PlayerName {
    if player_index(player) + 1 < count {
        player_at(player_index(player) + 1)
    } else {
        PlayerName::One
    }
}

/// The player `n` seats after `player` in turn order.
pub open spec fn nth_player_after(count: nat, player: PlayerName, n: nat) -> PlayerName
    decreases n,
{
    if n == 0 {
        player
    } else {
        spec_next_player_after(count, nth_player_after(count, player, (n - 1) as nat))
    }
}

/// The player after `player` in turn order.
pub fn next_player_after(game: &GameState, player: PlayerName) -> (next: PlayerName)
    requires
        seat_supported(game.all_players.count(), player),
    ensures
        next == spec_next_player_after(game.all_players.count(), player),
{
    match game.all_players.len() {
        2 => match player {
            PlayerName::One => PlayerName::Two,
            _ => PlayerName::One,
        },
        3 => match player {
            PlayerName::One => PlayerName::Two,
            PlayerName::Two => PlayerName::Three,
            _ => PlayerName::One,
        },
        _ => match player {
            PlayerName::One => PlayerName::Two,
            PlayerName::Two => PlayerName::Three,
            PlayerName::Three => PlayerName::Four,
            PlayerName::Four => PlayerName::One,
        },
    }
}

/// Number of players in the game.
pub fn player_count(game: &GameState) -> (n: usize)
    ensures
        n == game.all_players.count(),
{
    game.all_players.len()
}

/// The player whose turn comes next.
pub fn next_player(game: &GameState) -> (next: PlayerName)
    requires
        seat_supported(game.all_players.count(), game.turn.active_player),
    ensures
        next == spec_next_player_after(game.all_players.count(), game.turn.active_player),
{
    next_player_after(game, game.turn.active_player)
}

/// Every player in the game.
pub fn all_players(game: &GameState) -> (players: PlayerSet)
    ensures
        players == game.all_players,
{
    game.all_players
}

/// The players in the game other than the active player.
pub fn inactive_players(game: &GameState) -> (players: PlayerSet)
    ensures
        forall|p: PlayerName|
            players.has(p) <==> (game.all_players.has(p) && p != game.turn.active_player),
{
    all_players(game).difference(&PlayerSet::only(game.turn.active_player))
}

/// Land plays left for `player`: one per turn, on their own turn only.
pub open spec fn spec_land_plays_remaining(game: &GameState, player: PlayerName) -> nat {
    if game.turn.active_player == player && game.spec_player(player).lands_played == 0 {
        1
    } else {
        0
    }
}

/// Number of lands `player` may still play this turn.
pub fn land_plays_remaining(game: &GameState, player: PlayerName) -> (n: usize)
    requires
        game.wf(),
    ensures
        n == spec_land_plays_remaining(game, player),
{
    if game.turn.active_player == player {
        if game.player(player).lands_played == 0 {
            1
        } else {
            0
        }
    } else {
        0
    }
}

/// Turn order is a cycle: from any seat, after as many turns as there are
/// players the turn comes back to that seat, and no earlier.
pub proof fn law_turn_order_cycles(count: nat, player: PlayerName)
    requires
        seat_supported(count, player),
    ensures
        nth_player_after(count, player, count) == player,
        forall|n: nat| 0 < n < count ==> #[trigger] nth_player_after(count, player, n) != player,
        forall|n: nat| #[trigger] seat_supported(count, nth_player_after(count, player, n)),
{
    reveal_with_fuel(nth_player_after, 5);
    assert(count == 2 || count == 3 || count == 4);
    assert forall|n: nat| 0 < n < count implies #[trigger] nth_player_after(count, player, n)
        != player by {
        assert(n == 1 || n == 2 || n == 3);
    }
    assert forall|n: nat| #[trigger] seat_supported(count, nth_player_after(count, player, n)) by {
        lemma_nth_player_seated(count, player, n);
    }
}

proof fn lemma_nth_player_seated(count: nat, player: PlayerName, n: nat)
    requires
        seat_supported(count, player),
    ensures
        seat_supported(count, nth_player_after(count, player, n)),
    decreases n,
{
    if n > 0 {
        lemma_nth_player_seated(count, player, (n - 1) as nat);
    }
}

} // verus!
