//! Taking a game action for a player: the action is checked if asked,
//! recorded in the player's history, carried out, and state-based actions
//! are checked whenever a player could receive priority afterwards.
use crate::combat_actions::{combat_action_applies, combat_action_taken};
use crate::game_state::{GameAction, GameState, TakenGameAction};
use crate::legality::{can_any_player_pass_priority, can_take_action, spec_can_any_player_pass_priority, spec_legal_actions, LegalActions};
use crate::play_card::{plan_executed, spec_can_play_as, spec_timing, PlayCardTiming};
use crate::primitives::{player_index, PlayerName};
use crate::priority::{can_pass, pass, passed_priority};
use crate::spell_planner::spec_mana_payment;
use crate::state_based_actions::{after_state_based_actions, on_will_receive_priority};
use crate::steps::players_seated;
use vstd::prelude::*;

verus! {

/// Options for taking an action.
#[derive(Debug, Clone, Copy, PartialEq, Eq, Structural)]
pub struct ExecuteAction {
    /// True if this is an automatically applied or AI action, e.g. auto-pass
    pub skip_undo_tracking: bool,
    /// True if this action should be checked for legality
    pub validate: bool,
}

/// What carrying out `action` for `player` needs so that it runs to the
/// end: passing priority needs priority and a turn that can move on, playing
/// a card needs a card that may be played and paid for, and a combat action
/// needs the stage of combat it belongs to.
pub open spec fn action_can_run(game: &GameState, player: PlayerName, action: GameAction) -> bool {
    match action {
        GameAction::PassPriority => players_seated(game) && can_pass(game, player),
        GameAction::ProposePlayingCard(id) => {
            &&& players_seated(game)
            &&& id < game.cards@.len()
            &&& spec_can_play_as(game, game.cards@[id as int])
            &&& spec_mana_payment(game, id) is Some
            &&& spec_timing(game.cards@[id as int].card_types) == PlayCardTiming::Land ==> game.spec_player(
                player,
            ).lands_played < u64::MAX
            &&& spec_timing(game.cards@[id as int].card_types) != PlayCardTiming::Land ==> game.priority
                == player
        },
        GameAction::CombatAction(a) => combat_action_applies(game, a),
    }
}

/// The game after `action` is recorded in `player`'s history, unless an
/// agent is searching over copies of the game.
pub open spec fn recorded(
    old: &GameState,
    new: &GameState,
    player: PlayerName,
    action: GameAction,
    options: ExecuteAction,
) -> bool {
    if old.agent_search {
        *new == *old
    } else {
        let i = player_index(player) as int;
        &&& new.history@.len() == old.history@.len()
        &&& new.history@[i]@ == old.history@[i]@.push(
            TakenGameAction { action, track_for_undo: !options.skip_undo_tracking },
        )
        &&& forall|j: int| 0 <= j < old.history@.len() && j != i ==> #[trigger] new.history@[j]
            == old.history@[j]
        &&& new.status == old.status
        &&& new.step == old.step
        &&& new.turn == old.turn
        &&& new.priority == old.priority
        &&& new.passed == old.passed
        &&& new.all_players == old.all_players
        &&& new.players == old.players
        &&& new.cards == old.cards
        &&& new.libraries == old.libraries
        &&& new.graveyards == old.graveyards
        &&& new.stack == old.stack
        &&& new.combat == old.combat
        &&& new.state_based_events == old.state_based_events
        &&& new.agent_search == old.agent_search
        &&& new.control_changing_effects == old.control_changing_effects
        &&& new.this_turn == old.this_turn
    }
}

/// The game after `action` itself is carried out for `player`.
pub open spec fn action_taken(old: &GameState, new: &GameState, player: PlayerName, action: GameAction) -> bool {
    match action {
        GameAction::PassPriority => passed_priority(old, new, player),
        GameAction::ProposePlayingCard(id) => plan_executed(
            old,
            new,
            player,
            id,
            spec_timing(old.cards@[id as int].card_types),
            spec_mana_payment(old, id).unwrap(),
        ),
        GameAction::CombatAction(a) => combat_action_taken(old, new, a),
    }
}

/// The game after `execute`: the action is recorded, carried out, and
/// state-based actions are performed if a player could now receive
/// priority.
pub open spec fn executed(
    old: &GameState,
    new: &GameState,
    player: PlayerName,
    action: GameAction,
    options: ExecuteAction,
) -> bool {
    exists|rec: GameState, acted: GameState|
        #![trigger recorded(old, &rec, player, action, options), action_taken(&rec, &acted, player, action)]
        recorded(old, &rec, player, action, options) && action_taken(&rec, &acted, player, action) && (
        if spec_can_any_player_pass_priority(&acted) {
            after_state_based_actions(&acted, new)
        } else {
            *new == acted
        })
}

/// Adds `action` to `player`'s history.
fn record(game: &mut GameState, player: PlayerName, action: GameAction, options: ExecuteAction)
    requires
        old(game).wf(),
        !old(game).agent_search,
    ensures
        final(game).wf(),
        recorded(old(game), final(game), player, action, options),
{
    let i = player.index();
    let mut actions: Vec<TakenGameAction> = Vec::new();
    game.history.set_and_swap(i, &mut actions);
    actions.push(TakenGameAction { action, track_for_undo: !options.skip_undo_tracking });
    game.history.set(i, actions);
}

/// `player` passes priority.
fn handle_pass_priority(game: &mut GameState, player: PlayerName)
    requires
        old(game).wf(),
        action_can_run(old(game), player, GameAction::PassPriority),
    ensures
        final(game).wf(),
        action_taken(old(game), final(game), player, GameAction::PassPriority),
{
    pass(game, player)
}

/// `player` plays card `card_id`.
fn handle_play_card(game: &mut GameState, player: PlayerName, card_id: u64)
    requires
        old(game).wf(),
        action_can_run(old(game), player, GameAction::ProposePlayingCard(card_id)),
    ensures
        final(game).wf(),
        action_taken(old(game), final(game), player, GameAction::ProposePlayingCard(card_id)),
{
    crate::play_card::execute(game, player, card_id)
}

/// Takes `action` for `player`. When `options` asks for it, the action must
/// be legal.
pub fn execute(game: &mut GameState, player: PlayerName, action: GameAction, options: ExecuteAction)
    requires
        old(game).wf(),
        options.validate ==> spec_legal_actions(
            old(game),
            player,
            LegalActions { for_human_player: true },
        ).contains(action),
        action_can_run(old(game), player, action),
    ensures
        final(game).wf(),
        executed(old(game), final(game), player, action, options),
{
    if options.validate {
        let legal = can_take_action(game, player, &action);
        assert(legal);
    }
    if !game.agent_search {
        record(game, player, action, options);
    }
    let ghost rec = *game;
    match action {
        GameAction::PassPriority => handle_pass_priority(game, player),
        GameAction::ProposePlayingCard(id) => handle_play_card(game, player, id),
        GameAction::CombatAction(a) => crate::combat_actions::execute(game, player, a),
    }
    let ghost acted = *game;
    if can_any_player_pass_priority(game) {
        on_will_receive_priority(game);
    }
    proof {
        assert(recorded(old(game), &rec, player, action, options));
        assert(action_taken(&rec, &acted, player, action));
    }
}

} // verus!
