//! Actions taken on a player's behalf when they have nothing worth deciding:
//! passing priority where they set no stop, and confirming combat
//! declarations that offer no choice.
use crate::combat_queries::{legal_attackers, legal_blockers, spec_legal_attackers, spec_legal_blockers};
use crate::game_state::{CombatAction, CombatState, GameAction, GameState, PlayerType};
use crate::legality::{
    can_pass_priority, can_take_action, compute, next_to_act, spec_can_any_player_pass_priority,
    spec_legal_actions, spec_next_to_act, LegalActions,
};
use crate::primitives::{GamePhaseStep, PlayerName};
use vstd::prelude::*;

verus! {

/// The steps in which the active player always stops: the main phases.
pub open spec fn always_stop_active(step: GamePhaseStep) -> bool {
    step == GamePhaseStep::PreCombatMain || step == GamePhaseStep::PostCombatMain
}

/// The steps in which an inactive player always stops: the end step.
pub open spec fn always_stop_inactive(step: GamePhaseStep) -> bool {
    step == GamePhaseStep::EndStep
}

/// The steps of the combat phase after combat begins.
pub open spec fn attack_step(step: GamePhaseStep) -> bool {
    step == GamePhaseStep::DeclareAttackers || step == GamePhaseStep::DeclareBlockers || step
        == GamePhaseStep::FirstStrikeDamage || step == GamePhaseStep::CombatDamage || step
        == GamePhaseStep::EndCombat
}

/// Attackers were confirmed and there are none.
pub open spec fn spec_empty_combat(game: &GameState) -> bool {
    match &game.combat {
        Some(CombatState::ConfirmedAttackers(a)) => a@.len() == 0,
        Some(CombatState::ProposingBlockers(b)) => b.attackers@.len() == 0,
        Some(CombatState::OrderingBlockers(m)) => m.attackers@.len() == 0,
        Some(CombatState::ConfirmedBlockers(m)) => m.attackers@.len() == 0,
        _ => false,
    }
}

/// The actions offered to a human player.
pub open spec fn human_actions(game: &GameState, player: PlayerName) -> Seq<GameAction> {
    spec_legal_actions(game, player, LegalActions { for_human_player: true })
}

/// Whether `player` passes priority on their own: they may pass, and either
/// the stack is empty and they set no stop for this step, or combat has no
/// attackers, or they asked to pass when nothing but passing is possible
/// outside the steps where they always stop; or something is on the stack
/// and they asked to pass when they cannot respond.
pub open spec fn passes_automatically(game: &GameState, player: PlayerName) -> bool {
    let is_active = game.turn.active_player == player;
    let options = game.spec_player(player).options;
    let few_actions = options.auto_pass && human_actions(game, player).len() <= 1;
    &&& spec_can_any_player_pass_priority(game) && game.priority == player
    &&& if game.stack@.len() == 0 {
        ||| is_active && !options.active_turn_stops@.contains(game.step)
        ||| !is_active && !options.inactive_turn_stops@.contains(game.step)
        ||| attack_step(game.step) && spec_empty_combat(game)
        ||| few_actions && !(is_active && always_stop_active(game.step) || !is_active
            && always_stop_inactive(game.step))
    } else {
        few_actions
    }
}

/// The action taken on `player`'s behalf, if any: passing priority as
/// above, else confirming attackers when no creature can attack, confirming
/// blockers when no creature can block or nothing attacks, or confirming the
/// order of blockers.
pub open spec fn spec_auto_pass_action(game: &GameState, player: PlayerName) -> Option<GameAction> {
    let confirm_attackers = GameAction::CombatAction(CombatAction::ConfirmAttackers);
    let confirm_blockers = GameAction::CombatAction(CombatAction::ConfirmBlockers);
    let confirm_order = GameAction::CombatAction(CombatAction::ConfirmBlockerOrder);
    if passes_automatically(game, player) {
        Some(GameAction::PassPriority)
    } else if human_actions(game, player).contains(confirm_attackers) && spec_legal_attackers(
        game,
        player,
    ).len() == 0 {
        Some(confirm_attackers)
    } else if human_actions(game, player).contains(confirm_blockers) && (spec_legal_blockers(
        game,
        player,
    ).len() == 0 || spec_empty_combat(game)) {
        Some(confirm_blockers)
    } else if human_actions(game, player).contains(confirm_order) {
        Some(confirm_order)
    } else {
        None
    }
}

/// Whether `steps` holds `step`.
fn has_step(steps: &Vec<GamePhaseStep>, step: GamePhaseStep) -> (b: bool)
    ensures
        b == steps@.contains(step),
{
    let mut i: usize = 0;
    while i < steps.len()
        invariant
            i <= steps@.len(),
            forall|j: int| 0 <= j < i ==> steps@[j] != step,
        decreases steps@.len() - i,
    {
        if steps[i] == step {
            proof {
                assert(steps@[i as int] == step);
            }
            return true;
        }
        i = i + 1;
    }
    false
}

/// Attackers were confirmed and there are none.
fn empty_combat(game: &GameState) -> (b: bool)
    ensures
        b == spec_empty_combat(game),
{
    match &game.combat {
        Some(c) => match c.confirmed_attackers() {
            Some(attackers) => attackers.is_empty(),
            None => false,
        },
        None => false,
    }
}

/// The action to take on `player`'s behalf without asking them, if any.
pub fn auto_pass_action(game: &GameState, player: PlayerName) -> (action: Option<GameAction>)
    requires
        game.wf(),
    ensures
        action == spec_auto_pass_action(game, player),
{
    let is_active_player = game.turn.active_player == player;
    let no_attackers = empty_combat(game);
    let human = LegalActions { for_human_player: true };
    if can_pass_priority(game, player) {
        let options = &game.player(player).options;
        if game.stack.len() == 0 {
            if (is_active_player && !has_step(&options.active_turn_stops, game.step)) || (
            !is_active_player && !has_step(&options.inactive_turn_stops, game.step)) {
                return Some(GameAction::PassPriority);
            }
            let step = game.step;
            let in_attack_steps = step == GamePhaseStep::DeclareAttackers || step
                == GamePhaseStep::DeclareBlockers || step == GamePhaseStep::FirstStrikeDamage
                || step == GamePhaseStep::CombatDamage || step == GamePhaseStep::EndCombat;
            if in_attack_steps && no_attackers {
                return Some(GameAction::PassPriority);
            }
            if options.auto_pass && compute(game, player, human).len() <= 1 {
                let always_stop = (is_active_player && (step == GamePhaseStep::PreCombatMain || step
                    == GamePhaseStep::PostCombatMain)) || (!is_active_player && step
                    == GamePhaseStep::EndStep);
                if !always_stop {
                    return Some(GameAction::PassPriority);
                }
            }
        } else if options.auto_pass && compute(game, player, human).len() <= 1 {
            return Some(GameAction::PassPriority);
        }
    }
    let confirm_attackers = GameAction::CombatAction(CombatAction::ConfirmAttackers);
    if can_take_action(game, player, &confirm_attackers) && legal_attackers(game, player).len()
        == 0 {
        return Some(confirm_attackers);
    }
    let confirm_blockers = GameAction::CombatAction(CombatAction::ConfirmBlockers);
    if can_take_action(game, player, &confirm_blockers) && (legal_blockers(game, player).len()
        == 0 || no_attackers) {
        return Some(confirm_blockers);
    }
    let confirm_order = GameAction::CombatAction(CombatAction::ConfirmBlockerOrder);
    if can_take_action(game, player, &confirm_order) {
        return Some(confirm_order);
    }
    None
}

/// While the game is not over, the action taken on a player's behalf is
/// always one they could have taken themselves.
pub proof fn law_auto_pass_action_is_offered(game: &GameState, player: PlayerName)
    requires
        !(game.status is GameOver),
    ensures
        spec_auto_pass_action(game, player) matches Some(a) ==> human_actions(game, player).contains(a),
{
    if passes_automatically(game, player) {
        let actions = human_actions(game, player);
        assert(crate::legality::spec_next_to_act(game, None) == Some(player));
        assert(!crate::legality::spec_in_combat_prompt(game));
        assert(actions[0] == GameAction::PassPriority);
    }
}

/// What happens once an action was taken: the game is over, an action is
/// taken on the next player's behalf, the game is saved to wait for the
/// next player's own decision, or an agent is asked to decide for them.
#[derive(Debug, Clone, Copy, PartialEq, Eq, Structural)]
pub enum Continuation {
    GameOver,
    AutoPass { player: PlayerName, action: GameAction },
    AwaitDecision(PlayerName),
    AskAgent(PlayerName),
}

/// Who decides for `player` when no action is taken for them: an agent, or
/// else the game waits for them.
pub open spec fn spec_decision(game: &GameState, player: PlayerName) -> Continuation {
    if game.spec_player(player).player_type == PlayerType::Agent {
        Continuation::AskAgent(player)
    } else {
        Continuation::AwaitDecision(player)
    }
}

/// What happens next in `game`, as the loop that carries out players'
/// actions decides it.
pub open spec fn spec_continuation(game: &GameState) -> Continuation {
    match spec_next_to_act(game, None) {
        None => Continuation::GameOver,
        Some(player) => match spec_auto_pass_action(game, player) {
            Some(action) => Continuation::AutoPass { player, action },
            None => spec_decision(game, player),
        },
    }
}

/// What happens next in `game`: nothing once nobody acts, else the action
/// taken automatically for the player who acts next, or their decision.
pub fn continuation(game: &GameState) -> (next: Continuation)
    requires
        game.wf(),
    ensures
        next == spec_continuation(game),
{
    match next_to_act(game, None) {
        None => Continuation::GameOver,
        Some(player) => match auto_pass_action(game, player) {
            Some(action) => Continuation::AutoPass { player, action },
            None => match game.player(player).player_type {
                PlayerType::Agent => Continuation::AskAgent(player),
                _ => Continuation::AwaitDecision(player),
            },
        },
    }
}

/// The player whose action a user's request is taken as: the player the
/// request came from, unless `act_as` names the player who acts next.
pub open spec fn spec_acting_player(game: &GameState, requester: PlayerName, act_as: Option<PlayerName>) -> PlayerName {
    match act_as {
        Some(p) => if spec_next_to_act(game, None) == Some(p) {
            p
        } else {
            requester
        },
        None => requester,
    }
}

/// The player whose action a user's request is taken as: the player the
/// request came from, unless `act_as` names the player who acts next.
pub fn acting_player(game: &GameState, requester: PlayerName, act_as: Option<PlayerName>) -> (player: PlayerName)
    ensures
        player == spec_acting_player(game, requester, act_as),
{
    match act_as {
        Some(p) => if next_to_act(game, None) == Some(p) {
            p
        } else {
            requester
        },
        None => requester,
    }
}

} // verus!
