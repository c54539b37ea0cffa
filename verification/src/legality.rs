//! Which actions players may take: who acts next, who may pass priority, and
//! which combat actions are offered to a player.
use crate::combat_queries::{attack_targets, legal_attackers, legal_blockers, spec_attack_targets, spec_legal_attackers, spec_legal_blockers};
use crate::game_state::{
    ids_where, in_hand_of, AttackTarget, CombatAction, CombatState, CombatStateKind, GameAction,
    GameState, GameStatus, TakenGameAction,
};
use crate::play_card::{can_play_card, spec_can_play_card};
use crate::id_collections::{entry_keys, IdMap, IdSet};
use crate::primitives::PlayerName;
use crate::prompts::Prompt;
use vstd::prelude::*;

verus! {

/// Options for computing legal actions.
#[derive(Debug, Clone, Copy, PartialEq, Eq, Structural)]
pub struct LegalActions {
    /// Include 'interface only' actions in the response which don't affect the
    /// game, e.g. removing a declared attacker.
    ///
    /// These are excluded from AI agent options in order to prevent infinite
    /// loops of game actions which do not progress the game state.
    pub for_human_player: bool,
}

/// The player who acts next: nobody once the game is over, the prompted
/// player while a prompt is open, otherwise whoever the stage of combat
/// calls on, or the player with priority.
pub open spec fn spec_next_to_act(game: &GameState, prompt_player: Option<PlayerName>) -> Option<
    PlayerName,
> {
    if game.status is GameOver {
        None
    } else if prompt_player is Some {
        prompt_player
    } else {
        Some(
            match &game.combat {
                Some(CombatState::ProposingAttackers(_)) => game.turn.active_player,
                Some(CombatState::ConfirmedAttackers(_)) => game.priority,
                Some(CombatState::ProposingBlockers(b)) => b.defender,
                Some(CombatState::OrderingBlockers(_)) => game.turn.active_player,
                Some(CombatState::ConfirmedBlockers(_)) => game.priority,
                None => game.priority,
            },
        )
    }
}

/// The player who acts next, if any.
pub fn next_to_act(game: &GameState, prompt: Option<&Prompt>) -> (player: Option<PlayerName>)
    ensures
        player == spec_next_to_act(
            game,
            match prompt {
                Some(p) => Some(p.player),
                None => None,
            },
        ),
{
    if let GameStatus::GameOver { .. } = game.status {
        return None;
    }
    if let Some(p) = prompt {
        return Some(p.player);
    }
    Some(
        match &game.combat {
            Some(CombatState::ProposingAttackers(_)) => game.turn.active_player,
            Some(CombatState::ConfirmedAttackers(_)) => game.priority,
            Some(CombatState::ProposingBlockers(blockers)) => blockers.defender,
            Some(CombatState::OrderingBlockers(_)) => game.turn.active_player,
            Some(CombatState::ConfirmedBlockers(_)) => game.priority,
            None => game.priority,
        },
    )
}

/// Priority cannot be passed while attackers or blockers are being declared
/// or blockers ordered.
pub open spec fn spec_can_any_player_pass_priority(game: &GameState) -> bool {
    match &game.combat {
        Some(c) => !(c.spec_kind() == CombatStateKind::ProposingAttackers || c.spec_kind()
            == CombatStateKind::ProposingBlockers || c.spec_kind()
            == CombatStateKind::OrderingBlockers),
        None => true,
    }
}

/// Whether anybody may pass priority in the current stage of combat.
pub fn can_any_player_pass_priority(game: &GameState) -> (b: bool)
    ensures
        b == spec_can_any_player_pass_priority(game),
{
    match &game.combat {
        Some(c) => match c.kind() {
            CombatStateKind::ProposingAttackers | CombatStateKind::ProposingBlockers
            | CombatStateKind::OrderingBlockers => false,
            _ => true,
        },
        None => true,
    }
}

/// Whether `player` may pass priority: priority can be passed and they hold
/// it.
pub fn can_pass_priority(game: &GameState, player: PlayerName) -> (b: bool)
    ensures
        b == (spec_can_any_player_pass_priority(game) && game.priority == player),
{
    can_any_player_pass_priority(game) && game.priority == player
}

/// Whether attackers or blockers are being declared, or blockers ordered.
pub open spec fn spec_in_combat_prompt(game: &GameState) -> bool {
    game.combat matches Some(c) && (c is ProposingAttackers || c is ProposingBlockers
        || c is OrderingBlockers)
}

/// Whether `player` is in the middle of declaring combat: attackers or
/// blockers are being declared, or blockers ordered.
pub fn in_combat_prompt(game: &GameState, _player: PlayerName) -> (b: bool)
    ensures
        b == spec_in_combat_prompt(game),
{
    match &game.combat {
        Some(CombatState::ProposingAttackers(_)) | Some(CombatState::ProposingBlockers(_))
        | Some(CombatState::OrderingBlockers(_)) => true,
        _ => false,
    }
}

/// Number of actions in `actions` that undo counts.
pub open spec fn tracked_count(actions: Seq<TakenGameAction>) -> nat
    decreases actions.len(),
{
    if actions.len() == 0 {
        0
    } else {
        tracked_count(actions.drop_last()) + (if actions.last().track_for_undo {
            1nat
        } else {
            0
        })
    }
}

/// Number of actions of all players that undo counts.
pub open spec fn spec_undoable_action_count(history: Seq<Vec<TakenGameAction>>) -> nat
    decreases history.len(),
{
    if history.len() == 0 {
        0
    } else {
        spec_undoable_action_count(history.drop_last()) + tracked_count(history.last()@)
    }
}

/// Number of actions, over every player, which undo would take back; the
/// count stops at `usize::MAX`.
pub fn undoable_action_count(actions: &Vec<Vec<TakenGameAction>>) -> (n: usize)
    ensures
        n == (if spec_undoable_action_count(actions@) <= usize::MAX {
            spec_undoable_action_count(actions@)
        } else {
            usize::MAX as nat
        }),
{
    let mut total: usize = 0;
    let mut p: usize = 0;
    while p < actions.len()
        invariant
            p <= actions@.len(),
            total == (if spec_undoable_action_count(actions@.take(p as int)) <= usize::MAX {
                spec_undoable_action_count(actions@.take(p as int))
            } else {
                usize::MAX as nat
            }),
        decreases actions@.len() - p,
    {
        let list = &actions[p];
        let mut count: usize = 0;
        let mut i: usize = 0;
        while i < list.len()
            invariant
                i <= list@.len(),
                count == tracked_count(list@.take(i as int)),
                count <= i,
            decreases list@.len() - i,
        {
            proof {
                assert(list@.take(i + 1).drop_last() =~= list@.take(i as int));
            }
            if list[i].track_for_undo {
                count = count + 1;
            }
            i = i + 1;
        }
        proof {
            assert(list@.take(i as int) =~= list@);
            assert(actions@.take(p + 1).drop_last() =~= actions@.take(p as int));
        }
        total = total.saturating_add(count);
        p = p + 1;
    }
    proof {
        assert(actions@.take(p as int) =~= actions@);
    }
    total
}

/// Whether the player can undo: some action of the history counts for undo.
pub fn can_undo(game: &GameState) -> (b: bool)
    ensures
        b == (spec_undoable_action_count(game.history@) > 0),
{
    undoable_action_count(&game.history) > 0
}

/// The identifiers of `ids` that are neither in `selected` nor in
/// `proposed`, in order.
pub open spec fn unclaimed(ids: Seq<u64>, selected: Seq<u64>, proposed: Seq<u64>) -> Seq<u64>
    decreases ids.len(),
{
    if ids.len() == 0 {
        Seq::empty()
    } else {
        unclaimed(ids.drop_last(), selected, proposed) + (if !selected.contains(ids.last())
            && !proposed.contains(ids.last()) {
            seq![ids.last()]
        } else {
            Seq::empty()
        })
    }
}

/// The action that selects `id` as an attacker, or as a blocker.
pub open spec fn select_action(blockers: bool, id: u64) -> GameAction {
    if blockers {
        GameAction::CombatAction(CombatAction::AddSelectedBlocker(id))
    } else {
        GameAction::CombatAction(CombatAction::AddSelectedAttacker(id))
    }
}

/// The action that withdraws `id` as an attacker, or as a blocker.
pub open spec fn removal_action(blockers: bool, id: u64) -> GameAction {
    if blockers {
        GameAction::CombatAction(CombatAction::RemoveBlocker(id))
    } else {
        GameAction::CombatAction(CombatAction::RemoveAttacker(id))
    }
}

/// The combat actions offered to `player` at the current stage of combat:
/// selecting each legal creature not yet chosen, choosing a target for the
/// selected creatures, withdrawing chosen creatures (for human players only),
/// and confirming.
pub open spec fn spec_combat_actions(game: &GameState, player: PlayerName, options: LegalActions) -> Seq<GameAction> {
    match &game.combat {
        Some(CombatState::ProposingAttackers(a)) => unclaimed(
            spec_legal_attackers(game, player),
            a.selected_attackers@,
            a.proposed_attacks.keys(),
        ).map_values(|id: u64| select_action(false, id)) + (if a.selected_attackers@.len() > 0 {
            spec_attack_targets(game).map_values(
                |t: AttackTarget| GameAction::CombatAction(CombatAction::SetSelectedAttackersTarget(t)),
            )
        } else {
            Seq::empty()
        }) + (if options.for_human_player {
            (a.selected_attackers@ + a.proposed_attacks.keys()).map_values(
                |id: u64| removal_action(false, id),
            )
        } else {
            Seq::empty()
        }) + seq![GameAction::CombatAction(CombatAction::ConfirmAttackers)],
        Some(CombatState::ProposingBlockers(b)) => unclaimed(
            spec_legal_blockers(game, player),
            b.selected_blockers@,
            b.proposed_blocks.keys(),
        ).map_values(|id: u64| select_action(true, id)) + (if b.selected_blockers@.len() > 0 {
            b.attackers.keys().map_values(
                |id: u64| GameAction::CombatAction(CombatAction::SetSelectedBlockersTarget(id)),
            )
        } else {
            Seq::empty()
        }) + (if options.for_human_player {
            (b.selected_blockers@ + b.proposed_blocks.keys()).map_values(
                |id: u64| removal_action(true, id),
            )
        } else {
            Seq::empty()
        }) + seq![GameAction::CombatAction(CombatAction::ConfirmBlockers)],
        Some(CombatState::OrderingBlockers(_)) => seq![
            GameAction::CombatAction(CombatAction::ConfirmBlockerOrder),
        ],
        _ => Seq::empty(),
    }
}

/// Appends the selection of each creature of `ids` that is neither selected
/// nor proposed.
fn push_unclaimed<V>(
    actions: &mut Vec<GameAction>,
    ids: &Vec<u64>,
    selected: &IdSet,
    proposed: &IdMap<V>,
    blockers: bool,
)
    requires
        proposed.wf(),
    ensures
        final(actions)@ == old(actions)@ + unclaimed(ids@, selected@, proposed.keys()).map_values(
            |id: u64| select_action(blockers, id),
        ),
{
    let ghost start = actions@;
    let mut i: usize = 0;
    while i < ids.len()
        invariant
            proposed.wf(),
            i <= ids@.len(),
            actions@ == start + unclaimed(ids@.take(i as int), selected@, proposed.keys()).map_values(
                |id: u64| select_action(blockers, id),
            ),
        decreases ids@.len() - i,
    {
        let id = ids[i];
        proof {
            assert(ids@.take(i + 1).drop_last() =~= ids@.take(i as int));
            assert(ids@.take(i + 1).last() == id);
        }
        if !selected.contains(id) && !proposed.contains_key(id) {
            let action = if blockers {
                GameAction::CombatAction(CombatAction::AddSelectedBlocker(id))
            } else {
                GameAction::CombatAction(CombatAction::AddSelectedAttacker(id))
            };
            actions.push(action);
        }
        proof {
            assert(actions@ =~= start + unclaimed(ids@.take(i + 1), selected@, proposed.keys()).map_values(
                |id: u64| select_action(blockers, id),
            ));
        }
        i = i + 1;
    }
    proof {
        assert(ids@.take(i as int) =~= ids@);
    }
}

/// Appends the withdrawal of each creature of `ids`.
fn push_removals(actions: &mut Vec<GameAction>, ids: &Vec<u64>, blockers: bool)
    ensures
        final(actions)@ == old(actions)@ + ids@.map_values(|id: u64| removal_action(blockers, id)),
{
    let ghost start = actions@;
    let mut i: usize = 0;
    while i < ids.len()
        invariant
            i <= ids@.len(),
            actions@ == start + ids@.take(i as int).map_values(|id: u64| removal_action(blockers, id)),
        decreases ids@.len() - i,
    {
        let id = ids[i];
        let action = if blockers {
            GameAction::CombatAction(CombatAction::RemoveBlocker(id))
        } else {
            GameAction::CombatAction(CombatAction::RemoveAttacker(id))
        };
        actions.push(action);
        proof {
            assert(actions@ =~= start + ids@.take(i + 1).map_values(
                |id: u64| removal_action(blockers, id),
            ));
        }
        i = i + 1;
    }
    proof {
        assert(ids@.take(i as int) =~= ids@);
    }
}

/// The keys of `map`, in order.
fn keys_of<V>(map: &IdMap<V>) -> (keys: Vec<u64>)
    ensures
        keys@ == map.keys(),
{
    let mut keys: Vec<u64> = Vec::new();
    let mut i: usize = 0;
    while i < map.entries.len()
        invariant
            i <= map@.len(),
            keys@ == entry_keys(map@.take(i as int)),
        decreases map@.len() - i,
    {
        keys.push(map.entries[i].0);
        proof {
            assert(entry_keys(map@.take(i + 1)) =~= entry_keys(map@.take(i as int)).push(map@[i as int].0));
        }
        i = i + 1;
    }
    proof {
        assert(map@.take(i as int) =~= map@);
    }
    keys
}

/// Appends the combat actions offered to `player` at the current stage of
/// combat.
pub fn append(game: &GameState, player: PlayerName, actions: &mut Vec<GameAction>, options: LegalActions)
    requires
        game.wf(),
    ensures
        final(actions)@ == old(actions)@ + spec_combat_actions(game, player, options),
{
    let ghost start = actions@;
    match &game.combat {
        Some(CombatState::ProposingAttackers(a)) => {
            let legal = legal_attackers(game, player);
            push_unclaimed(actions, &legal, &a.selected_attackers, &a.proposed_attacks, false);
            let ghost after_select = actions@;
            if !a.selected_attackers.is_empty() {
                let targets = attack_targets(game);
                let mut i: usize = 0;
                while i < targets.len()
                    invariant
                        i <= targets@.len(),
                        actions@ == after_select + targets@.take(i as int).map_values(
                            |t: AttackTarget| GameAction::CombatAction(CombatAction::SetSelectedAttackersTarget(t)),
                        ),
                    decreases targets@.len() - i,
                {
                    actions.push(GameAction::CombatAction(CombatAction::SetSelectedAttackersTarget(targets[i])));
                    proof {
                        assert(actions@ =~= after_select + targets@.take(i + 1).map_values(
                            |t: AttackTarget| GameAction::CombatAction(CombatAction::SetSelectedAttackersTarget(t)),
                        ));
                    }
                    i = i + 1;
                }
                proof {
                    assert(targets@.take(i as int) =~= targets@);
                }
            }
            if options.for_human_player {
                let selected = &a.selected_attackers.ids;
                push_removals(actions, selected, false);
                let keys = keys_of(&a.proposed_attacks);
                push_removals(actions, &keys, false);
                proof {
                    assert((a.selected_attackers@ + a.proposed_attacks.keys()).map_values(
                        |id: u64| removal_action(false, id),
                    ) =~= a.selected_attackers@.map_values(|id: u64| removal_action(false, id))
                        + a.proposed_attacks.keys().map_values(|id: u64| removal_action(false, id)));
                }
            }
            actions.push(GameAction::CombatAction(CombatAction::ConfirmAttackers));
            proof {
                assert(actions@ =~= start + spec_combat_actions(game, player, options));
            }
        },
        Some(CombatState::ProposingBlockers(b)) => {
            let legal = legal_blockers(game, player);
            push_unclaimed(actions, &legal, &b.selected_blockers, &b.proposed_blocks, true);
            let ghost after_select = actions@;
            if !b.selected_blockers.is_empty() {
                let keys = keys_of(&b.attackers);
                let mut i: usize = 0;
                while i < keys.len()
                    invariant
                        i <= keys@.len(),
                        actions@ == after_select + keys@.take(i as int).map_values(
                            |id: u64| GameAction::CombatAction(CombatAction::SetSelectedBlockersTarget(id)),
                        ),
                    decreases keys@.len() - i,
                {
                    actions.push(GameAction::CombatAction(CombatAction::SetSelectedBlockersTarget(keys[i])));
                    proof {
                        assert(actions@ =~= after_select + keys@.take(i + 1).map_values(
                            |id: u64| GameAction::CombatAction(CombatAction::SetSelectedBlockersTarget(id)),
                        ));
                    }
                    i = i + 1;
                }
                proof {
                    assert(keys@.take(i as int) =~= keys@);
                }
            }
            if options.for_human_player {
                let selected = &b.selected_blockers.ids;
                push_removals(actions, selected, true);
                let keys = keys_of(&b.proposed_blocks);
                push_removals(actions, &keys, true);
                proof {
                    assert((b.selected_blockers@ + b.proposed_blocks.keys()).map_values(
                        |id: u64| removal_action(true, id),
                    ) =~= b.selected_blockers@.map_values(|id: u64| removal_action(true, id))
                        + b.proposed_blocks.keys().map_values(|id: u64| removal_action(true, id)));
                }
            }
            actions.push(GameAction::CombatAction(CombatAction::ConfirmBlockers));
            proof {
                assert(actions@ =~= start + spec_combat_actions(game, player, options));
            }
        },
        Some(CombatState::OrderingBlockers(_)) => {
            actions.push(GameAction::CombatAction(CombatAction::ConfirmBlockerOrder));
        },
        _ => {
            proof {
                assert(actions@ =~= start + spec_combat_actions(game, player, options));
            }
        },
    }
}

/// The cards of `ids` that `player` may play now, in order.
pub open spec fn playable(game: &GameState, player: PlayerName, ids: Seq<u64>) -> Seq<u64>
    decreases ids.len(),
{
    if ids.len() == 0 {
        Seq::empty()
    } else {
        playable(game, player, ids.drop_last()) + (if spec_can_play_card(game, player, ids.last()) {
            seq![ids.last()]
        } else {
            Seq::empty()
        })
    }
}

/// The actions `player` may take: none unless they act next; outside the
/// declaration of combat, passing priority when they may and playing each
/// card of their hand that they may play; then the combat actions offered.
pub open spec fn spec_legal_actions(game: &GameState, player: PlayerName, options: LegalActions) -> Seq<GameAction> {
    if spec_next_to_act(game, None) != Some(player) {
        Seq::empty()
    } else {
        (if !spec_in_combat_prompt(game) {
            (if spec_can_any_player_pass_priority(game) && game.priority == player {
                seq![GameAction::PassPriority]
            } else {
                Seq::empty()
            }) + playable(
                game,
                player,
                ids_where(game.cards@, game.cards@.len(), in_hand_of(player)),
            ).map_values(|id: u64| GameAction::ProposePlayingCard(id))
        } else {
            Seq::empty()
        }) + spec_combat_actions(game, player, options)
    }
}

/// The actions `player` may take now.
pub fn compute(game: &GameState, player: PlayerName, options: LegalActions) -> (actions: Vec<GameAction>)
    requires
        game.wf(),
    ensures
        actions@ == spec_legal_actions(game, player, options),
{
    let mut result: Vec<GameAction> = Vec::new();
    if next_to_act(game, None) != Some(player) {
        return result;
    }
    if !in_combat_prompt(game, player) {
        if can_pass_priority(game, player) {
            result.push(GameAction::PassPriority);
        }
        let ghost after_pass = result@;
        let hand = game.hand(player);
        let mut i: usize = 0;
        while i < hand.len()
            invariant
                game.wf(),
                i <= hand@.len(),
                result@ == after_pass + playable(game, player, hand@.take(i as int)).map_values(
                    |id: u64| GameAction::ProposePlayingCard(id),
                ),
            decreases hand@.len() - i,
        {
            let id = hand[i];
            proof {
                assert(hand@.take(i + 1).drop_last() =~= hand@.take(i as int));
                assert(hand@.take(i + 1).last() == id);
            }
            if can_play_card(game, player, id) {
                result.push(GameAction::ProposePlayingCard(id));
            }
            proof {
                assert(result@ =~= after_pass + playable(game, player, hand@.take(i + 1)).map_values(
                    |id: u64| GameAction::ProposePlayingCard(id),
                ));
            }
            i = i + 1;
        }
        proof {
            assert(hand@.take(i as int) =~= hand@);
        }
    }
    append(game, player, &mut result, options);
    proof {
        assert(result@ =~= spec_legal_actions(game, player, options));
    }
    result
}

/// Whether `player` may take `action` now, counting the actions offered to
/// human players.
pub fn can_take_action(game: &GameState, player: PlayerName, action: &GameAction) -> (b: bool)
    requires
        game.wf(),
    ensures
        b == spec_legal_actions(game, player, LegalActions { for_human_player: true }).contains(*action),
{
    let actions = compute(game, player, LegalActions { for_human_player: true });
    let mut i: usize = 0;
    while i < actions.len()
        invariant
            i <= actions@.len(),
            actions@ == spec_legal_actions(game, player, LegalActions { for_human_player: true }),
            forall|j: int| 0 <= j < i ==> actions@[j] != *action,
        decreases actions@.len() - i,
    {
        if actions[i] == *action {
            proof {
                assert(actions@[i as int] == *action);
            }
            return true;
        }
        i = i + 1;
    }
    false
}

/// Inserting `r` before the last part of a sequence keeps everything it
/// contained.
proof fn lemma_contains_after_insertion<A>(p: Seq<A>, a: Seq<A>, r: Seq<A>, c: Seq<A>, x: A)
    requires
        (p + ((a + Seq::<A>::empty()) + c)).contains(x),
    ensures
        (p + ((a + r) + c)).contains(x),
{
    let short = p + ((a + Seq::<A>::empty()) + c);
    let long = p + ((a + r) + c);
    let i = choose|i: int| 0 <= i < short.len() && short[i] == x;
    if i < p.len() + a.len() {
        assert(long[i] == short[i]);
    } else {
        assert(long[i + r.len()] == short[i]);
    }
}

/// The actions offered to an agent are among those offered to a human
/// player: agents are only spared the actions that change nothing in the
/// game.
pub proof fn law_agent_actions_are_human_actions(game: &GameState, player: PlayerName, action: GameAction)
    requires
        spec_legal_actions(game, player, LegalActions { for_human_player: false }).contains(action),
    ensures
        spec_legal_actions(game, player, LegalActions { for_human_player: true }).contains(action),
{
    let agent = LegalActions { for_human_player: false };
    let human = LegalActions { for_human_player: true };
    if spec_next_to_act(game, None) == Some(player) {
        let p = if !spec_in_combat_prompt(game) {
            (if spec_can_any_player_pass_priority(game) && game.priority == player {
                seq![GameAction::PassPriority]
            } else {
                Seq::empty()
            }) + playable(
                game,
                player,
                ids_where(game.cards@, game.cards@.len(), in_hand_of(player)),
            ).map_values(|id: u64| GameAction::ProposePlayingCard(id))
        } else {
            Seq::empty()
        };
        match &game.combat {
            Some(CombatState::ProposingAttackers(a)) => {
                let x = unclaimed(
                    spec_legal_attackers(game, player),
                    a.selected_attackers@,
                    a.proposed_attacks.keys(),
                ).map_values(|id: u64| select_action(false, id)) + (if a.selected_attackers@.len() > 0 {
                    spec_attack_targets(game).map_values(
                        |t: AttackTarget| GameAction::CombatAction(CombatAction::SetSelectedAttackersTarget(t)),
                    )
                } else {
                    Seq::empty()
                });
                let r = (a.selected_attackers@ + a.proposed_attacks.keys()).map_values(
                    |id: u64| removal_action(false, id),
                );
                let c = seq![GameAction::CombatAction(CombatAction::ConfirmAttackers)];
                assert(spec_legal_actions(game, player, agent) == p + ((x + Seq::<GameAction>::empty()) + c));
                assert(spec_legal_actions(game, player, human) == p + ((x + r) + c));
                lemma_contains_after_insertion(p, x, r, c, action);
            },
            Some(CombatState::ProposingBlockers(b)) => {
                let x = unclaimed(
                    spec_legal_blockers(game, player),
                    b.selected_blockers@,
                    b.proposed_blocks.keys(),
                ).map_values(|id: u64| select_action(true, id)) + (if b.selected_blockers@.len() > 0 {
                    b.attackers.keys().map_values(
                        |id: u64| GameAction::CombatAction(CombatAction::SetSelectedBlockersTarget(id)),
                    )
                } else {
                    Seq::empty()
                });
                let r = (b.selected_blockers@ + b.proposed_blocks.keys()).map_values(
                    |id: u64| removal_action(true, id),
                );
                let c = seq![GameAction::CombatAction(CombatAction::ConfirmBlockers)];
                assert(spec_legal_actions(game, player, agent) == p + ((x + Seq::<GameAction>::empty()) + c));
                assert(spec_legal_actions(game, player, human) == p + ((x + r) + c));
                lemma_contains_after_insertion(p, x, r, c, action);
            },
            _ => {
                assert(spec_legal_actions(game, player, agent) == spec_legal_actions(game, player, human));
            },
        }
    }
}

/// Only the player who acts next is offered any action, and nobody is once
/// the game is over.
pub proof fn law_only_next_player_is_offered_actions(game: &GameState, player: PlayerName, options: LegalActions)
    ensures
        spec_legal_actions(game, player, options).len() > 0 ==> spec_next_to_act(game, None) == Some(
            player,
        ),
        game.status is GameOver ==> spec_legal_actions(game, player, options).len() == 0,
{
}

} // verus!
