//! Queries about combat: which creatures may attack or block, what they may
//! attack, and the part each permanent plays in the current combat.
use crate::game_state::{
    card_types, ids_where, on_battlefield_of, spec_card_types, AttackTarget, BlockerMap,
    CardState, CombatState, GameState,
};
use crate::primitives::{PlayerName, Zone};
use vstd::prelude::*;

verus! {

/// Whether `card` may attack this turn: an untapped creature, not a battle,
/// controlled by the active player since the turn began and not having
/// entered this turn. Cards here have no abilities, so none has haste.
pub open spec fn spec_can_attack(game: &GameState, card: CardState) -> bool {
    let types = spec_card_types(card);
    &&& card.last_changed_control != game.turn
    &&& card.entered_current_zone != game.turn
    &&& card.controller == game.turn.active_player
    &&& !card.tapped
    &&& types.creature
    &&& !types.battle
}

/// Whether `card` may block: an untapped creature, not a battle, not
/// controlled by the active player.
pub open spec fn spec_can_block(game: &GameState, card: CardState) -> bool {
    let types = spec_card_types(card);
    &&& card.controller != game.turn.active_player
    &&& !card.tapped
    &&& types.creature
    &&& !types.battle
}

/// Permanents `player` controls that may attack.
pub open spec fn attacker_filter(game: GameState, player: PlayerName) -> spec_fn(CardState) -> bool {
    |c: CardState| on_battlefield_of(player)(c) && spec_can_attack(&game, c)
}

/// Permanents `player` controls that may block.
pub open spec fn blocker_filter(game: GameState, player: PlayerName) -> spec_fn(CardState) -> bool {
    |c: CardState| on_battlefield_of(player)(c) && spec_can_block(&game, c)
}

/// Planeswalkers `player` controls.
pub open spec fn planeswalker_filter(player: PlayerName) -> spec_fn(CardState) -> bool {
    |c: CardState| on_battlefield_of(player)(c) && spec_card_types(c).planeswalker
}

/// Identifiers of the creatures `player` may attack with, in order.
pub open spec fn spec_legal_attackers(game: &GameState, player: PlayerName) -> Seq<u64> {
    ids_where(game.cards@, game.cards@.len(), attacker_filter(*game, player))
}

/// Identifiers of the creatures `player` may block with, in order.
pub open spec fn spec_legal_blockers(game: &GameState, player: PlayerName) -> Seq<u64> {
    ids_where(game.cards@, game.cards@.len(), blocker_filter(*game, player))
}

/// Targets in `player`'s part of the table: the player, then each of their
/// planeswalkers.
pub open spec fn targets_of(game: &GameState, player: PlayerName) -> Seq<AttackTarget> {
    seq![AttackTarget::Player(player)] + ids_where(
        game.cards@,
        game.cards@.len(),
        planeswalker_filter(player),
    ).map_values(|id: u64| AttackTarget::Planeswalker(player, id))
}

/// Targets of `player` if they are an inactive player of the game.
pub open spec fn inactive_targets(game: &GameState, player: PlayerName) -> Seq<AttackTarget> {
    if game.all_players.has(player) && player != game.turn.active_player {
        targets_of(game, player)
    } else {
        Seq::empty()
    }
}

/// Everything that can be attacked: each inactive player in seat order,
/// followed by their planeswalkers.
pub open spec fn spec_attack_targets(game: &GameState) -> Seq<AttackTarget> {
    inactive_targets(game, PlayerName::One) + inactive_targets(game, PlayerName::Two)
        + inactive_targets(game, PlayerName::Three) + inactive_targets(game, PlayerName::Four)
}

/// Whether the creature `attacker_id` may attack, or `None` if there is no
/// such card.
pub fn can_attack(game: &GameState, attacker_id: u64) -> (result: Option<bool>)
    requires
        game.wf(),
    ensures
        result == (match game.spec_card(attacker_id) {
            Some(c) => Some(spec_can_attack(game, c)),
            None => None,
        }),
{
    let card = match game.card(attacker_id) {
        Some(c) => c,
        None => {
            return None;
        },
    };
    let types = card_types(card);
    let turn = game.turn;
    let has_haste = false;
    let mut result = true;
    result = result && (card.last_changed_control != turn || has_haste);
    result = result && (card.entered_current_zone != turn || has_haste);
    result = result && card.controller == turn.active_player;
    result = result && !card.tapped;
    result = result && types.creature;
    result = result && !types.battle;
    Some(result)
}

/// Whether the permanent has haste, or `None` if there is no such card. No
/// card here has an ability that grants it.
pub fn has_haste(game: &GameState, permanent_id: u64) -> (result: Option<bool>)
    requires
        game.wf(),
    ensures
        result == (if permanent_id < game.cards@.len() {
            Some(false)
        } else {
            None
        }),
{
    match game.card(permanent_id) {
        Some(_) => Some(false),
        None => None,
    }
}

/// Whether the creature `blocker_id` may block, or `None` if there is no such
/// card.
pub fn can_block(game: &GameState, blocker_id: u64) -> (result: Option<bool>)
    requires
        game.wf(),
    ensures
        result == (match game.spec_card(blocker_id) {
            Some(c) => Some(spec_can_block(game, c)),
            None => None,
        }),
{
    let card = match game.card(blocker_id) {
        Some(c) => c,
        None => {
            return None;
        },
    };
    let types = card_types(card);
    let mut result = true;
    result = result && card.controller != game.turn.active_player;
    result = result && !card.tapped;
    result = result && types.creature;
    result = result && !types.battle;
    Some(result)
}

/// The creatures `player` controls that may attack, in order.
pub fn legal_attackers(game: &GameState, player: PlayerName) -> (ids: Vec<u64>)
    requires
        game.wf(),
    ensures
        ids@ == spec_legal_attackers(game, player),
{
    let mut ids: Vec<u64> = Vec::new();
    let mut i: usize = 0;
    while i < game.cards.len()
        invariant
            game.wf(),
            i <= game.cards@.len(),
            ids@ == ids_where(game.cards@, i as nat, attacker_filter(*game, player)),
        decreases game.cards@.len() - i,
    {
        let card = &game.cards[i];
        if card.zone == Zone::Battlefield && card.controller == player {
            if can_attack(game, i as u64) == Some(true) {
                ids.push(i as u64);
            }
        }
        i = i + 1;
    }
    ids
}

/// The creatures `player` controls that may block, in order.
pub fn legal_blockers(game: &GameState, player: PlayerName) -> (ids: Vec<u64>)
    requires
        game.wf(),
    ensures
        ids@ == spec_legal_blockers(game, player),
{
    let mut ids: Vec<u64> = Vec::new();
    let mut i: usize = 0;
    while i < game.cards.len()
        invariant
            game.wf(),
            i <= game.cards@.len(),
            ids@ == ids_where(game.cards@, i as nat, blocker_filter(*game, player)),
        decreases game.cards@.len() - i,
    {
        let card = &game.cards[i];
        if card.zone == Zone::Battlefield && card.controller == player {
            if can_block(game, i as u64) == Some(true) {
                ids.push(i as u64);
            }
        }
        i = i + 1;
    }
    ids
}

/// Appends the targets of `player`: the player and their planeswalkers.
fn push_targets_of(game: &GameState, player: PlayerName, targets: &mut Vec<AttackTarget>)
    requires
        game.wf(),
    ensures
        final(targets)@ == old(targets)@ + targets_of(game, player),
{
    let ghost start = targets@;
    targets.push(AttackTarget::Player(player));
    let ghost after_player = targets@;
    let mut i: usize = 0;
    while i < game.cards.len()
        invariant
            game.wf(),
            i <= game.cards@.len(),
            after_player == start + seq![AttackTarget::Player(player)],
            targets@ == after_player + ids_where(
                game.cards@,
                i as nat,
                planeswalker_filter(player),
            ).map_values(|id: u64| AttackTarget::Planeswalker(player, id)),
        decreases game.cards@.len() - i,
    {
        let card = &game.cards[i];
        if card.zone == Zone::Battlefield && card.controller == player && card_types(
            card,
        ).planeswalker {
            targets.push(AttackTarget::Planeswalker(player, i as u64));
        }
        proof {
            assert(ids_where(game.cards@, (i + 1) as nat, planeswalker_filter(player)).map_values(
                |id: u64| AttackTarget::Planeswalker(player, id),
            ) =~= ids_where(game.cards@, i as nat, planeswalker_filter(player)).map_values(
                |id: u64| AttackTarget::Planeswalker(player, id),
            ) + (if planeswalker_filter(player)(game.cards@[i as int]) {
                seq![AttackTarget::Planeswalker(player, i as u64)]
            } else {
                Seq::empty()
            }));
        }
        i = i + 1;
    }
    proof {
        assert(targets@ =~= start + targets_of(game, player));
    }
}

/// Everything the active player's creatures can attack: each other player,
/// in seat order, followed by their planeswalkers.
pub fn attack_targets(game: &GameState) -> (targets: Vec<AttackTarget>)
    requires
        game.wf(),
    ensures
        targets@ == spec_attack_targets(game),
{
    let mut targets: Vec<AttackTarget> = Vec::new();
    if game.all_players.contains(PlayerName::One) && game.turn.active_player != PlayerName::One {
        push_targets_of(game, PlayerName::One, &mut targets);
    }
    let ghost t1 = targets@;
    if game.all_players.contains(PlayerName::Two) && game.turn.active_player != PlayerName::Two {
        push_targets_of(game, PlayerName::Two, &mut targets);
    }
    let ghost t2 = targets@;
    if game.all_players.contains(PlayerName::Three) && game.turn.active_player
        != PlayerName::Three {
        push_targets_of(game, PlayerName::Three, &mut targets);
    }
    let ghost t3 = targets@;
    if game.all_players.contains(PlayerName::Four) && game.turn.active_player != PlayerName::Four {
        push_targets_of(game, PlayerName::Four, &mut targets);
    }
    proof {
        assert(t1 =~= Seq::<AttackTarget>::empty() + inactive_targets(game, PlayerName::One));
        assert(t2 =~= t1 + inactive_targets(game, PlayerName::Two));
        assert(t3 =~= t2 + inactive_targets(game, PlayerName::Three));
        assert(targets@ =~= t3 + inactive_targets(game, PlayerName::Four));
    }
    targets
}

} // verus!

verus! {

/// The part a permanent plays in the current combat.
#[derive(Debug, Clone, Copy, PartialEq, Eq, Structural)]
pub enum CombatRole {
    SelectedAttacker,
    ProposedAttacker(AttackTarget),
    Attacker(AttackTarget),
    SelectedBlocker,
    ProposedBlocker(u64),
    Blocking { attacker: u64, order: usize },
}

/// Position of the first occurrence of `x` in `s`.
pub open spec fn first_index(s: Seq<u64>, x: u64) -> nat
    decreases s.len(),
{
    if s.len() == 0 || s[0] == x {
        0
    } else {
        1 + first_index(s.drop_first(), x)
    }
}

/// The role of permanent `id` in declared blocks.
pub open spec fn spec_role_in_blocker_map(id: u64, blockers: &BlockerMap) -> Option<CombatRole> {
    if blockers.attackers.has(id) {
        Some(CombatRole::Attacker(blockers.attackers.value(id)))
    } else if blockers.reverse_lookup.has(id) {
        let attacker = blockers.reverse_lookup.value(id)@[0];
        Some(
            CombatRole::Blocking {
                attacker,
                order: first_index(blockers.blocked_attackers.value(attacker)@, id) as usize,
            },
        )
    } else {
        None
    }
}

/// The role of permanent `id` in the current combat, if any.
pub open spec fn spec_role(game: &GameState, id: u64) -> Option<CombatRole> {
    match &game.combat {
        None => None,
        Some(CombatState::ProposingAttackers(attackers)) => if attackers.proposed_attacks.has(id) {
            Some(CombatRole::ProposedAttacker(attackers.proposed_attacks.value(id)))
        } else if attackers.selected_attackers@.contains(id) {
            Some(CombatRole::SelectedAttacker)
        } else {
            None
        },
        Some(CombatState::ConfirmedAttackers(attackers)) => if attackers.has(id) {
            Some(CombatRole::Attacker(attackers.value(id)))
        } else {
            None
        },
        Some(CombatState::ProposingBlockers(blockers)) => if blockers.proposed_blocks.has(id) {
            Some(CombatRole::ProposedBlocker(blockers.proposed_blocks.value(id)@[0]))
        } else if blockers.selected_blockers@.contains(id) {
            Some(CombatRole::SelectedBlocker)
        } else if blockers.attackers.has(id) {
            Some(CombatRole::Attacker(blockers.attackers.value(id)))
        } else {
            None
        },
        Some(CombatState::OrderingBlockers(blockers)) => spec_role_in_blocker_map(id, blockers),
        Some(CombatState::ConfirmedBlockers(blockers)) => spec_role_in_blocker_map(id, blockers),
    }
}

/// Position of `x` in `s`, which holds it.
fn position_of(s: &Vec<u64>, x: u64) -> (i: usize)
    requires
        s@.contains(x),
    ensures
        i == first_index(s@, x),
        i < s@.len(),
{
    let mut i: usize = 0;
    proof {
        assert(s@.skip(0) =~= s@);
    }
    while i < s.len() && s[i] != x
        invariant
            i <= s@.len(),
            s@.contains(x),
            forall|j: int| 0 <= j < i ==> s@[j] != x,
            first_index(s@, x) == i + first_index(s@.skip(i as int), x),
        decreases s@.len() - i,
    {
        proof {
            assert(s@.skip(i as int).drop_first() =~= s@.skip(i + 1));
        }
        i = i + 1;
    }
    proof {
        if i == s@.len() {
            let k = choose|k: int| 0 <= k < s@.len() && s@[k] == x;
            assert(s@[k] != x);
        }
        assert(s@.skip(i as int)[0] == s@[i as int]);
    }
    i
}

/// The role of permanent `id` in declared blocks.
fn role_in_blocker_map(id: u64, blockers: &BlockerMap) -> (role: Option<CombatRole>)
    requires
        blockers.wf(),
    ensures
        role == spec_role_in_blocker_map(id, blockers),
{
    if let Some(target) = blockers.attackers.get(id) {
        Some(CombatRole::Attacker(*target))
    } else if let Some(pos) = blockers.reverse_lookup.find(id) {
        let attacker = blockers.reverse_lookup.entries[pos].1[0];
        proof {
            assert(blockers.reverse_lookup@[pos as int].1@.len() > 0);
            assert(blockers.blocked_attackers.has(attacker));
        }
        let list = blockers.blocked_attackers.get(attacker).unwrap();
        let order = position_of(list, id);
        Some(CombatRole::Blocking { attacker, order })
    } else {
        None
    }
}

/// The role of permanent `id` in the current combat, if any.
pub fn role(game: &GameState, permanent_id: u64) -> (r: Option<CombatRole>)
    requires
        game.wf(),
    ensures
        r == spec_role(game, permanent_id),
{
    match &game.combat {
        None => None,
        Some(CombatState::ProposingAttackers(attackers)) => {
            if let Some(target) = attackers.proposed_attacks.get(permanent_id) {
                Some(CombatRole::ProposedAttacker(*target))
            } else if attackers.selected_attackers.contains(permanent_id) {
                Some(CombatRole::SelectedAttacker)
            } else {
                None
            }
        },
        Some(CombatState::ConfirmedAttackers(attackers)) => {
            match attackers.get(permanent_id) {
                Some(target) => Some(CombatRole::Attacker(*target)),
                None => None,
            }
        },
        Some(CombatState::ProposingBlockers(blockers)) => {
            if let Some(pos) = blockers.proposed_blocks.find(permanent_id) {
                proof {
                    assert(blockers.proposed_blocks@[pos as int].1@.len() > 0);
                }
                Some(CombatRole::ProposedBlocker(blockers.proposed_blocks.entries[pos].1[0]))
            } else if blockers.selected_blockers.contains(permanent_id) {
                Some(CombatRole::SelectedBlocker)
            } else {
                match blockers.attackers.get(permanent_id) {
                    Some(target) => Some(CombatRole::Attacker(*target)),
                    None => None,
                }
            }
        },
        Some(CombatState::OrderingBlockers(blockers)) => role_in_blocker_map(permanent_id, blockers),
        Some(CombatState::ConfirmedBlockers(blockers)) => role_in_blocker_map(permanent_id, blockers),
    }
}

} // verus!
