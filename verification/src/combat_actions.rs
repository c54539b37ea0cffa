//! Declaring attackers and blockers: the actions players take while combat
//! is being set up, and how each changes the state of combat.
use crate::combat_queries::{attack_targets, spec_attack_targets};
use crate::game_state::{
    single_attacker_blocks, AttackTarget, BlockerMap, CardState, CombatAction, CombatState, GameState,
    ProposedAttackers, ProposedBlockers,
};
use crate::id_collections::{
    entry_keys, lemma_lists_view_insert, lemma_lists_view_keys, lemma_lists_view_remove,
    lemma_map_insert, lemma_map_insert_entries, lemma_map_remove_entries, lists_view, map_insert,
    lemma_map_insert_then_remove, lemma_set_insert_then_remove, map_remove, map_value, set_insert,
    set_remove, IdMap,
};
use crate::prompts::{lemma_remove_id_contains, remove_id};
use crate::permanents::{is_permanent, tap};
use crate::player_queries::{next_player, seat_supported, spec_next_player_after};
use crate::primitives::{PlayerName, Zone};
use vstd::prelude::*;

verus! {

/// Everything but combat is unchanged.
pub open spec fn same_but_combat(a: &GameState, b: &GameState) -> bool {
    &&& a.status == b.status
    &&& a.step == b.step
    &&& a.turn == b.turn
    &&& a.priority == b.priority
    &&& a.passed == b.passed
    &&& a.all_players == b.all_players
    &&& a.players == b.players
    &&& a.cards == b.cards
    &&& a.libraries == b.libraries
    &&& a.graveyards == b.graveyards
    &&& a.stack == b.stack
    &&& a.history == b.history
    &&& a.state_based_events == b.state_based_events
    &&& a.agent_search == b.agent_search
    &&& a.control_changing_effects == b.control_changing_effects
    &&& a.this_turn == b.this_turn
}

/// Attackers are being declared.
pub open spec fn proposing_attackers(game: &GameState) -> bool {
    game.combat matches Some(CombatState::ProposingAttackers(_))
}

/// The attackers being declared.
pub open spec fn proposed(game: &GameState) -> &ProposedAttackers {
    match &game.combat {
        Some(CombatState::ProposingAttackers(a)) => a,
        _ => arbitrary(),
    }
}

/// `cards` after tapping permanent `id`.
pub open spec fn tap_card(cards: Seq<CardState>, id: u64) -> Seq<CardState> {
    if id < cards.len() && cards[id as int].zone == Zone::Battlefield {
        cards.update(id as int, CardState { tapped: true, ..cards[id as int] })
    } else {
        cards
    }
}

/// `cards` after tapping each permanent of `ids` in turn.
pub open spec fn tap_cards(cards: Seq<CardState>, ids: Seq<u64>) -> Seq<CardState>
    decreases ids.len(),
{
    if ids.len() == 0 {
        cards
    } else {
        tap_card(tap_cards(cards, ids.drop_last()), ids.last())
    }
}

/// `entries` after assigning `target` to each of `ids` in turn.
pub open spec fn assign_all<V>(entries: Seq<(u64, V)>, ids: Seq<u64>, target: V) -> Seq<(u64, V)>
    decreases ids.len(),
{
    if ids.len() == 0 {
        entries
    } else {
        map_insert(assign_all(entries, ids.drop_last(), target), ids.last(), target)
    }
}

/// Selects creature `card_id` to attack. When there is only one thing to
/// attack, the creature is assigned to attack the next player directly.
pub fn add_selected_attacker(game: &mut GameState, card_id: u64)
    requires
        old(game).wf(),
        proposing_attackers(old(game)),
        seat_supported(old(game).all_players.count(), old(game).turn.active_player),
    ensures
        final(game).wf(),
        same_but_combat(old(game), final(game)),
        proposing_attackers(final(game)),
        if spec_attack_targets(old(game)).len() > 1 {
            &&& proposed(final(game)).selected_attackers@ == set_insert(
                proposed(old(game)).selected_attackers@,
                card_id,
            )
            &&& proposed(final(game)).proposed_attacks@ == proposed(old(game)).proposed_attacks@
        } else {
            &&& proposed(final(game)).proposed_attacks@ == map_insert(
                proposed(old(game)).proposed_attacks@,
                card_id,
                AttackTarget::Player(
                    spec_next_player_after(old(game).all_players.count(), old(game).turn.active_player),
                ),
            )
            &&& proposed(final(game)).selected_attackers@ == proposed(old(game)).selected_attackers@
        },
{
    let next = next_player(game);
    let requires_target = attack_targets(game).len() > 1;
    match game.combat.take() {
        Some(CombatState::ProposingAttackers(mut attackers)) => {
            if requires_target {
                attackers.selected_attackers.insert(card_id);
            } else {
                attackers.proposed_attacks.insert(card_id, AttackTarget::Player(next));
            }
            game.combat = Some(CombatState::ProposingAttackers(attackers));
        },
        other => {
            game.combat = other;
        },
    }
}

/// Assigns `target` to every selected attacker; the selection stays.
pub fn set_selected_attackers_target(game: &mut GameState, target: AttackTarget)
    requires
        old(game).wf(),
        proposing_attackers(old(game)),
    ensures
        final(game).wf(),
        same_but_combat(old(game), final(game)),
        proposing_attackers(final(game)),
        proposed(final(game)).proposed_attacks@ == assign_all(
            proposed(old(game)).proposed_attacks@,
            proposed(old(game)).selected_attackers@,
            target,
        ),
        proposed(final(game)).selected_attackers@ == proposed(old(game)).selected_attackers@,
{
    match game.combat.take() {
        Some(CombatState::ProposingAttackers(mut attackers)) => {
            let ghost start = attackers.proposed_attacks@;
            let ghost selected = attackers.selected_attackers@;
            let mut i: usize = 0;
            while i < attackers.selected_attackers.ids.len()
                invariant
                    attackers.selected_attackers@ == selected,
                    attackers.proposed_attacks.wf(),
                    attackers.selected_attackers.wf(),
                    i <= attackers.selected_attackers@.len(),
                    attackers.proposed_attacks@ == assign_all(
                        start,
                        attackers.selected_attackers@.take(i as int),
                        target,
                    ),
                decreases attackers.selected_attackers@.len() - i,
            {
                let id = attackers.selected_attackers.ids[i];
                attackers.proposed_attacks.insert(id, target);
                proof {
                    assert(attackers.selected_attackers@.take(i + 1).drop_last()
                        =~= attackers.selected_attackers@.take(i as int));
                }
                i = i + 1;
            }
            proof {
                assert(attackers.selected_attackers@.take(i as int)
                    =~= attackers.selected_attackers@);
            }
            game.combat = Some(CombatState::ProposingAttackers(attackers));
        },
        other => {
            game.combat = other;
        },
    }
}

/// Withdraws creature `card_id` from the attack, whether selected or
/// assigned a target.
pub fn remove_attacker(game: &mut GameState, card_id: u64)
    requires
        old(game).wf(),
        proposing_attackers(old(game)),
    ensures
        final(game).wf(),
        same_but_combat(old(game), final(game)),
        proposing_attackers(final(game)),
        proposed(final(game)).selected_attackers@ == set_remove(
            proposed(old(game)).selected_attackers@,
            card_id,
        ),
        proposed(final(game)).proposed_attacks@ == map_remove(
            proposed(old(game)).proposed_attacks@,
            card_id,
        ),
{
    match game.combat.take() {
        Some(CombatState::ProposingAttackers(mut attackers)) => {
            attackers.selected_attackers.remove(card_id);
            attackers.proposed_attacks.remove(card_id);
            game.combat = Some(CombatState::ProposingAttackers(attackers));
        },
        other => {
            game.combat = other;
        },
    }
}

/// Confirms the declared attacks: every creature assigned a target taps and
/// attacks; selected creatures without a target do not.
pub fn confirm_attackers(game: &mut GameState)
    requires
        old(game).wf(),
        proposing_attackers(old(game)),
    ensures
        final(game).wf(),
        final(game).combat matches Some(CombatState::ConfirmedAttackers(a)) && a@
            == proposed(old(game)).proposed_attacks@,
        final(game).cards@ == tap_cards(
            old(game).cards@,
            entry_keys(proposed(old(game)).proposed_attacks@),
        ),
        final(game).status == old(game).status,
        final(game).step == old(game).step,
        final(game).turn == old(game).turn,
        final(game).priority == old(game).priority,
        final(game).passed == old(game).passed,
        final(game).all_players == old(game).all_players,
        final(game).players == old(game).players,
        final(game).libraries == old(game).libraries,
        final(game).graveyards == old(game).graveyards,
        final(game).stack == old(game).stack,
        final(game).history == old(game).history,
        final(game).state_based_events == old(game).state_based_events,
        final(game).agent_search == old(game).agent_search,
        final(game).control_changing_effects == old(game).control_changing_effects,
        final(game).this_turn == old(game).this_turn,
{
    match game.combat.take() {
        Some(CombatState::ProposingAttackers(attackers)) => {
            let proposed_attacks = attackers.proposed_attacks;
            let ghost keys = entry_keys(proposed_attacks@);
            let ghost start = game.cards@;
            let mut i: usize = 0;
            while i < proposed_attacks.entries.len()
                invariant
                    game.wf(),
                    game.combat is None,
                    proposed_attacks.wf(),
                    keys == entry_keys(proposed_attacks@),
                    i <= keys.len(),
                    game.cards@ == tap_cards(start, keys.take(i as int)),
                    game.cards@.len() == start.len(),
                    game.status == old(game).status,
                    game.step == old(game).step,
                    game.turn == old(game).turn,
                    game.priority == old(game).priority,
                    game.passed == old(game).passed,
                    game.all_players == old(game).all_players,
                    game.players == old(game).players,
                    game.libraries == old(game).libraries,
                    game.graveyards == old(game).graveyards,
                    game.stack == old(game).stack,
                    game.history == old(game).history,
                    game.state_based_events == old(game).state_based_events,
                    game.agent_search == old(game).agent_search,
                    game.control_changing_effects == old(game).control_changing_effects,
                    game.this_turn == old(game).this_turn,
                decreases keys.len() - i,
            {
                let id = proposed_attacks.entries[i].0;
                let ghost before = game.cards@;
                tap(game, id);
                proof {
                    assert(keys.take(i + 1).drop_last() =~= keys.take(i as int));
                    assert(keys[i as int] == id);
                    assert(game.cards@ =~= tap_card(before, id));
                }
                i = i + 1;
            }
            proof {
                assert(keys.take(i as int) =~= keys);
            }
            game.combat = Some(CombatState::ConfirmedAttackers(proposed_attacks));
        },
        other => {
            game.combat = other;
        },
    }
}

/// Blockers are being declared.
pub open spec fn proposing_blockers(game: &GameState) -> bool {
    game.combat matches Some(CombatState::ProposingBlockers(_))
}

/// The blockers being declared.
pub open spec fn blockers_of(game: &GameState) -> &ProposedBlockers {
    match &game.combat {
        Some(CombatState::ProposingBlockers(b)) => b,
        _ => arbitrary(),
    }
}

/// Blocks are being ordered.
pub open spec fn ordering_blockers(game: &GameState) -> bool {
    game.combat matches Some(CombatState::OrderingBlockers(_))
}

/// The declared blocks.
pub open spec fn blocker_map_of(game: &GameState) -> &BlockerMap {
    match &game.combat {
        Some(CombatState::OrderingBlockers(m)) => m,
        Some(CombatState::ConfirmedBlockers(m)) => m,
        _ => arbitrary(),
    }
}

/// `groups` with `blocker` added last to the blockers of `attacker`.
pub open spec fn add_blocker(groups: Seq<(u64, Seq<u64>)>, attacker: u64, blocker: u64) -> Seq<
    (u64, Seq<u64>),
> {
    let current = if entry_keys(groups).contains(attacker) {
        map_value(groups, attacker)
    } else {
        Seq::empty()
    };
    map_insert(groups, attacker, current.push(blocker))
}

/// For each blocked attacker, its blockers in order of their identifiers,
/// from blocks that each name one attacker.
pub open spec fn group_blocks(blocks: Seq<(u64, Seq<u64>)>) -> Seq<(u64, Seq<u64>)>
    decreases blocks.len(),
{
    if blocks.len() == 0 {
        Seq::empty()
    } else {
        add_blocker(group_blocks(blocks.drop_last()), blocks.last().1[0], blocks.last().0)
    }
}

/// Selects creature `card_id` to block. When only one creature attacks, the
/// blocker is assigned to block it directly.
pub fn add_selected_blocker(game: &mut GameState, card_id: u64)
    requires
        old(game).wf(),
        proposing_blockers(old(game)),
    ensures
        final(game).wf(),
        same_but_combat(old(game), final(game)),
        proposing_blockers(final(game)),
        blockers_of(final(game)).defender == blockers_of(old(game)).defender,
        blockers_of(final(game)).attackers@ == blockers_of(old(game)).attackers@,
        if blockers_of(old(game)).attackers@.len() == 1 {
            &&& lists_view(blockers_of(final(game)).proposed_blocks@) == map_insert(
                lists_view(blockers_of(old(game)).proposed_blocks@),
                card_id,
                seq![blockers_of(old(game)).attackers@[0].0],
            )
            &&& blockers_of(final(game)).selected_blockers@ == blockers_of(old(game)).selected_blockers@
        } else {
            &&& blockers_of(final(game)).selected_blockers@ == set_insert(
                blockers_of(old(game)).selected_blockers@,
                card_id,
            )
            &&& blockers_of(final(game)).proposed_blocks@ == blockers_of(old(game)).proposed_blocks@
        },
{
    match game.combat.take() {
        Some(CombatState::ProposingBlockers(mut blockers)) => {
            if let Some(id) = blockers.attackers.exactly_one() {
                let ghost before = blockers.proposed_blocks@;
                let list = vec![id];
                proof {
                    assert(list@ =~= seq![id]);
                    lemma_lists_view_insert(before, card_id, list);
                    assert forall|i: int| 0 <= i < map_insert(before, card_id, list).len() implies #[trigger] map_insert(
                        before,
                        card_id,
                        list,
                    )[i].1@.len() == 1 by {
                        lemma_map_insert_entries(before, card_id, list, i);
                    }
                }
                blockers.proposed_blocks.insert(card_id, list);
            } else {
                blockers.selected_blockers.insert(card_id);
            }
            game.combat = Some(CombatState::ProposingBlockers(blockers));
        },
        other => {
            game.combat = other;
        },
    }
}

/// Assigns every selected blocker to block `attacker`; the selection stays.
pub fn set_selected_blockers_target(game: &mut GameState, attacker: u64)
    requires
        old(game).wf(),
        proposing_blockers(old(game)),
    ensures
        final(game).wf(),
        same_but_combat(old(game), final(game)),
        proposing_blockers(final(game)),
        blockers_of(final(game)).defender == blockers_of(old(game)).defender,
        blockers_of(final(game)).attackers@ == blockers_of(old(game)).attackers@,
        blockers_of(final(game)).selected_blockers@ == blockers_of(old(game)).selected_blockers@,
        lists_view(blockers_of(final(game)).proposed_blocks@) == assign_all(
            lists_view(blockers_of(old(game)).proposed_blocks@),
            blockers_of(old(game)).selected_blockers@,
            seq![attacker],
        ),
{
    match game.combat.take() {
        Some(CombatState::ProposingBlockers(mut blockers)) => {
            let ghost start = lists_view(blockers.proposed_blocks@);
            let ghost selected = blockers.selected_blockers@;
            let ghost attackers0 = blockers.attackers@;
            let ghost defender0 = blockers.defender;
            let mut i: usize = 0;
            while i < blockers.selected_blockers.ids.len()
                invariant
                    blockers.selected_blockers@ == selected,
                    blockers.selected_blockers.wf(),
                    blockers.attackers@ == attackers0,
                    blockers.attackers.wf(),
                    blockers.defender == defender0,
                    blockers.proposed_blocks.wf(),
                    single_attacker_blocks(blockers.proposed_blocks@),
                    i <= selected.len(),
                    lists_view(blockers.proposed_blocks@) == assign_all(
                        start,
                        selected.take(i as int),
                        seq![attacker],
                    ),
                decreases selected.len() - i,
            {
                let id = blockers.selected_blockers.ids[i];
                let list = vec![attacker];
                let ghost before = blockers.proposed_blocks@;
                proof {
                    assert(list@ =~= seq![attacker]);
                    lemma_lists_view_insert(before, id, list);
                    assert forall|j: int| 0 <= j < map_insert(before, id, list).len() implies #[trigger] map_insert(
                        before,
                        id,
                        list,
                    )[j].1@.len() == 1 by {
                        lemma_map_insert_entries(before, id, list, j);
                    }
                    assert(selected.take(i + 1).drop_last() =~= selected.take(i as int));
                }
                blockers.proposed_blocks.insert(id, list);
                i = i + 1;
            }
            proof {
                assert(selected.take(i as int) =~= selected);
            }
            game.combat = Some(CombatState::ProposingBlockers(blockers));
        },
        other => {
            game.combat = other;
        },
    }
}

/// Withdraws creature `card_id` from blocking, whether selected or assigned.
pub fn remove_blocker(game: &mut GameState, card_id: u64)
    requires
        old(game).wf(),
        proposing_blockers(old(game)),
    ensures
        final(game).wf(),
        same_but_combat(old(game), final(game)),
        proposing_blockers(final(game)),
        blockers_of(final(game)).defender == blockers_of(old(game)).defender,
        blockers_of(final(game)).attackers@ == blockers_of(old(game)).attackers@,
        blockers_of(final(game)).selected_blockers@ == set_remove(
            blockers_of(old(game)).selected_blockers@,
            card_id,
        ),
        blockers_of(final(game)).proposed_blocks@ == map_remove(
            blockers_of(old(game)).proposed_blocks@,
            card_id,
        ),
{
    match game.combat.take() {
        Some(CombatState::ProposingBlockers(mut blockers)) => {
            let ghost before = blockers.proposed_blocks@;
            proof {
                assert forall|j: int| 0 <= j < map_remove(before, card_id).len() implies #[trigger] map_remove(
                    before,
                    card_id,
                )[j].1@.len() == 1 by {
                    lemma_map_remove_entries(before, card_id, j);
                }
            }
            blockers.selected_blockers.remove(card_id);
            blockers.proposed_blocks.remove(card_id);
            game.combat = Some(CombatState::ProposingBlockers(blockers));
        },
        other => {
            game.combat = other;
        },
    }
}

/// Confirms the declared blocks. Each blocker blocks one attacker; every
/// blocked attacker lists its blockers in order of their identifiers, and
/// blockers are then ordered.
pub fn confirm_blockers(game: &mut GameState)
    requires
        old(game).wf(),
        proposing_blockers(old(game)),
    ensures
        final(game).wf(),
        same_but_combat(old(game), final(game)),
        ordering_blockers(final(game)),
        blocker_map_of(final(game)).attackers@ == blockers_of(old(game)).attackers@,
        blocker_map_of(final(game)).reverse_lookup@ == blockers_of(old(game)).proposed_blocks@,
        lists_view(blocker_map_of(final(game)).blocked_attackers@) == group_blocks(
            lists_view(blockers_of(old(game)).proposed_blocks@),
        ),
{
    match game.combat.take() {
        Some(CombatState::ProposingBlockers(blockers)) => {
            let ProposedBlockers { defender, attackers, selected_blockers, proposed_blocks } =
                blockers;
            let ghost blocks = proposed_blocks@;
            let ghost view = lists_view(blocks);
            let mut grouped: IdMap<Vec<u64>> = IdMap::new();
            let mut i: usize = 0;
            proof {
                assert(lists_view(grouped@) =~= group_blocks(view.take(0)));
            }
            while i < proposed_blocks.entries.len()
                invariant
                    blocks == proposed_blocks@,
                    view == lists_view(blocks),
                    proposed_blocks.wf(),
                    single_attacker_blocks(blocks),
                    grouped.wf(),
                    i <= blocks.len(),
                    lists_view(grouped@) == group_blocks(view.take(i as int)),
                    forall|j: int|
                        0 <= j < i ==> grouped.has(#[trigger] blocks[j].1@[0]) && grouped.value(
                            blocks[j].1@[0],
                        )@.contains(blocks[j].0),
                decreases blocks.len() - i,
            {
                let blocker = proposed_blocks.entries[i].0;
                proof {
                    assert(blocks[i as int].1@.len() == 1);
                }
                let attacker = proposed_blocks.entries[i].1[0];
                let mut list: Vec<u64> = match grouped.get(attacker) {
                    Some(existing) => {
                        let copy = existing.clone();
                        proof {
                            assert(copy@ =~= existing@);
                            lemma_lists_view_keys(grouped@);
                            crate::id_collections::lemma_count_less_contains(grouped.keys(), attacker);
                            assert(existing@ == map_value(lists_view(grouped@), attacker));
                        }
                        copy
                    },
                    None => Vec::new(),
                };
                let ghost before = grouped@;
                let ghost previous = list@;
                list.push(blocker);
                proof {
                    lemma_lists_view_keys(before);
                    lemma_lists_view_insert(before, attacker, list);
                    assert(view.take(i + 1).drop_last() =~= view.take(i as int));
                    assert(view[i as int] == (blocker, blocks[i as int].1@));
                    if grouped.has(attacker) {
                        assert(previous =~= map_value(lists_view(before), attacker));
                    } else {
                        assert(previous =~= Seq::<u64>::empty());
                    }
                    assert(list@ =~= previous.push(blocker));
                    assert forall|j: int| 0 <= j <= i implies map_insert(
                        before,
                        attacker,
                        list,
                    ).map_values(|e: (u64, Vec<u64>)| e.0).contains(#[trigger] blocks[j].1@[0])
                        && map_value(map_insert(before, attacker, list), blocks[j].1@[0])@.contains(
                        blocks[j].0,
                    ) by {
                        lemma_map_insert(before, attacker, list, blocks[j].1@[0]);
                        if j < i && blocks[j].1@[0] == attacker {
                            assert(previous.contains(blocks[j].0));
                            let k = choose|k: int|
                                0 <= k < previous.len() && previous[k] == blocks[j].0;
                            assert(list@[k] == blocks[j].0);
                        }
                        if j == i {
                            assert(list@[list@.len() - 1] == blocker);
                        }
                    }
                }
                grouped.insert(attacker, list);
                i = i + 1;
            }
            proof {
                assert(view.take(i as int) =~= view);
                assert forall|j: int| 0 <= j < blocks.len() implies #[trigger] blocks[j].1@.len()
                    > 0 by {
                    assert(blocks[j].1@.len() == 1);
                }
            }
            game.combat = Some(
                CombatState::OrderingBlockers(
                    BlockerMap {
                        attackers,
                        blocked_attackers: grouped,
                        reverse_lookup: proposed_blocks,
                    },
                ),
            );
        },
        other => {
            game.combat = other;
        },
    }
}

/// Moves `blocker` to position `position` among the blockers of `attacker`.
pub fn order_blocker(game: &mut GameState, attacker: u64, blocker: u64, position: usize)
    requires
        old(game).wf(),
        ordering_blockers(old(game)),
        blocker_map_of(old(game)).blocked_attackers.has(attacker),
        position <= remove_id(blocker_map_of(old(game)).blocked_attackers.value(attacker)@, blocker).len(),
    ensures
        final(game).wf(),
        same_but_combat(old(game), final(game)),
        ordering_blockers(final(game)),
        blocker_map_of(final(game)).attackers@ == blocker_map_of(old(game)).attackers@,
        blocker_map_of(final(game)).reverse_lookup@ == blocker_map_of(old(game)).reverse_lookup@,
        lists_view(blocker_map_of(final(game)).blocked_attackers@) == map_insert(
            lists_view(blocker_map_of(old(game)).blocked_attackers@),
            attacker,
            remove_id(blocker_map_of(old(game)).blocked_attackers.value(attacker)@, blocker).insert(
                position as int,
                blocker,
            ),
        ),
{
    match game.combat.take() {
        Some(CombatState::OrderingBlockers(mut blockers)) => {
            let ghost before = blockers.blocked_attackers@;
            let current = blockers.blocked_attackers.get(attacker).unwrap();
            let mut list = crate::prompts::copy_without(current, blocker);
            list.insert(position, blocker);
            proof {
                lemma_lists_view_insert(before, attacker, list);
                let rev = blockers.reverse_lookup@;
                assert forall|j: int| 0 <= j < rev.len() implies {
                    let a = #[trigger] rev[j].1@[0];
                    &&& map_insert(before, attacker, list).map_values(|e: (u64, Vec<u64>)| e.0).contains(a)
                    &&& map_value(map_insert(before, attacker, list), a)@.contains(rev[j].0)
                } by {
                    let a = rev[j].1@[0];
                    lemma_map_insert(before, attacker, list, a);
                    if a == attacker {
                        let b = rev[j].0;
                        if b == blocker {
                            assert(list@[position as int] == blocker);
                        } else {
                            lemma_remove_id_contains(map_value(before, attacker)@, blocker, b);
                            let removed = remove_id(map_value(before, attacker)@, blocker);
                            let k = choose|k: int| 0 <= k < removed.len() && removed[k] == b;
                            if k < position {
                                assert(list@[k] == b);
                            } else {
                                assert(list@[k + 1] == b);
                            }
                        }
                    }
                }
            }
            blockers.blocked_attackers.insert(attacker, list);
            game.combat = Some(CombatState::OrderingBlockers(blockers));
        },
        other => {
            game.combat = other;
        },
    }
}

/// Confirms the order of blockers; combat damage can then be assigned.
pub fn confirm_blocker_order(game: &mut GameState)
    requires
        old(game).wf(),
        ordering_blockers(old(game)),
    ensures
        final(game).wf(),
        same_but_combat(old(game), final(game)),
        final(game).combat matches Some(CombatState::ConfirmedBlockers(m)) && m.attackers@
            == blocker_map_of(old(game)).attackers@ && m.blocked_attackers@ == blocker_map_of(
            old(game),
        ).blocked_attackers@ && m.reverse_lookup@ == blocker_map_of(old(game)).reverse_lookup@,
{
    match game.combat.take() {
        Some(CombatState::OrderingBlockers(blockers)) => {
            game.combat = Some(CombatState::ConfirmedBlockers(blockers));
        },
        other => {
            game.combat = other;
        },
    }
}

/// Whether `action` can be taken in the current stage of combat.
pub open spec fn combat_action_applies(game: &GameState, action: CombatAction) -> bool {
    match action {
        CombatAction::AddSelectedAttacker(_) => proposing_attackers(game) && seat_supported(
            game.all_players.count(),
            game.turn.active_player,
        ),
        CombatAction::SetSelectedAttackersTarget(_) => proposing_attackers(game),
        CombatAction::RemoveAttacker(_) => proposing_attackers(game),
        CombatAction::ConfirmAttackers => proposing_attackers(game),
        CombatAction::AddSelectedBlocker(_) => proposing_blockers(game),
        CombatAction::SetSelectedBlockersTarget(_) => proposing_blockers(game),
        CombatAction::RemoveBlocker(_) => proposing_blockers(game),
        CombatAction::ConfirmBlockers => proposing_blockers(game),
        CombatAction::OrderBlocker { attacker_id, blocker_id, position } => {
            &&& ordering_blockers(game)
            &&& blocker_map_of(game).blocked_attackers.has(attacker_id)
            &&& position <= remove_id(
                blocker_map_of(game).blocked_attackers.value(attacker_id)@,
                blocker_id,
            ).len()
        },
        CombatAction::ConfirmBlockerOrder => ordering_blockers(game),
    }
}

/// The game after `action` is taken in combat.
pub open spec fn combat_action_taken(old: &GameState, new: &GameState, action: CombatAction) -> bool {
    match action {
        CombatAction::AddSelectedAttacker(card_id) => {
            &&& same_but_combat(old, new)
            &&& proposing_attackers(new)
            &&& if spec_attack_targets(old).len() > 1 {
                &&& proposed(new).selected_attackers@ == set_insert(
                    proposed(old).selected_attackers@,
                    card_id,
                )
                &&& proposed(new).proposed_attacks@ == proposed(old).proposed_attacks@
            } else {
                &&& proposed(new).proposed_attacks@ == map_insert(
                    proposed(old).proposed_attacks@,
                    card_id,
                    AttackTarget::Player(
                        spec_next_player_after(old.all_players.count(), old.turn.active_player),
                    ),
                )
                &&& proposed(new).selected_attackers@ == proposed(old).selected_attackers@
            }
        },
        CombatAction::SetSelectedAttackersTarget(target) => {
            &&& same_but_combat(old, new)
            &&& proposing_attackers(new)
            &&& proposed(new).proposed_attacks@ == assign_all(
                proposed(old).proposed_attacks@,
                proposed(old).selected_attackers@,
                target,
            )
            &&& proposed(new).selected_attackers@ == proposed(old).selected_attackers@
        },
        CombatAction::RemoveAttacker(card_id) => {
            &&& same_but_combat(old, new)
            &&& proposing_attackers(new)
            &&& proposed(new).selected_attackers@ == set_remove(
                proposed(old).selected_attackers@,
                card_id,
            )
            &&& proposed(new).proposed_attacks@ == map_remove(
                proposed(old).proposed_attacks@,
                card_id,
            )
        },
        CombatAction::ConfirmAttackers => {
            &&& new.combat matches Some(CombatState::ConfirmedAttackers(a)) && a@ == proposed(
                old,
            ).proposed_attacks@
            &&& new.cards@ == tap_cards(old.cards@, entry_keys(proposed(old).proposed_attacks@))
            &&& new.status == old.status
            &&& new.step == old.step
            &&& new.turn == old.turn
            &&& new.priority == old.priority
            &&& new.passed == old.passed
            &&& new.all_players == old.all_players
            &&& new.players == old.players
            &&& new.libraries == old.libraries
            &&& new.graveyards == old.graveyards
            &&& new.stack == old.stack
            &&& new.history == old.history
            &&& new.state_based_events == old.state_based_events
            &&& new.agent_search == old.agent_search
            &&& new.control_changing_effects == old.control_changing_effects
            &&& new.this_turn == old.this_turn
        },
        CombatAction::AddSelectedBlocker(card_id) => {
            &&& same_but_combat(old, new)
            &&& proposing_blockers(new)
            &&& blockers_of(new).defender == blockers_of(old).defender
            &&& blockers_of(new).attackers@ == blockers_of(old).attackers@
            &&& if blockers_of(old).attackers@.len() == 1 {
                &&& lists_view(blockers_of(new).proposed_blocks@) == map_insert(
                    lists_view(blockers_of(old).proposed_blocks@),
                    card_id,
                    seq![blockers_of(old).attackers@[0].0],
                )
                &&& blockers_of(new).selected_blockers@ == blockers_of(old).selected_blockers@
            } else {
                &&& blockers_of(new).selected_blockers@ == set_insert(
                    blockers_of(old).selected_blockers@,
                    card_id,
                )
                &&& blockers_of(new).proposed_blocks@ == blockers_of(old).proposed_blocks@
            }
        },
        CombatAction::SetSelectedBlockersTarget(attacker) => {
            &&& same_but_combat(old, new)
            &&& proposing_blockers(new)
            &&& blockers_of(new).defender == blockers_of(old).defender
            &&& blockers_of(new).attackers@ == blockers_of(old).attackers@
            &&& blockers_of(new).selected_blockers@ == blockers_of(old).selected_blockers@
            &&& lists_view(blockers_of(new).proposed_blocks@) == assign_all(
                lists_view(blockers_of(old).proposed_blocks@),
                blockers_of(old).selected_blockers@,
                seq![attacker],
            )
        },
        CombatAction::RemoveBlocker(card_id) => {
            &&& same_but_combat(old, new)
            &&& proposing_blockers(new)
            &&& blockers_of(new).defender == blockers_of(old).defender
            &&& blockers_of(new).attackers@ == blockers_of(old).attackers@
            &&& blockers_of(new).selected_blockers@ == set_remove(
                blockers_of(old).selected_blockers@,
                card_id,
            )
            &&& blockers_of(new).proposed_blocks@ == map_remove(
                blockers_of(old).proposed_blocks@,
                card_id,
            )
        },
        CombatAction::ConfirmBlockers => {
            &&& same_but_combat(old, new)
            &&& ordering_blockers(new)
            &&& blocker_map_of(new).attackers@ == blockers_of(old).attackers@
            &&& blocker_map_of(new).reverse_lookup@ == blockers_of(old).proposed_blocks@
            &&& lists_view(blocker_map_of(new).blocked_attackers@) == group_blocks(
                lists_view(blockers_of(old).proposed_blocks@),
            )
        },
        CombatAction::OrderBlocker { attacker_id, blocker_id, position } => {
            &&& same_but_combat(old, new)
            &&& ordering_blockers(new)
            &&& blocker_map_of(new).attackers@ == blocker_map_of(old).attackers@
            &&& blocker_map_of(new).reverse_lookup@ == blocker_map_of(old).reverse_lookup@
            &&& lists_view(blocker_map_of(new).blocked_attackers@) == map_insert(
                lists_view(blocker_map_of(old).blocked_attackers@),
                attacker_id,
                remove_id(blocker_map_of(old).blocked_attackers.value(attacker_id)@, blocker_id).insert(
                    position as int,
                    blocker_id,
                ),
            )
        },
        CombatAction::ConfirmBlockerOrder => {
            &&& same_but_combat(old, new)
            &&& new.combat matches Some(CombatState::ConfirmedBlockers(m)) && m.attackers@
                == blocker_map_of(old).attackers@ && m.blocked_attackers@ == blocker_map_of(
                old,
            ).blocked_attackers@ && m.reverse_lookup@ == blocker_map_of(old).reverse_lookup@
        },
    }
}

/// Takes a combat action for `player`.
pub fn execute(game: &mut GameState, player: PlayerName, action: CombatAction)
    requires
        old(game).wf(),
        combat_action_applies(old(game), action),
    ensures
        final(game).wf(),
        combat_action_taken(old(game), final(game), action),
{
    match action {
        CombatAction::AddSelectedAttacker(card_id) => add_selected_attacker(game, card_id),
        CombatAction::SetSelectedAttackersTarget(target) => set_selected_attackers_target(game, target),
        CombatAction::RemoveAttacker(card_id) => remove_attacker(game, card_id),
        CombatAction::ConfirmAttackers => confirm_attackers(game),
        CombatAction::AddSelectedBlocker(card_id) => add_selected_blocker(game, card_id),
        CombatAction::SetSelectedBlockersTarget(attacker) => set_selected_blockers_target(game, attacker),
        CombatAction::RemoveBlocker(card_id) => remove_blocker(game, card_id),
        CombatAction::ConfirmBlockers => confirm_blockers(game),
        CombatAction::OrderBlocker { attacker_id, blocker_id, position } => order_blocker(
            game,
            attacker_id,
            blocker_id,
            position,
        ),
        CombatAction::ConfirmBlockerOrder => confirm_blocker_order(game),
    }
}

/// Selecting a creature that was neither selected nor proposed as an
/// attacker and then removing it as an attacker gives back the attackers
/// being declared, and leaves the rest of the game as it was.
pub proof fn law_remove_attacker_undoes_selection(old: &GameState, mid: &GameState, new: &GameState, id: u64)
    requires
        old.wf(),
        proposing_attackers(old),
        !proposed(old).selected_attackers@.contains(id),
        !proposed(old).proposed_attacks.has(id),
        combat_action_taken(old, mid, CombatAction::AddSelectedAttacker(id)),
        combat_action_taken(mid, new, CombatAction::RemoveAttacker(id)),
    ensures
        same_but_combat(old, new),
        proposing_attackers(new),
        proposed(new).selected_attackers@ == proposed(old).selected_attackers@,
        proposed(new).proposed_attacks@ == proposed(old).proposed_attacks@,
{
    let a = proposed(old);
    lemma_set_insert_then_remove(a.selected_attackers@, id);
    lemma_map_insert_then_remove(
        a.proposed_attacks@,
        id,
        AttackTarget::Player(spec_next_player_after(old.all_players.count(), old.turn.active_player)),
    );
}

/// Selecting a creature that was neither selected nor proposed as a blocker
/// and then removing it as a blocker gives back the blockers being
/// declared, and leaves the rest of the game as it was.
pub proof fn law_remove_blocker_undoes_selection(old: &GameState, mid: &GameState, new: &GameState, id: u64)
    requires
        old.wf(),
        proposing_blockers(old),
        !blockers_of(old).selected_blockers@.contains(id),
        !blockers_of(old).proposed_blocks.has(id),
        combat_action_taken(old, mid, CombatAction::AddSelectedBlocker(id)),
        combat_action_taken(mid, new, CombatAction::RemoveBlocker(id)),
    ensures
        same_but_combat(old, new),
        proposing_blockers(new),
        blockers_of(new).defender == blockers_of(old).defender,
        blockers_of(new).attackers@ == blockers_of(old).attackers@,
        blockers_of(new).selected_blockers@ == blockers_of(old).selected_blockers@,
        lists_view(blockers_of(new).proposed_blocks@) == lists_view(blockers_of(old).proposed_blocks@),
{
    let b = blockers_of(old);
    let m = blockers_of(mid);
    lemma_set_insert_then_remove(b.selected_blockers@, id);
    lemma_lists_view_keys(b.proposed_blocks@);
    lemma_lists_view_keys(m.proposed_blocks@);
    lemma_lists_view_remove(m.proposed_blocks@, id);
    if b.attackers@.len() == 1 {
        lemma_map_insert_then_remove(lists_view(b.proposed_blocks@), id, seq![b.attackers@[0].0]);
    } else {
        assert(lists_view(m.proposed_blocks@) == lists_view(b.proposed_blocks@));
    }
}

} // verus!
