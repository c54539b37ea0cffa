//! Changing who controls a card. A control-changing effect gives a player
//! control of a card until the event that began it ends it, or until the card
//! changes zones other than from the stack to the battlefield.
use crate::game_state::{
    controller_from, controller_under, keeps_control, lemma_controller_after_clearing,
    lemma_controller_other_card, lemma_retained_below, retain_effects, retained_effects, CardState,
    ControlChangingEffect, GameState,
};
use crate::move_card::moved;
use crate::primitives::{PlayerName, TurnData, Zone};
use vstd::prelude::*;

verus! {

/// Everything but the cards, the control-changing effects and the effects
/// of this turn is unchanged.
pub open spec fn same_but_control(a: &GameState, b: &GameState) -> bool {
    &&& a.status == b.status
    &&& a.step == b.step
    &&& a.turn == b.turn
    &&& a.priority == b.priority
    &&& a.passed == b.passed
    &&& a.all_players == b.all_players
    &&& a.players == b.players
    &&& a.libraries == b.libraries
    &&& a.graveyards == b.graveyards
    &&& a.stack == b.stack
    &&& a.combat == b.combat
    &&& a.history == b.history
    &&& a.state_based_events == b.state_based_events
    &&& a.agent_search == b.agent_search
}

/// Card `card` after control of it changes to `controller` during the turn
/// of `game`.
pub open spec fn with_controller(game: &GameState, card: CardState, controller: PlayerName) -> CardState {
    CardState { controller, last_changed_control: game.turn, ..card }
}

/// The game after `new_controller` gains control of card `id` through event
/// `event_id`: when they do not control it already, the effect is recorded
/// and the card changes controller this turn; otherwise nothing changes.
pub open spec fn control_gained(
    old: &GameState,
    new: &GameState,
    new_controller: PlayerName,
    event_id: u64,
    id: u64,
) -> bool {
    let card = old.cards@[id as int];
    &&& same_but_control(old, new)
    &&& if card.controller == new_controller {
        &&& new.cards == old.cards
        &&& new.control_changing_effects == old.control_changing_effects
    } else {
        &&& new.cards@ == old.cards@.update(id as int, with_controller(old, card, new_controller))
        &&& new.control_changing_effects@ == old.control_changing_effects@.push(
            ControlChangingEffect { card_id: id, event_id, controller: new_controller },
        )
    }
}

/// The game after the control-changing effects of event `event_id` on card
/// `id` end: the card is controlled by the player its latest remaining
/// effect names, else by its owner, and changes controller this turn if that
/// is someone else.
pub open spec fn control_removed(old: &GameState, new: &GameState, event_id: u64, id: u64) -> bool {
    let card = old.cards@[id as int];
    let effects = retained_effects(old.control_changing_effects@, id, Some(event_id));
    let controller = controller_from(effects, id, card.owner);
    &&& same_but_control(old, new)
    &&& new.this_turn == old.this_turn
    &&& new.control_changing_effects@ == effects
    &&& new.cards@ == if controller == card.controller {
        old.cards@
    } else {
        old.cards@.update(id as int, with_controller(old, card, controller))
    }
}

/// Cards and control-changing effects after the effects of event `event_id`
/// on card `id` end during `turn`, as `remove_control` ends them; nothing
/// changes when there is no such card.
pub open spec fn removal_step(
    cards: Seq<CardState>,
    effects: Seq<ControlChangingEffect>,
    event_id: u64,
    id: u64,
    turn: TurnData,
) -> (Seq<CardState>, Seq<ControlChangingEffect>) {
    if id >= cards.len() {
        (cards, effects)
    } else {
        let card = cards[id as int];
        let kept = retained_effects(effects, id, Some(event_id));
        let controller = controller_from(kept, id, card.owner);
        (
            if controller == card.controller {
                cards
            } else {
                cards.update(id as int, CardState { controller, last_changed_control: turn, ..card })
            },
            kept,
        )
    }
}

/// Cards and control-changing effects after the effects listed in `ends`,
/// each as its event and card, end one after another during `turn`.
pub open spec fn after_removals(
    cards: Seq<CardState>,
    effects: Seq<ControlChangingEffect>,
    ends: Seq<(u64, u64)>,
    turn: TurnData,
) -> (Seq<CardState>, Seq<ControlChangingEffect>)
    decreases ends.len(),
{
    if ends.len() == 0 {
        (cards, effects)
    } else {
        let before = after_removals(cards, effects, ends.drop_last(), turn);
        removal_step(before.0, before.1, ends.last().0, ends.last().1, turn)
    }
}

/// Gives `new_controller` control of card `id` through event `event_id`.
/// Returns `None`, changing nothing, when there is no such card.
pub fn gain_control(game: &mut GameState, new_controller: PlayerName, event_id: u64, id: u64) -> (result:
    Option<()>)
    requires
        old(game).wf(),
    ensures
        final(game).wf(),
        result is None <==> id >= old(game).cards@.len(),
        result is None ==> *final(game) == *old(game),
        result is Some ==> control_gained(old(game), final(game), new_controller, event_id, id),
        final(game).this_turn == old(game).this_turn,
{
    if id >= game.cards.len() as u64 {
        return None;
    }
    let i = id as usize;
    let current = game.cards[i].controller;
    if current != new_controller {
        let turn = game.turn;
        let mut card = game.take_card(i);
        card.controller = new_controller;
        card.last_changed_control = turn;
        game.put_card(i, card);
        game.control_changing_effects.push(
            ControlChangingEffect { card_id: id, event_id, controller: new_controller },
        );
        proof {
            assert(game.cards@ =~= old(game).cards@.update(
                i as int,
                with_controller(old(game), old(game).cards@[i as int], new_controller),
            ));
            assert(game.cards@[i as int].id == i);
            let pushed = game.control_changing_effects@;
            assert(pushed.drop_last() =~= old(game).control_changing_effects@);
            assert forall|j: int| 0 <= j < game.cards@.len() implies #[trigger] game.cards@[j].controller
                == controller_from(pushed, j as u64, game.cards@[j].owner) by {
                assert(old(game).cards@[j].id == j);
            }
            assert forall|k: int| 0 <= k < pushed.len() implies #[trigger] pushed[k].card_id < game.cards@.len() by {
                if k < pushed.len() - 1 {
                    assert(pushed[k] == old(game).control_changing_effects@[k]);
                }
            }
        }
    }
    Some(())
}

/// Gives `new_controller` control of card `id` through event `event_id` until
/// the cleanup step of this turn. Returns `None`, changing nothing, when
/// there is no such card.
pub fn gain_control_this_turn(game: &mut GameState, new_controller: PlayerName, event_id: u64, id: u64) -> (result:
    Option<()>)
    requires
        old(game).wf(),
    ensures
        final(game).wf(),
        result is None <==> id >= old(game).cards@.len(),
        result is None ==> *final(game) == *old(game),
        result is Some ==> control_gained(old(game), final(game), new_controller, event_id, id),
        result is Some ==> final(game).this_turn.control_changing_effects@
            == old(game).this_turn.control_changing_effects@.push((event_id, id)),
{
    if id >= game.cards.len() as u64 {
        return None;
    }
    game.this_turn.add_control_changing_effect(event_id, id);
    gain_control(game, new_controller, event_id, id)
}

/// Ends the control-changing effects of event `event_id` on card `id`.
/// Returns `None`, changing nothing, when there is no such card.
pub fn remove_control(game: &mut GameState, event_id: u64, id: u64) -> (result: Option<()>)
    requires
        old(game).wf(),
    ensures
        final(game).wf(),
        result is None <==> id >= old(game).cards@.len(),
        result is None ==> *final(game) == *old(game),
        result is Some ==> control_removed(old(game), final(game), event_id, id),
{
    if id >= game.cards.len() as u64 {
        return None;
    }
    let i = id as usize;
    let current = game.cards[i].controller;
    let owner = game.cards[i].owner;
    let effects = retain_effects(&game.control_changing_effects, id, Some(event_id));
    let controller = controller_under(&effects, id, owner);
    game.control_changing_effects = effects;
    proof {
        lemma_retained_below(old(game).control_changing_effects@, id, Some(event_id), old(game).cards@.len());
        assert forall|j: int| 0 <= j < game.cards@.len() && j != i implies #[trigger] game.cards@[j].controller
            == controller_from(game.control_changing_effects@, j as u64, game.cards@[j].owner) by {
            assert(old(game).cards@[j].id == j);
            lemma_controller_other_card(
                old(game).control_changing_effects@,
                id,
                Some(event_id),
                j as u64,
                game.cards@[j].owner,
            );
        }
    }
    if current != controller {
        let turn = game.turn;
        let mut card = game.take_card(i);
        card.controller = controller;
        card.last_changed_control = turn;
        game.put_card(i, card);
        proof {
            assert(game.cards@ =~= old(game).cards@.update(
                i as int,
                with_controller(old(game), old(game).cards@[i as int], controller),
            ));
            assert(game.cards@[i as int].id == i);
        }
    }
    Some(())
}

/// Whether card `id` is controlled by the player its control-changing
/// effects name, or by its owner when none is left.
pub open spec fn control_agrees(game: &GameState, id: u64) -> bool {
    game.cards@[id as int].controller == controller_from(
        game.control_changing_effects@,
        id,
        game.cards@[id as int].owner,
    )
}

/// Whether no control-changing effect on card `id` was begun by event
/// `event_id`.
pub open spec fn event_unused(effects: Seq<ControlChangingEffect>, id: u64, event_id: u64) -> bool {
    forall|k: int| 0 <= k < effects.len() ==> !(#[trigger] effects[k].card_id == id && effects[k].event_id == event_id)
}

/// Ending the effects of an event that began none on a card keeps them all.
proof fn lemma_retained_unused(s: Seq<ControlChangingEffect>, id: u64, event_id: u64)
    requires
        event_unused(s, id, event_id),
    ensures
        retained_effects(s, id, Some(event_id)) == s,
    decreases s.len(),
{
    if s.len() > 0 {
        assert(event_unused(s.drop_last(), id, event_id)) by {
            assert forall|k: int| 0 <= k < s.drop_last().len() implies !(#[trigger] s.drop_last()[k].card_id == id
                && s.drop_last()[k].event_id == event_id) by {
                assert(s.drop_last()[k] == s[k]);
            }
        }
        lemma_retained_unused(s.drop_last(), id, event_id);
        assert(s[s.len() - 1] == s.last());
        assert(s.drop_last().push(s.last()) =~= s);
    }
}

/// Gaining control of a card makes the gainer its controller, and its
/// controller still agrees with its control-changing effects.
pub proof fn law_gain_gives_control(
    old: &GameState,
    new: &GameState,
    new_controller: PlayerName,
    event_id: u64,
    id: u64,
)
    requires
        old.wf(),
        id < old.cards@.len(),
        control_gained(old, new, new_controller, event_id, id),
    ensures
        new.cards@[id as int].controller == new_controller,
        control_agrees(new, id),
{
    assert(control_agrees(old, id));
    let pushed = old.control_changing_effects@.push(
        ControlChangingEffect { card_id: id, event_id, controller: new_controller },
    );
    assert(pushed.drop_last() =~= old.control_changing_effects@);
}

/// After the effects of an event on a card end, its controller agrees with
/// the control-changing effects left.
pub proof fn law_removal_agrees(old: &GameState, new: &GameState, event_id: u64, id: u64)
    requires
        id < old.cards@.len(),
        control_removed(old, new, event_id, id),
    ensures
        control_agrees(new, id),
{
}

/// Ending the effect that a gain of control began gives control back to
/// the player who had it, and leaves the control-changing effects as they
/// were before the gain.
pub proof fn law_remove_control_undoes_gain(
    old: &GameState,
    mid: &GameState,
    new: &GameState,
    new_controller: PlayerName,
    event_id: u64,
    id: u64,
)
    requires
        old.wf(),
        id < old.cards@.len(),
        event_unused(old.control_changing_effects@, id, event_id),
        control_gained(old, mid, new_controller, event_id, id),
        control_removed(mid, new, event_id, id),
    ensures
        new.cards@[id as int].controller == old.cards@[id as int].controller,
        new.control_changing_effects@ == old.control_changing_effects@,
{
    assert(control_agrees(old, id));
    lemma_retained_unused(old.control_changing_effects@, id, event_id);
    let pushed = old.control_changing_effects@.push(
        ControlChangingEffect { card_id: id, event_id, controller: new_controller },
    );
    assert(pushed.drop_last() =~= old.control_changing_effects@);
}

/// A card that changes zones loses its control-changing effects and returns
/// to its owner's control, unless it is a spell resolving onto the
/// battlefield, which keeps them.
pub proof fn law_moving_ends_control(old: &GameState, new: &GameState, id: u64, zone: Zone)
    requires
        id < old.cards@.len(),
        moved(old, new, id, zone),
    ensures
        !keeps_control(old.cards@[id as int].zone, zone) ==> new.cards@[id as int].controller
            == old.cards@[id as int].owner && control_agrees(new, id),
        keeps_control(old.cards@[id as int].zone, zone) ==> new.cards@[id as int].controller
            == old.cards@[id as int].controller && new.control_changing_effects@
            == old.control_changing_effects@,
{
    lemma_controller_after_clearing(old.control_changing_effects@, id, old.cards@[id as int].owner);
}

} // verus!
