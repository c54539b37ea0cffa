//! Changes to permanents: tapping, untapping, turning face up, and damage.
use crate::game_state::{GameState, StateBasedEvent, pending_events};
use crate::primitives::Zone;
use vstd::prelude::*;

verus! {

/// Everything but the cards is unchanged.
pub open spec fn same_but_cards(a: &GameState, b: &GameState) -> bool {
    &&& a.status == b.status
    &&& a.step == b.step
    &&& a.turn == b.turn
    &&& a.priority == b.priority
    &&& a.passed == b.passed
    &&& a.all_players == b.all_players
    &&& a.players == b.players
    &&& a.libraries == b.libraries
    &&& a.graveyards == b.graveyards
    &&& a.stack == b.stack
    &&& a.combat == b.combat
    &&& a.history == b.history
    &&& a.state_based_events == b.state_based_events
    &&& a.agent_search == b.agent_search
    &&& a.control_changing_effects == b.control_changing_effects
    &&& a.this_turn == b.this_turn
}

/// `card` turned face up: it is revealed to every player.
pub open spec fn turned_face_up(card: crate::game_state::CardState) -> crate::game_state::CardState {
    crate::game_state::CardState { face_up: true, revealed_to: crate::primitives::everyone(), ..card }
}

/// Whether `id` names a card on the battlefield.
pub open spec fn is_permanent(game: &GameState, id: u64) -> bool {
    id < game.cards@.len() && game.cards@[id as int].zone == Zone::Battlefield
}

/// Taps permanent `id`; nothing happens if it is not on the battlefield.
pub fn tap(game: &mut GameState, id: u64)
    requires
        old(game).wf(),
    ensures
        final(game).wf(),
        same_but_cards(old(game), final(game)),
        final(game).cards@.len() == old(game).cards@.len(),
        forall|i: int|
            0 <= i < old(game).cards@.len() ==> #[trigger] final(game).cards@[i] == if i == id
                && is_permanent(old(game), id) {
                crate::game_state::CardState { tapped: true, ..old(game).cards@[i] }
            } else {
                old(game).cards@[i]
            },
{
    set_tapped(game, id, true);
}

/// Untaps permanent `id`; nothing happens if it is not on the battlefield.
pub fn untap(game: &mut GameState, id: u64)
    requires
        old(game).wf(),
    ensures
        final(game).wf(),
        same_but_cards(old(game), final(game)),
        final(game).cards@.len() == old(game).cards@.len(),
        forall|i: int|
            0 <= i < old(game).cards@.len() ==> #[trigger] final(game).cards@[i] == if i == id
                && is_permanent(old(game), id) {
                crate::game_state::CardState { tapped: false, ..old(game).cards@[i] }
            } else {
                old(game).cards@[i]
            },
{
    set_tapped(game, id, false);
}

fn set_tapped(game: &mut GameState, id: u64, tapped: bool)
    requires
        old(game).wf(),
    ensures
        final(game).wf(),
        same_but_cards(old(game), final(game)),
        final(game).cards@.len() == old(game).cards@.len(),
        forall|i: int|
            0 <= i < old(game).cards@.len() ==> #[trigger] final(game).cards@[i] == if i == id
                && is_permanent(old(game), id) {
                crate::game_state::CardState { tapped, ..old(game).cards@[i] }
            } else {
                old(game).cards@[i]
            },
{
    if id < game.cards.len() as u64 && game.cards[id as usize].zone == Zone::Battlefield {
        let ghost old_cards = game.cards@;
        let mut card = game.take_card(id as usize);
        assert(card == old_cards[id as int]);
        card.tapped = tapped;
        game.put_card(id as usize, card);
        assert(game.cards@ =~= old_cards.update(id as int, card));
        assert(game.cards@[id as int].id == id);
    }
}

/// Card `id` after it is turned face up.
pub open spec fn faced_up(old: &GameState, new: &GameState, id: u64) -> bool {
    &&& same_but_cards(old, new)
    &&& new.cards@ == if id < old.cards@.len() {
        old.cards@.update(id as int, turned_face_up(old.cards@[id as int]))
    } else {
        old.cards@
    }
}

/// Turns card `id` face up, as a card is when it is played or resolves;
/// nothing happens when there is no such card.
pub fn turn_face_up(game: &mut GameState, id: u64)
    requires
        old(game).wf(),
    ensures
        final(game).wf(),
        faced_up(old(game), final(game), id),
{
    if id < game.cards.len() as u64 {
        let ghost old_cards = game.cards@;
        let mut card = game.take_card(id as usize);
        card.face_up = true;
        card.revealed_to = crate::primitives::PlayerSet { one: true, two: true, three: true, four: true };
        game.put_card(id as usize, card);
        proof {
            assert(game.cards@ =~= old_cards.update(id as int, card));
            assert(game.cards@[id as int].id == id);
        }
    }
}

/// The game after `damage` is marked on card `id`: a permanent gets the
/// damage and the event is noted for state-based actions; any other card is
/// left alone.
pub open spec fn permanent_damaged(old: &GameState, new: &GameState, id: u64, damage: u64) -> bool {
    &&& new.cards@.len() == old.cards@.len()
    &&& forall|i: int|
        0 <= i < old.cards@.len() ==> #[trigger] new.cards@[i] == if i == id
            && is_permanent(old, id) {
            crate::game_state::CardState {
                damage: (old.cards@[i].damage + damage) as u64,
                ..old.cards@[i]
            }
        } else {
            old.cards@[i]
        }
    &&& is_permanent(old, id) ==> pending_events(new.state_based_events) == pending_events(
        old.state_based_events,
    ).push(StateBasedEvent::CreatureDamaged(id))
    &&& !is_permanent(old, id) ==> new.state_based_events == old.state_based_events
    &&& new.status == old.status
    &&& new.step == old.step
    &&& new.turn == old.turn
    &&& new.priority == old.priority
    &&& new.passed == old.passed
    &&& new.all_players == old.all_players
    &&& new.players == old.players
    &&& new.libraries == old.libraries
    &&& new.graveyards == old.graveyards
    &&& new.stack == old.stack
    &&& new.combat == old.combat
    &&& new.history == old.history
    &&& new.agent_search == old.agent_search
    &&& new.control_changing_effects == old.control_changing_effects
    &&& new.this_turn == old.this_turn
}

/// Marks `damage` on permanent `id` and records the event for state-based
/// actions; nothing happens if it is not on the battlefield.
pub fn deal_damage(game: &mut GameState, id: u64, damage: u64)
    requires
        old(game).wf(),
        is_permanent(old(game), id) ==> old(game).cards@[id as int].damage + damage <= u64::MAX,
    ensures
        final(game).wf(),
        permanent_damaged(old(game), final(game), id, damage),
{
    if id < game.cards.len() as u64 && game.cards[id as usize].zone == Zone::Battlefield {
        let mut card = game.take_card(id as usize);
        card.damage = card.damage + damage;
        game.put_card(id as usize, card);
        game.add_state_based_event(StateBasedEvent::CreatureDamaged(id));
    }
}

/// Puts permanent `id` into its owner's graveyard; nothing happens if it is
/// not on the battlefield.
pub fn sacrifice(game: &mut GameState, id: u64)
    requires
        old(game).wf(),
    ensures
        final(game).wf(),
        is_permanent(old(game), id) ==> crate::move_card::moved(old(game), final(game), id, Zone::Graveyard),
        !is_permanent(old(game), id) ==> *final(game) == *old(game),
{
    if id < game.cards.len() as u64 && game.cards[id as usize].zone == Zone::Battlefield {
        crate::move_card::run(game, id, Zone::Graveyard);
    }
}

} // verus!
