//! Copies of cards: a copy is a new token with the printed characteristics
//! of the original, created in a zone under a new owner. Cards here have no
//! targets, so a copied spell has no targets to choose again.
use crate::card_parser::ManaCostItem;
use crate::game_state::{CardState, GameState};
use crate::move_card::libraries_view;
use crate::primitives::{player_index, PlayerName, PlayerSet, TurnData, Zone};
use vstd::prelude::*;

verus! {

/// Whether the player creating a copy of a spell may choose new targets for
/// it.
#[derive(Debug, Clone, Copy, PartialEq, Eq, Structural)]
pub enum ChooseNewTargets {
    Yes,
    No,
}

/// `copy` is a token copy of `card` with identifier `id`, owned and
/// controlled by `owner`, created in `zone` during `turn`, facing as
/// `face_up` says and revealed to `revealed_to`: it has the printed
/// characteristics of `card`.
pub open spec fn is_copy_of(
    copy: CardState,
    card: CardState,
    id: u64,
    owner: PlayerName,
    zone: Zone,
    face_up: bool,
    turn: TurnData,
    revealed_to: PlayerSet,
) -> bool {
    &&& copy.id == id
    &&& copy.owner == owner
    &&& copy.controller == owner
    &&& copy.zone == zone
    &&& !copy.tapped
    &&& copy.damage == 0
    &&& copy.face_up == face_up
    &&& copy.is_token
    &&& copy.card_types == card.card_types
    &&& copy.land_subtypes == card.land_subtypes
    &&& copy.colors == card.colors
    &&& copy.mana_cost@ == card.mana_cost@
    &&& copy.power == card.power
    &&& copy.toughness == card.toughness
    &&& copy.entered_current_zone == turn
    &&& copy.last_changed_control == turn
    &&& copy.revealed_to == revealed_to
    &&& copy.attached_to is None
}

/// The game after a copy of card `id` is created in `zone` as card
/// `new_id`: the copy is the last card, and it goes on top of the stack or
/// of its owner's library when created there.
pub open spec fn copied(
    old: &GameState,
    new: &GameState,
    id: u64,
    owner: PlayerName,
    zone: Zone,
    face_up: bool,
    new_id: u64,
) -> bool {
    &&& new_id == old.cards@.len()
    &&& new.cards@.len() == old.cards@.len() + 1
    &&& new.cards@.drop_last() == old.cards@
    &&& is_copy_of(new.cards@.last(), old.cards@[id as int], new_id, owner, zone, face_up, old.turn, old.all_players)
    &&& new.stack@ == if zone == Zone::Stack {
        old.stack@.push(new_id)
    } else {
        old.stack@
    }
    &&& libraries_view(new.libraries@) == if zone == Zone::Library {
        libraries_view(old.libraries@).update(
            player_index(owner) as int,
            libraries_view(old.libraries@)[player_index(owner) as int].push(new_id),
        )
    } else {
        libraries_view(old.libraries@)
    }
    &&& libraries_view(new.graveyards@) == if zone == Zone::Graveyard {
        libraries_view(old.graveyards@).update(
            player_index(owner) as int,
            libraries_view(old.graveyards@)[player_index(owner) as int].push(new_id),
        )
    } else {
        libraries_view(old.graveyards@)
    }
    &&& new.status == old.status
    &&& new.step == old.step
    &&& new.turn == old.turn
    &&& new.priority == old.priority
    &&& new.passed == old.passed
    &&& new.all_players == old.all_players
    &&& new.players == old.players
    &&& new.combat == old.combat
    &&& new.history == old.history
    &&& new.state_based_events == old.state_based_events
    &&& new.agent_search == old.agent_search
    &&& new.control_changing_effects == old.control_changing_effects
    &&& new.this_turn == old.this_turn
}

/// A copy of a mana cost.
pub(crate) fn copy_cost(cost: &Vec<ManaCostItem>) -> (copy: Vec<ManaCostItem>)
    ensures
        copy@ == cost@,
{
    let mut copy: Vec<ManaCostItem> = Vec::new();
    let mut i: usize = 0;
    while i < cost.len()
        invariant
            i <= cost@.len(),
            copy@ == cost@.take(i as int),
        decreases cost@.len() - i,
    {
        copy.push(cost[i]);
        proof {
            assert(cost@.take(i + 1) =~= cost@.take(i as int).push(cost@[i as int]));
        }
        i = i + 1;
    }
    proof {
        assert(cost@.take(i as int) =~= cost@);
    }
    copy
}

/// Puts `id` on top of pile `p`: a library or a graveyard.
fn push_on_pile(libraries: &mut Vec<Vec<u64>>, p: usize, id: u64, n: usize)
    requires
        old(libraries)@.len() == 4,
        p < 4,
        id < n,
        forall|q: int, i: int|
            0 <= q < 4 && 0 <= i < old(libraries)@[q]@.len() ==> #[trigger] old(libraries)@[q]@[i] < n,
    ensures
        final(libraries)@.len() == 4,
        forall|q: int, i: int|
            0 <= q < 4 && 0 <= i < final(libraries)@[q]@.len() ==> #[trigger] final(libraries)@[q]@[i] < n,
        libraries_view(final(libraries)@) == libraries_view(old(libraries)@).update(
            p as int,
            libraries_view(old(libraries)@)[p as int].push(id),
        ),
{
    let mut library: Vec<u64> = Vec::new();
    libraries.set_and_swap(p, &mut library);
    library.push(id);
    libraries.set(p, library);
    proof {
        assert forall|q: int, i: int|
            0 <= q < 4 && 0 <= i < libraries@[q]@.len() implies #[trigger] libraries@[q]@[i] < n by {
            if q == p {
                if i < old(libraries)@[q]@.len() {
                    assert(libraries@[q]@[i] == old(libraries)@[q]@[i]);
                }
            } else {
                assert(libraries@[q] == old(libraries)@[q]);
            }
        }
        assert(libraries_view(libraries@) =~= libraries_view(old(libraries)@).update(
            p as int,
            libraries_view(old(libraries)@)[p as int].push(id),
        ));
    }
}

/// Creates a copy of card `id` in `zone` under `owner`, facing as `face_up`
/// says, and returns the new card's identifier; `None`, changing nothing,
/// when there is no such card.
pub fn of_card_in_zone(game: &mut GameState, id: u64, owner: PlayerName, zone: Zone, face_up: bool) -> (new_id: Option<u64>)
    requires
        old(game).wf(),
    ensures
        final(game).wf(),
        new_id is None <==> id >= old(game).cards@.len(),
        new_id is None ==> *final(game) == *old(game),
        new_id matches Some(n) ==> copied(old(game), final(game), id, owner, zone, face_up, n),
{
    if id >= game.cards.len() as u64 {
        return None;
    }
    let new_id = game.cards.len() as u64;
    let original = &game.cards[id as usize];
    let card = CardState {
        id: new_id,
        owner,
        controller: owner,
        zone,
        tapped: false,
        damage: 0,
        face_up,
        is_token: true,
        card_types: original.card_types,
        land_subtypes: original.land_subtypes,
        colors: original.colors,
        mana_cost: copy_cost(&original.mana_cost),
        power: original.power,
        toughness: original.toughness,
        entered_current_zone: game.turn,
        last_changed_control: game.turn,
        revealed_to: game.all_players,
        attached_to: None,
    };
    let ghost before = *game;
    game.cards.push(card);
    proof {
        assert(game.cards@.drop_last() =~= before.cards@);
        assert forall|p: int, i: int|
            0 <= p < 4 && 0 <= i < game.libraries@[p]@.len() implies #[trigger] game.libraries@[p]@[i]
            < game.cards@.len() by {
            assert(before.libraries@[p]@[i] < before.cards@.len());
        }
        assert forall|i: int| 0 <= i < game.cards@.len() implies #[trigger] game.cards@[i].id == i by {
            if i < before.cards@.len() {
                assert(game.cards@[i] == before.cards@[i]);
            }
        }
        let effects = game.control_changing_effects@;
        assert forall|k: int| 0 <= k < effects.len() implies #[trigger] effects[k].card_id != new_id by {
            assert(effects[k].card_id < before.cards@.len());
        }
        crate::game_state::lemma_controller_unaffected(effects, new_id, owner);
        assert forall|i: int| 0 <= i < game.cards@.len() implies #[trigger] game.cards@[i].controller
            == crate::game_state::controller_from(effects, i as u64, game.cards@[i].owner) by {
            if i < before.cards@.len() {
                assert(game.cards@[i] == before.cards@[i]);
            }
        }
    }
    if zone == Zone::Stack {
        game.stack.push(new_id);
    } else if zone == Zone::Library {
        let n = game.cards.len();
        push_on_pile(&mut game.libraries, owner.index(), new_id, n);
    } else if zone == Zone::Graveyard {
        let n = game.cards.len();
        push_on_pile(&mut game.graveyards, owner.index(), new_id, n);
    }
    Some(new_id)
}

/// Creates a copy of permanent `id` on the battlefield under `owner`,
/// facing as the original does; `None`, changing nothing, when there is no
/// such card.
pub fn of_permanent(game: &mut GameState, id: u64, owner: PlayerName) -> (result: Option<()>)
    requires
        old(game).wf(),
    ensures
        final(game).wf(),
        result is None <==> id >= old(game).cards@.len(),
        result is None ==> *final(game) == *old(game),
        result is Some ==> copied(
            old(game),
            final(game),
            id,
            owner,
            Zone::Battlefield,
            old(game).cards@[id as int].face_up,
            old(game).cards@.len() as u64,
        ),
{
    let face_up = match game.card(id) {
        Some(card) => card.face_up,
        None => {
            return None;
        },
    };
    match of_card_in_zone(game, id, owner, Zone::Battlefield, face_up) {
        Some(_) => Some(()),
        None => None,
    }
}

/// Creates a copy of spell `id` on the stack under `owner`, facing as the
/// original does. The copy has no targets, so choosing new targets changes
/// nothing. `None`, changing nothing, when there is no such card.
pub fn of_spell(game: &mut GameState, id: u64, owner: PlayerName, _choose_new_targets: ChooseNewTargets) -> (result: Option<()>)
    requires
        old(game).wf(),
    ensures
        final(game).wf(),
        result is None <==> id >= old(game).cards@.len(),
        result is None ==> *final(game) == *old(game),
        result is Some ==> copied(
            old(game),
            final(game),
            id,
            owner,
            Zone::Stack,
            old(game).cards@[id as int].face_up,
            old(game).cards@.len() as u64,
        ),
{
    let face_up = match game.card(id) {
        Some(card) => card.face_up,
        None => {
            return None;
        },
    };
    match of_card_in_zone(game, id, owner, Zone::Stack, face_up) {
        Some(_) => Some(()),
        None => None,
    }
}

/// Creating card `new_id` in `zone` under `owner` keeps the piles of zone
/// `pile` holding exactly the cards in that zone.
proof fn lemma_piles_after_copy(
    ol: Seq<Seq<u64>>,
    nl: Seq<Seq<u64>>,
    old_cards: Seq<CardState>,
    new_cards: Seq<CardState>,
    new_id: u64,
    owner: PlayerName,
    zone: Zone,
    pile: Zone,
)
    requires
        crate::move_card::piles_consistent(ol, old_cards, pile),
        new_id == old_cards.len(),
        new_cards.len() == old_cards.len() + 1,
        new_cards.len() <= u64::MAX,
        forall|i: int| 0 <= i < old_cards.len() ==> #[trigger] new_cards[i] == old_cards[i],
        new_cards[new_id as int].zone == zone,
        new_cards[new_id as int].owner == owner,
        nl == if zone == pile {
            ol.update(player_index(owner) as int, ol[player_index(owner) as int].push(new_id))
        } else {
            ol
        },
    ensures
        crate::move_card::piles_consistent(nl, new_cards, pile),
{
    let n = old_cards.len();
    assert forall|p: int, i: int|
        #![trigger nl[p][i]]
        0 <= p < 4 && 0 <= i < nl[p].len() implies nl[p][i] < new_cards.len() && new_cards[nl[p][i] as int].zone
        == pile && player_index(new_cards[nl[p][i] as int].owner) == p by {
        if zone == pile && p == player_index(owner) && i == ol[p].len() {
            assert(nl[p][i] == new_id);
        } else {
            assert(nl[p][i] == ol[p][i]);
        }
    }
    assert forall|c: int|
        0 <= c < new_cards.len() && (#[trigger] new_cards[c]).zone == pile implies nl[player_index(
        new_cards[c].owner,
    ) as int].contains(c as u64) by {
        assert(new_cards.len() == new_cards.len());
        if c == n {
            let q = player_index(owner) as int;
            assert(nl[q][nl[q].len() - 1] == new_id);
        } else {
            let q = player_index(old_cards[c].owner) as int;
            assert(ol[q].contains(c as u64));
            let k = choose|k: int| 0 <= k < ol[q].len() && ol[q][k] == c as u64;
            assert(nl[q][k] == c as u64);
        }
    }
    assert forall|p: int| 0 <= p < 4 implies (#[trigger] nl[p]).no_duplicates() by {
        if zone == pile && p == player_index(owner) {
            assert(!ol[p].contains(new_id)) by {
                if ol[p].contains(new_id) {
                    let k = choose|k: int| 0 <= k < ol[p].len() && ol[p][k] == new_id;
                    assert(ol[p][k] < n);
                }
            }
            assert forall|i: int, j: int| 0 <= i < nl[p].len() && 0 <= j < nl[p].len() && i != j implies nl[p][i]
                != nl[p][j] by {
                if i < ol[p].len() && j < ol[p].len() {
                    assert(ol[p][i] != ol[p][j]);
                } else if i < ol[p].len() {
                    assert(ol[p].contains(nl[p][i]));
                } else if j < ol[p].len() {
                    assert(ol[p].contains(nl[p][j]));
                }
            }
        }
    }
}

/// Creating a copy keeps the zone lists in agreement with the cards.
pub proof fn law_copy_keeps_zones_consistent(
    old: &GameState,
    new: &GameState,
    id: u64,
    owner: PlayerName,
    zone: Zone,
    face_up: bool,
    new_id: u64,
)
    requires
        crate::move_card::zones_consistent(old),
        copied(old, new, id, owner, zone, face_up, new_id),
    ensures
        crate::move_card::zones_consistent(new),
{
    let ol = libraries_view(old.libraries@);
    let nl = libraries_view(new.libraries@);
    let n = old.cards@.len();
    assert forall|i: int| 0 <= i < n implies #[trigger] new.cards@[i] == old.cards@[i] by {
        assert(new.cards@.drop_last()[i] == new.cards@[i]);
    }
    assert(new.cards@.len() == new.cards.len());
    assert(new.cards@[new_id as int] == new.cards@.last());
    lemma_piles_after_copy(ol, nl, old.cards@, new.cards@, new_id, owner, zone, Zone::Library);
    lemma_piles_after_copy(
        libraries_view(old.graveyards@),
        libraries_view(new.graveyards@),
        old.cards@,
        new.cards@,
        new_id,
        owner,
        zone,
        Zone::Graveyard,
    );
    assert forall|i: int| 0 <= i < new.stack@.len() implies new.stack@[i] < new.cards@.len() && new.cards@[
        #[trigger] new.stack@[i] as int].zone == Zone::Stack by {
        if zone == Zone::Stack && i == old.stack@.len() {
            assert(new.stack@[i] == new_id);
        } else {
            assert(new.stack@[i] == old.stack@[i]);
        }
    }
    assert forall|c: int|
        0 <= c < new.cards@.len() && (#[trigger] new.cards@[c]).zone == Zone::Stack implies new.stack@.contains(
        c as u64,
    ) by {
        assert(new.cards@.len() == new.cards.len());
        if c == n {
            assert(new.stack@[new.stack@.len() - 1] == new_id);
        } else {
            assert(old.stack@.contains(c as u64));
            let k = choose|k: int| 0 <= k < old.stack@.len() && old.stack@[k] == c as u64;
            assert(new.stack@[k] == c as u64);
        }
    }
    if zone == Zone::Stack {
        assert(!old.stack@.contains(new_id)) by {
            if old.stack@.contains(new_id) {
                let k = choose|k: int| 0 <= k < old.stack@.len() && old.stack@[k] == new_id;
                assert(old.stack@[k] < n);
            }
        }
        let st = new.stack@;
        assert forall|i: int, j: int| 0 <= i < st.len() && 0 <= j < st.len() && i != j implies st[i] != st[j] by {
            if i < old.stack@.len() && j < old.stack@.len() {
                assert(old.stack@[i] != old.stack@[j]);
            } else if i < old.stack@.len() {
                assert(old.stack@.contains(st[i]));
            } else if j < old.stack@.len() {
                assert(old.stack@.contains(st[j]));
            }
        }
    }
}

} // verus!
