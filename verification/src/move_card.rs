//! Moving cards between zones, and drawing cards from a library.
use crate::game_state::{
    controller_from, keeps_control, lemma_controller_after_clearing, lemma_controller_other_card,
    lemma_retained_below, pending_events, retain_effects, retained_effects, CardState, GameState,
    StateBasedEvent,
};
use crate::primitives::{everyone, player_index, PlayerName, PlayerSet, TurnData, Zone};
use crate::priority::with_player;
use crate::prompts::{copy_without, remove_id};
use vstd::prelude::*;

verus! {

/// A card after it moves to `zone` during `turn`: leaving the battlefield
/// untaps it and removes its damage, control returns to the owner unless a
/// spell becomes a permanent, and cards entering a hand or library turn face
/// down.
pub open spec fn card_after_move(card: CardState, zone: Zone, turn: TurnData) -> CardState {
    card_entered_zone(card_left_zone(card, zone), zone, turn)
}

/// `card` as it leaves its zone for `zone`: a permanent leaving the
/// battlefield untaps and loses its damage, and control returns to the
/// owner unless a spell resolves onto the battlefield.
pub open spec fn card_left_zone(card: CardState, zone: Zone) -> CardState {
    let left = if card.zone == Zone::Battlefield {
        CardState { tapped: false, damage: 0, attached_to: None, ..card }
    } else {
        card
    };
    if !keeps_control(card.zone, zone) {
        CardState { controller: left.owner, ..left }
    } else {
        left
    }
}

/// `card` as it enters `zone` during `turn`: it is revealed to every player
/// on the stack, the battlefield or in a graveyard, and to its controller in
/// a hand; it is face down in a hand or a library.
pub open spec fn card_entered_zone(card: CardState, zone: Zone, turn: TurnData) -> CardState {
    let entered = CardState { zone, entered_current_zone: turn, ..card };
    if zone == Zone::Stack || zone == Zone::Battlefield || zone == Zone::Graveyard {
        CardState { revealed_to: everyone(), ..entered }
    } else if zone == Zone::Hand {
        CardState { face_up: false, revealed_to: with_player(card.revealed_to, card.controller), ..entered }
    } else if zone == Zone::Library {
        CardState { face_up: false, ..entered }
    } else {
        entered
    }
}

/// The contents of the libraries.
pub open spec fn libraries_view(libraries: Seq<Vec<u64>>) -> Seq<Seq<u64>> {
    libraries.map_values(|l: Vec<u64>| l@)
}

/// The ordered piles of zone `pile`, one per player, after card `id`, owned
/// by `owner`, moves to `zone`: it leaves any of them, and goes on top of
/// its owner's pile if `zone` is `pile`.
pub open spec fn piles_after_move(piles: Seq<Seq<u64>>, id: u64, owner: PlayerName, zone: Zone, pile: Zone) -> Seq<
    Seq<u64>,
> {
    Seq::new(
        piles.len(),
        |p: int|
            if zone == pile && p == player_index(owner) {
                remove_id(piles[p], id).push(id)
            } else {
                remove_id(piles[p], id)
            },
    )
}

/// Libraries after card `id`, owned by `owner`, moves to `zone`: it leaves
/// any library, and goes on top of its owner's library if that is `zone`.
pub open spec fn libraries_after_move(libraries: Seq<Seq<u64>>, id: u64, owner: PlayerName, zone: Zone) -> Seq<
    Seq<u64>,
> {
    piles_after_move(libraries, id, owner, zone, Zone::Library)
}

/// Graveyards after card `id`, owned by `owner`, moves to `zone`: it leaves
/// any graveyard, and goes on top of its owner's graveyard if that is
/// `zone`.
pub open spec fn graveyards_after_move(graveyards: Seq<Seq<u64>>, id: u64, owner: PlayerName, zone: Zone) -> Seq<
    Seq<u64>,
> {
    piles_after_move(graveyards, id, owner, zone, Zone::Graveyard)
}

/// The stack after card `id` moves to `zone`.
pub open spec fn stack_after_move(stack: Seq<u64>, id: u64, zone: Zone) -> Seq<u64> {
    if zone == Zone::Stack {
        remove_id(stack, id).push(id)
    } else {
        remove_id(stack, id)
    }
}

/// The events after card `card` moves to `zone`: a token leaving the
/// battlefield is noted.
pub open spec fn events_after_move(events: Seq<StateBasedEvent>, card: CardState, zone: Zone) -> Seq<
    StateBasedEvent,
> {
    if card.is_token && zone != Zone::Battlefield {
        events.push(StateBasedEvent::TokenLeftBattlefield(card.id))
    } else {
        events
    }
}

/// The game after card `id` moves to `zone`, as `run` does it.
pub open spec fn moved(old: &GameState, new: &GameState, id: u64, zone: Zone) -> bool {
    let card = old.cards@[id as int];
    &&& new.cards@ == old.cards@.update(id as int, card_after_move(card, zone, old.turn))
    &&& libraries_view(new.libraries@) == libraries_after_move(
        libraries_view(old.libraries@),
        id,
        card.owner,
        zone,
    )
    &&& libraries_view(new.graveyards@) == graveyards_after_move(
        libraries_view(old.graveyards@),
        id,
        card.owner,
        zone,
    )
    &&& new.stack@ == stack_after_move(old.stack@, id, zone)
    &&& (if card.is_token && zone != Zone::Battlefield {
        pending_events(new.state_based_events) == events_after_move(
            pending_events(old.state_based_events),
            card,
            zone,
        )
    } else {
        new.state_based_events == old.state_based_events
    })
    &&& new.status == old.status
    &&& new.step == old.step
    &&& new.turn == old.turn
    &&& new.priority == old.priority
    &&& new.passed == old.passed
    &&& new.all_players == old.all_players
    &&& new.players == old.players
    &&& new.combat == old.combat
    &&& new.history == old.history
    &&& new.agent_search == old.agent_search
    &&& new.this_turn == old.this_turn
    &&& new.control_changing_effects@ == (if keeps_control(card.zone, zone) {
        old.control_changing_effects@
    } else {
        retained_effects(old.control_changing_effects@, id, None)
    })
}

/// Takes card `id` out of every pile of zone `pile`, and puts it on top of
/// its owner's pile if it moves there.
fn update_piles(libs: &mut Vec<Vec<u64>>, id: u64, owner: PlayerName, zone: Zone, pile: Zone, n: usize)
    requires
        old(libs)@.len() == 4,
        id < n,
        forall|q: int, k: int|
            0 <= q < 4 && 0 <= k < old(libs)@[q]@.len() ==> #[trigger] old(libs)@[q]@[k] < n,
    ensures
        final(libs)@.len() == 4,
        forall|q: int, k: int|
            0 <= q < 4 && 0 <= k < final(libs)@[q]@.len() ==> #[trigger] final(libs)@[q]@[k] < n,
        libraries_view(final(libs)@) == piles_after_move(libraries_view(old(libs)@), id, owner, zone, pile),
{
    let ghost libs_before = libraries_view(libs@);
    let mut p: usize = 0;
    while p < 4
        invariant
            p <= 4,
            libs@.len() == 4,
            id < n,
            forall|q: int, k: int|
                0 <= q < 4 && 0 <= k < libs@[q]@.len() ==> #[trigger] libs@[q]@[k] < n,
            libs_before.len() == 4,
            forall|q: int|
                0 <= q < 4 ==> #[trigger] libraries_view(libs@)[q] == if q < p {
                    if zone == pile && q == player_index(owner) {
                        remove_id(libs_before[q], id).push(id)
                    } else {
                        remove_id(libs_before[q], id)
                    }
                } else {
                    libs_before[q]
                },
        decreases 4 - p,
    {
        let ghost prev = libs@;
        proof {
            assert(libraries_view(prev)[p as int] == libs_before[p as int]);
        }
        let mut library: Vec<u64> = Vec::new();
        libs.set_and_swap(p, &mut library);
        assert(library@ == libs_before[p as int]);
        let mut updated = copy_without(&library, id);
        if zone == pile && p == owner.index() {
            updated.push(id);
        }
        proof {
            lemma_remove_id_subset(library@, id);
            assert forall|k: int| 0 <= k < updated@.len() implies updated@[k] < n by {
                if k < remove_id(library@, id).len() {
                    let x = remove_id(library@, id)[k];
                    assert(library@.contains(x));
                    let j = choose|j: int| 0 <= j < library@.len() && library@[j] == x;
                    assert(prev[p as int]@[j] == x);
                }
            }
        }
        libs.set(p, updated);
        proof {
            assert forall|q: int, k: int|
                0 <= q < 4 && 0 <= k < libs@[q]@.len() implies #[trigger] libs@[q]@[k] < n by {
                if q != p {
                    assert(libs@[q] == prev[q]);
                }
            }
            assert forall|q: int| 0 <= q < 4 implies #[trigger] libraries_view(libs@)[q] == if q < p + 1 {
                if zone == pile && q == player_index(owner) {
                    remove_id(libs_before[q], id).push(id)
                } else {
                    remove_id(libs_before[q], id)
                }
            } else {
                libs_before[q]
            } by {
                if q != p {
                    assert(libs@[q] == prev[q]);
                    assert(libraries_view(prev)[q] == libraries_view(libs@)[q]);
                }
            }
        }
        p = p + 1;
    }
    proof {
        assert(libraries_view(libs@) =~= piles_after_move(libs_before, id, owner, zone, pile));
    }
}

/// Updates `card` as it leaves its zone for `zone`.
fn on_leave_zone(card: &mut CardState, zone: Zone)
    ensures
        *final(card) == card_left_zone(*old(card), zone),
{
    let old_zone = card.zone;
    if old_zone == Zone::Battlefield {
        card.tapped = false;
        card.damage = 0;
        card.attached_to = None;
    }
    if !(old_zone == Zone::Stack && zone == Zone::Battlefield) {
        card.controller = card.owner;
    }
}

/// Updates `card` as it enters `zone` during `turn`.
fn on_enter_zone(card: &mut CardState, zone: Zone, turn: TurnData)
    ensures
        *final(card) == card_entered_zone(*old(card), zone, turn),
{
    card.zone = zone;
    card.entered_current_zone = turn;
    if zone == Zone::Stack || zone == Zone::Battlefield || zone == Zone::Graveyard {
        card.revealed_to = PlayerSet { one: true, two: true, three: true, four: true };
    } else if zone == Zone::Hand {
        let controller = card.controller;
        card.revealed_to.insert(controller);
        card.face_up = false;
        proof {
            assert(card.revealed_to == with_player(old(card).revealed_to, old(card).controller)) by {
                assert(card.revealed_to.has(PlayerName::One) == with_player(old(card).revealed_to, old(card).controller).one);
                assert(card.revealed_to.has(PlayerName::Two) == with_player(old(card).revealed_to, old(card).controller).two);
                assert(card.revealed_to.has(PlayerName::Three) == with_player(old(card).revealed_to, old(card).controller).three);
                assert(card.revealed_to.has(PlayerName::Four) == with_player(old(card).revealed_to, old(card).controller).four);
            }
        }
    } else if zone == Zone::Library {
        card.face_up = false;
    }
}

/// `card` after it moves to `zone` during `turn`.
fn moved_card(card: CardState, zone: Zone, turn: TurnData) -> (moved: CardState)
    ensures
        moved == card_after_move(card, zone, turn),
{
    let mut card = card;
    on_leave_zone(&mut card, zone);
    on_enter_zone(&mut card, zone, turn);
    card
}

/// The stack after card `id` moves to `zone`.
fn stack_with_move(stack: &Vec<u64>, id: u64, zone: Zone, n: usize) -> (result: Vec<u64>)
    requires
        id < n,
        forall|k: int| 0 <= k < stack@.len() ==> #[trigger] stack@[k] < n,
    ensures
        result@ == stack_after_move(stack@, id, zone),
        forall|k: int| 0 <= k < result@.len() ==> #[trigger] result@[k] < n,
{
    let mut result = copy_without(stack, id);
    proof {
        lemma_remove_id_subset(stack@, id);
        assert forall|k: int| 0 <= k < result@.len() implies result@[k] < n by {
            assert(stack@.contains(result@[k]));
        }
    }
    if zone == Zone::Stack {
        result.push(id);
    }
    result
}

/// Moves card `id` to `zone`. Returns `None`, changing nothing, when there is
/// no such card.
pub fn run(game: &mut GameState, id: u64, zone: Zone) -> (result: Option<()>)
    requires
        old(game).wf(),
    ensures
        final(game).wf(),
        result is None <==> id >= old(game).cards@.len(),
        result is None ==> *final(game) == *old(game),
        result is Some ==> moved(old(game), final(game), id, zone),
{
    if id >= game.cards.len() as u64 {
        return None;
    }
    let i = id as usize;
    let turn = game.turn;
    let keeps = game.cards[i].zone == Zone::Stack && zone == Zone::Battlefield;
    let card = game.take_card(i);
    let owner = card.owner;
    let is_token = card.is_token;
    let updated = moved_card(card, zone, turn);
    game.put_card(i, updated);
    proof {
        assert(game.cards@ =~= old(game).cards@.update(i as int, updated));
    }
    let mut libs: Vec<Vec<u64>> = Vec::new();
    std::mem::swap(&mut libs, &mut game.libraries);
    update_piles(&mut libs, id, owner, zone, Zone::Library, game.cards.len());
    std::mem::swap(&mut libs, &mut game.libraries);
    let mut graves: Vec<Vec<u64>> = Vec::new();
    std::mem::swap(&mut graves, &mut game.graveyards);
    update_piles(&mut graves, id, owner, zone, Zone::Graveyard, game.cards.len());
    std::mem::swap(&mut graves, &mut game.graveyards);
    let stack = stack_with_move(&game.stack, id, zone, game.cards.len());
    game.stack = stack;
    if !keeps {
        let effects = retain_effects(&game.control_changing_effects, id, None);
        game.control_changing_effects = effects;
    }
    proof {
        let old_effects = old(game).control_changing_effects@;
        if !keeps {
            lemma_retained_below(old_effects, id, None, old(game).cards@.len());
            lemma_controller_after_clearing(old_effects, id, owner);
        }
        assert forall|j: int| 0 <= j < game.cards@.len() implies #[trigger] game.cards@[j].controller
            == controller_from(game.control_changing_effects@, j as u64, game.cards@[j].owner) by {
            assert(old(game).cards@[j].id == j);
            if j != i && !keeps {
                lemma_controller_other_card(old_effects, id, None, j as u64, game.cards@[j].owner);
            }
        }
    }
    if is_token && zone != Zone::Battlefield {
        game.add_state_based_event(StateBasedEvent::TokenLeftBattlefield(id));
    }
    Some(())
}

/// Every value kept when taking out `id` was already there.
pub proof fn lemma_remove_id_subset(s: Seq<u64>, id: u64)
    ensures
        forall|k: int| 0 <= k < remove_id(s, id).len() ==> s.contains(#[trigger] remove_id(s, id)[k]),
{
    assert forall|k: int| 0 <= k < remove_id(s, id).len() implies s.contains(#[trigger] remove_id(s, id)[k]) by {
        crate::prompts::lemma_remove_id_contains(s, id, remove_id(s, id)[k]);
    }
}

} // verus!

verus! {

/// The game after `player` draws one card: the top card of their library
/// moves to their hand, or, from an empty library, the failed draw is noted
/// for state-based actions.
pub open spec fn drew_one(old: &GameState, new: &GameState, player: PlayerName) -> bool {
    let library = old.libraries@[player_index(player) as int]@;
    if library.len() == 0 {
        &&& pending_events(new.state_based_events) == pending_events(old.state_based_events).push(
            StateBasedEvent::DrawFromEmptyLibrary(player),
        )
        &&& new.state_based_events is Some
        &&& new.cards == old.cards
        &&& new.libraries == old.libraries
        &&& new.graveyards == old.graveyards
        &&& new.stack == old.stack
        &&& new.status == old.status
        &&& new.step == old.step
        &&& new.turn == old.turn
        &&& new.priority == old.priority
        &&& new.passed == old.passed
        &&& new.all_players == old.all_players
        &&& new.players == old.players
        &&& new.combat == old.combat
        &&& new.history == old.history
        &&& new.agent_search == old.agent_search
        &&& new.this_turn == old.this_turn
        &&& new.control_changing_effects == old.control_changing_effects
    } else {
        moved(old, new, library.last(), Zone::Hand)
    }
}

/// `states` runs from one game to another through single draws by `player`.
pub open spec fn draw_sequence(states: Seq<GameState>, player: PlayerName) -> bool {
    forall|k: int| #![trigger states[k]] 0 <= k < states.len() - 1 ==> drew_one(&states[k], &states[k + 1], player)
}

/// The game after `player` draws `n` cards one at a time.
pub open spec fn drew(old: &GameState, new: &GameState, player: PlayerName, n: nat) -> bool {
    exists|states: Seq<GameState>|
        #![trigger draw_sequence(states, player)]
        states.len() == n + 1 && states[0] == *old && states[n as int] == *new && draw_sequence(
            states,
            player,
        )
}

/// `player` draws the top card of their library, if it has one.
pub fn draw(game: &mut GameState, player: PlayerName)
    requires
        old(game).wf(),
    ensures
        final(game).wf(),
        drew_one(old(game), final(game), player),
{
    let p = player.index();
    let size = game.libraries[p].len();
    if size == 0 {
        game.add_state_based_event(StateBasedEvent::DrawFromEmptyLibrary(player));
    } else {
        let id = game.libraries[p][size - 1];
        proof {
            assert(game.libraries@[p as int]@[size - 1] < game.cards@.len());
        }
        run(game, id, Zone::Hand);
    }
}

/// `player` draws `count` cards, one at a time.
pub fn draw_cards(game: &mut GameState, player: PlayerName, count: usize)
    requires
        old(game).wf(),
    ensures
        final(game).wf(),
        drew(old(game), final(game), player, count as nat),
{
    let ghost start = *game;
    let ghost mut states: Seq<GameState> = seq![start];
    let mut i: usize = 0;
    while i < count
        invariant
            game.wf(),
            i <= count,
            states.len() == i + 1,
            states[0] == start,
            states[i as int] == *game,
            draw_sequence(states, player),
        decreases count - i,
    {
        let ghost before = states;
        draw(game, player);
        proof {
            states = before.push(*game);
            assert forall|k: int| #![trigger states[k]] 0 <= k < states.len() - 1 implies drew_one(
                &states[k],
                &states[k + 1],
                player,
            ) by {
                if k < i {
                    assert(states[k] == before[k] && states[k + 1] == before[k + 1]);
                }
            }
        }
        i = i + 1;
    }
    proof {
        assert(states.len() == count + 1 && states[0] == start && states[count as int] == *game
            && draw_sequence(states, player));
    }
}

/// Puts card `id` on top of its owner's library.
pub fn move_to_top(game: &mut GameState, id: u64) -> (result: Option<()>)
    requires
        old(game).wf(),
    ensures
        final(game).wf(),
        result is None <==> id >= old(game).cards@.len(),
        result is None ==> *final(game) == *old(game),
        result is Some ==> moved(old(game), final(game), id, Zone::Library),
{
    run(game, id, Zone::Library)
}

/// Whether `states` runs through moves of the cards of `ids`, one at a
/// time, to the top of their owners' libraries; a missing card is skipped.
pub open spec fn top_sequence(states: Seq<GameState>, ids: Seq<u64>) -> bool {
    forall|k: int|
        #![trigger states[k]]
        0 <= k < states.len() - 1 ==> if ids[k] < states[k].cards@.len() {
            moved(&states[k], &states[k + 1], ids[k], Zone::Library)
        } else {
            states[k + 1] == states[k]
        }
}

/// Puts each card of `ids`, in order, on top of its owner's library.
pub fn move_all_to_top(game: &mut GameState, ids: &Vec<u64>)
    requires
        old(game).wf(),
    ensures
        final(game).wf(),
        exists|states: Seq<GameState>|
            #![trigger top_sequence(states, ids@)]
            states.len() == ids@.len() + 1 && states[0] == *old(game) && states.last() == *final(game)
                && top_sequence(states, ids@),
{
    let ghost mut states: Seq<GameState> = seq![*game];
    let mut i: usize = 0;
    while i < ids.len()
        invariant
            game.wf(),
            i <= ids@.len(),
            states.len() == i + 1,
            states[0] == *old(game),
            states[i as int] == *game,
            top_sequence(states, ids@),
        decreases ids@.len() - i,
    {
        let ghost before = states;
        move_to_top(game, ids[i]);
        proof {
            states = before.push(*game);
            assert forall|k: int| #![trigger states[k]] 0 <= k < states.len() - 1 implies (if ids@[k]
                < states[k].cards@.len() {
                moved(&states[k], &states[k + 1], ids@[k], Zone::Library)
            } else {
                states[k + 1] == states[k]
            }) by {
                if k < i {
                    assert(states[k] == before[k] && states[k + 1] == before[k + 1]);
                }
            }
        }
        i = i + 1;
    }
    proof {
        assert(states.last() == *game);
    }
}

/// The zone lists agree with the cards: each library and each graveyard
/// holds, without repeats, exactly its owner's cards in that zone, and the
/// stack holds, without repeats, exactly the cards on the stack.
pub open spec fn zones_consistent(game: &GameState) -> bool {
    let cards = game.cards@;
    &&& piles_consistent(libraries_view(game.libraries@), cards, Zone::Library)
    &&& piles_consistent(libraries_view(game.graveyards@), cards, Zone::Graveyard)
    &&& forall|i: int|
        0 <= i < game.stack@.len() ==> game.stack@[i] < cards.len() && cards[#[trigger] game.stack@[i] as int].zone
            == Zone::Stack
    &&& forall|id: int|
        0 <= id < cards.len() && (#[trigger] cards[id]).zone == Zone::Stack ==> game.stack@.contains(id as u64)
    &&& game.stack@.no_duplicates()
}

/// Whether the piles of zone `pile`, one per player, hold exactly the cards
/// in that zone, each in its owner's pile and once.
pub open spec fn piles_consistent(piles: Seq<Seq<u64>>, cards: Seq<CardState>, pile: Zone) -> bool {
    &&& piles.len() == 4
    &&& forall|p: int, i: int|
        #![trigger piles[p][i]]
        0 <= p < 4 && 0 <= i < piles[p].len() ==> piles[p][i] < cards.len() && cards[piles[p][i] as int].zone
            == pile && player_index(cards[piles[p][i] as int].owner) == p
    &&& forall|id: int|
        0 <= id < cards.len() && (#[trigger] cards[id]).zone == pile ==> piles[player_index(
            cards[id].owner,
        ) as int].contains(id as u64)
    &&& forall|p: int| 0 <= p < 4 ==> (#[trigger] piles[p]).no_duplicates()
}

/// Taking an identifier out keeps a sequence free of repeats.
proof fn lemma_remove_id_no_duplicates(s: Seq<u64>, id: u64)
    requires
        s.no_duplicates(),
    ensures
        remove_id(s, id).no_duplicates(),
    decreases s.len(),
{
    if s.len() > 0 {
        let t = s.drop_last();
        assert(t.no_duplicates()) by {
            assert forall|i: int, j: int| 0 <= i < t.len() && 0 <= j < t.len() && i != j implies t[i] != t[j] by {
                assert(s[i] == t[i] && s[j] == t[j]);
            }
        }
        lemma_remove_id_no_duplicates(t, id);
        let r = remove_id(t, id);
        if s.last() != id {
            assert(!r.contains(s.last())) by {
                crate::prompts::lemma_remove_id_contains(t, id, s.last());
                if t.contains(s.last()) {
                    let k = choose|k: int| 0 <= k < t.len() && t[k] == s.last();
                    assert(s[k] == s[s.len() - 1]);
                }
            }
            let n = r + seq![s.last()];
            assert forall|i: int, j: int| 0 <= i < n.len() && 0 <= j < n.len() && i != j implies n[i] != n[j] by {
                if i < r.len() && j < r.len() {
                    assert(n[i] == r[i] && n[j] == r[j]);
                } else if i < r.len() {
                    assert(n[i] == r[i]);
                    assert(r.contains(r[i]));
                } else if j < r.len() {
                    assert(n[j] == r[j]);
                    assert(r.contains(r[j]));
                }
            }
        } else {
            assert(r + Seq::<u64>::empty() =~= r);
        }
    }
}

/// A sequence without repeats that lacks `id` keeps having no repeats once
/// `id` is added at the end.
proof fn lemma_push_new_no_duplicates(s: Seq<u64>, id: u64)
    requires
        s.no_duplicates(),
        !s.contains(id),
    ensures
        s.push(id).no_duplicates(),
{
    let n = s.push(id);
    assert forall|i: int, j: int| 0 <= i < n.len() && 0 <= j < n.len() && i != j implies n[i] != n[j] by {
        if i < s.len() && j < s.len() {
        } else if i < s.len() {
            assert(s.contains(n[i]));
        } else if j < s.len() {
            assert(s.contains(n[j]));
        }
    }
}

/// Moving card `id` to `zone` keeps the piles of zone `pile` holding exactly
/// the cards in that zone.
proof fn lemma_piles_after_move(
    ol: Seq<Seq<u64>>,
    nl: Seq<Seq<u64>>,
    old_cards: Seq<CardState>,
    new_cards: Seq<CardState>,
    id: u64,
    zone: Zone,
    pile: Zone,
)
    requires
        piles_consistent(ol, old_cards, pile),
        id < old_cards.len(),
        old_cards.len() <= u64::MAX,
        new_cards.len() == old_cards.len(),
        forall|x: int| 0 <= x < old_cards.len() && x != id ==> #[trigger] new_cards[x] == old_cards[x],
        new_cards[id as int].zone == zone,
        new_cards[id as int].owner == old_cards[id as int].owner,
        nl == piles_after_move(ol, id, old_cards[id as int].owner, zone, pile),
    ensures
        piles_consistent(nl, new_cards, pile),
{
    let card = old_cards[id as int];
    let owner = player_index(card.owner) as int;
    assert forall|p: int| 0 <= p < 4 implies !(#[trigger] remove_id(ol[p], id)).contains(id) by {
        crate::prompts::lemma_remove_id_contains(ol[p], id, id);
    }
    assert forall|p: int, i: int|
        #![trigger nl[p][i]]
        0 <= p < 4 && 0 <= i < nl[p].len() implies nl[p][i] < new_cards.len() && new_cards[nl[p][i] as int].zone
        == pile && player_index(new_cards[nl[p][i] as int].owner) == p by {
        let x = nl[p][i];
        let r = remove_id(ol[p], id);
        if i < r.len() {
            assert(nl[p][i] == r[i]);
            crate::prompts::lemma_remove_id_contains(ol[p], id, x);
            assert(r.contains(x));
            let k = choose|k: int| 0 <= k < ol[p].len() && ol[p][k] == x;
            assert(ol[p][k] < old_cards.len());
            assert(x != id);
            assert(new_cards[x as int] == old_cards[x as int]);
        } else {
            assert(zone == pile && p == owner);
            assert(x == id);
        }
    }
    assert forall|c: int|
        0 <= c < new_cards.len() && (#[trigger] new_cards[c]).zone == pile implies nl[player_index(
        new_cards[c].owner,
    ) as int].contains(c as u64) by {
        assert(new_cards.len() == new_cards.len());
        let x = c as u64;
        assert(x as int == c);
        if x == id {
            assert(new_cards[c].owner == card.owner);
            assert(zone == pile);
            assert(nl[owner] == remove_id(ol[owner], id).push(id));
            assert(nl[owner][nl[owner].len() - 1] == id);
        } else {
            assert(new_cards[c] == old_cards[c]);
            let q = player_index(old_cards[c].owner) as int;
            assert(ol[q].contains(x));
            crate::prompts::lemma_remove_id_contains(ol[q], id, x);
            let r = remove_id(ol[q], id);
            let k = choose|k: int| 0 <= k < r.len() && r[k] == x;
            assert(nl[q][k] == x);
        }
    }
    assert forall|p: int| 0 <= p < 4 implies (#[trigger] nl[p]).no_duplicates() by {
        lemma_remove_id_no_duplicates(ol[p], id);
        if zone == pile && p == owner {
            lemma_push_new_no_duplicates(remove_id(ol[p], id), id);
        }
    }
}

/// Moving a card keeps the zone lists in agreement with the cards.
pub proof fn law_move_keeps_zones_consistent(old: &GameState, new: &GameState, id: u64, zone: Zone)
    requires
        zones_consistent(old),
        id < old.cards@.len(),
        moved(old, new, id, zone),
    ensures
        zones_consistent(new),
{
    let card = old.cards@[id as int];
    assert(new.cards@.len() == new.cards.len());
    assert forall|x: int| 0 <= x < old.cards@.len() && x != id implies #[trigger] new.cards@[x] == old.cards@[x] by {}
    lemma_piles_after_move(
        libraries_view(old.libraries@),
        libraries_view(new.libraries@),
        old.cards@,
        new.cards@,
        id,
        zone,
        Zone::Library,
    );
    lemma_piles_after_move(
        libraries_view(old.graveyards@),
        libraries_view(new.graveyards@),
        old.cards@,
        new.cards@,
        id,
        zone,
        Zone::Graveyard,
    );
    lemma_remove_id_no_duplicates(old.stack@, id);
    crate::prompts::lemma_remove_id_contains(old.stack@, id, id);
    if zone == Zone::Stack {
        lemma_push_new_no_duplicates(remove_id(old.stack@, id), id);
    }
    let rs = remove_id(old.stack@, id);
    assert forall|i: int| 0 <= i < new.stack@.len() implies new.stack@[i] < new.cards@.len() && new.cards@[
        #[trigger] new.stack@[i] as int].zone == Zone::Stack by {
        let x = new.stack@[i];
        if i < rs.len() {
            assert(x == rs[i]);
            crate::prompts::lemma_remove_id_contains(old.stack@, id, x);
            assert(rs.contains(x));
            let k = choose|k: int| 0 <= k < old.stack@.len() && old.stack@[k] == x;
            assert(old.stack@[k] < old.cards@.len());
            assert(new.cards@[x as int] == old.cards@[x as int]);
        } else {
            assert(x == id);
        }
    }
    assert forall|c: int|
        0 <= c < new.cards@.len() && (#[trigger] new.cards@[c]).zone == Zone::Stack implies new.stack@.contains(
        c as u64,
    ) by {
        assert(new.cards@.len() == new.cards.len());
        let x = c as u64;
        assert(x as int == c);
        if x == id {
            assert(new.stack@[new.stack@.len() - 1] == id);
        } else {
            assert(new.cards@[c] == old.cards@[c]);
            assert(old.stack@.contains(x));
            crate::prompts::lemma_remove_id_contains(old.stack@, id, x);
            let k = choose|k: int| 0 <= k < rs.len() && rs[k] == x;
            assert(new.stack@[k] == x);
        }
    }
}

/// A drawn card goes from the top of its owner's library to their hand, face
/// down and revealed to them.
pub proof fn law_drawn_card_is_revealed_to_owner(old: &GameState, new: &GameState, player: PlayerName)
    requires
        old.wf(),
        zones_consistent(old),
        drew_one(old, new, player),
        old.libraries@[player_index(player) as int]@.len() > 0,
    ensures
        ({
            let top = old.libraries@[player_index(player) as int]@.last();
            &&& new.cards@[top as int].zone == Zone::Hand
            &&& !new.cards@[top as int].face_up
            &&& new.cards@[top as int].revealed_to.has(player)
        }),
{
    let library = libraries_view(old.libraries@)[player_index(player) as int];
    let top = library.last();
    assert(library[library.len() - 1] == top);
    assert(player_index(old.cards@[top as int].owner) == player_index(player));
    assert(old.cards@[top as int].owner == player);
}

} // verus!
