//! State-based actions, checked whenever a player would receive priority:
//! players at zero life or who drew from an empty library lose, and
//! creatures with lethal damage or no toughness go to the graveyard. Cards
//! here have no abilities, so no triggered ability ever waits to be put on
//! the stack.
use crate::card_queries::{spec_toughness, toughness};
use crate::game_state::{
    pending_events, retained_effects, CardState, ControlChangingEffect, GameState, GameStatus, PlayerState,
    StateBasedEvent,
};
use crate::move_card::{card_after_move, graveyards_after_move, libraries_view, run};
use crate::primitives::{player_index, PlayerName, PlayerSet, Zone};
use crate::prompts::remove_id;
use vstd::prelude::*;

verus! {

/// The card an event may put into the graveyard.
pub open spec fn destroy_target(e: StateBasedEvent) -> Option<u64> {
    match e {
        StateBasedEvent::CreatureToughnessChanged(id) => Some(id),
        StateBasedEvent::CreatureDamaged(id) => Some(id),
        StateBasedEvent::CreatureDamagedByDeathtouch(id) => Some(id),
        _ => None,
    }
}

/// Whether event `e` puts `card` into its owner's graveyard: toughness 0
/// or less, damage at least its toughness, or damage from deathtouch.
pub open spec fn destroys(card: CardState, e: StateBasedEvent) -> bool {
    match e {
        StateBasedEvent::CreatureToughnessChanged(_) => spec_toughness(card) <= 0,
        StateBasedEvent::CreatureDamaged(_) => (card.damage as i64) >= spec_toughness(card),
        StateBasedEvent::CreatureDamagedByDeathtouch(_) => true,
        _ => false,
    }
}

/// Whether some event among `events` puts card `id` of `cards` into the
/// graveyard.
pub open spec fn destroyed(cards: Seq<CardState>, events: Seq<StateBasedEvent>, id: u64) -> bool {
    id < cards.len() && exists|j: int|
        0 <= j < events.len() && destroy_target(#[trigger] events[j]) == Some(id) && destroys(
            cards[id as int],
            events[j],
        )
}

/// The cards that `events` put into the graveyard.
pub open spec fn destroyed_set(cards: Seq<CardState>, events: Seq<StateBasedEvent>) -> Set<u64> {
    Set::new(|id: u64| destroyed(cards, events, id))
}

/// Whether event `e` makes `player` lose: their life total dropped to 0 or
/// less, or they drew from an empty library.
pub open spec fn loses_by(players: Seq<PlayerState>, e: StateBasedEvent, player: PlayerName) -> bool {
    match e {
        StateBasedEvent::LifeTotalDecrease(p) => p == player && players[player_index(p) as int].life
            <= 0,
        StateBasedEvent::DrawFromEmptyLibrary(p) => p == player,
        _ => false,
    }
}

/// Whether some event among `events` makes `player` lose.
pub open spec fn loses(players: Seq<PlayerState>, events: Seq<StateBasedEvent>, player: PlayerName) -> bool {
    exists|j: int| 0 <= j < events.len() && loses_by(players, #[trigger] events[j], player)
}

/// The players that `events` make lose.
pub open spec fn lost_set(players: Seq<PlayerState>, events: Seq<StateBasedEvent>) -> PlayerSet {
    PlayerSet {
        one: loses(players, events, PlayerName::One),
        two: loses(players, events, PlayerName::Two),
        three: loses(players, events, PlayerName::Three),
        four: loses(players, events, PlayerName::Four),
    }
}

/// Whether event `e` leads to an action: a player loses or a card goes to
/// the graveyard.
pub open spec fn acts(cards: Seq<CardState>, players: Seq<PlayerState>, e: StateBasedEvent) -> bool {
    match e {
        StateBasedEvent::LifeTotalDecrease(p) => players[player_index(p) as int].life <= 0,
        StateBasedEvent::DrawFromEmptyLibrary(_) => true,
        _ => match destroy_target(e) {
            Some(id) => id < cards.len() && destroys(cards[id as int], e),
            None => false,
        },
    }
}

/// Whether some event among `events` leads to an action.
pub open spec fn any_acts(cards: Seq<CardState>, players: Seq<PlayerState>, events: Seq<StateBasedEvent>) -> bool {
    exists|j: int| 0 <= j < events.len() && acts(cards, players, #[trigger] events[j])
}

/// The cards after `events`: each card they destroy is in the graveyard.
pub open spec fn cards_after(cards: Seq<CardState>, events: Seq<StateBasedEvent>, turn: crate::primitives::TurnData) -> Seq<CardState> {
    Seq::new(
        cards.len(),
        |i: int|
            if destroyed(cards, events, i as u64) {
                card_after_move(cards[i], Zone::Graveyard, turn)
            } else {
                cards[i]
            },
    )
}

/// Whether event `e` puts its card into the graveyard, the card as it
/// stands in `cards`.
pub open spec fn fires(cards: Seq<CardState>, e: StateBasedEvent) -> bool {
    match destroy_target(e) {
        Some(id) => id < cards.len() && destroys(cards[id as int], e),
        None => false,
    }
}

/// The graveyards after `events`, taken one at a time from `cards`: each card
/// an event puts into the graveyard, as the card stands then, goes on top
/// of its owner's graveyard.
pub open spec fn graveyards_after(
    graveyards: Seq<Seq<u64>>,
    cards: Seq<CardState>,
    events: Seq<StateBasedEvent>,
    turn: crate::primitives::TurnData,
) -> Seq<Seq<u64>>
    decreases events.len(),
{
    if events.len() == 0 {
        graveyards
    } else {
        let prev = graveyards_after(graveyards, cards, events.drop_last(), turn);
        let current = cards_after(cards, events.drop_last(), turn);
        if fires(current, events.last()) {
            let id = destroy_target(events.last())->0;
            graveyards_after_move(prev, id, current[id as int].owner, Zone::Graveyard)
        } else {
            prev
        }
    }
}

/// Events with no card to destroy leave the graveyards as they are.
proof fn lemma_graveyards_no_targets(
    graveyards: Seq<Seq<u64>>,
    cards: Seq<CardState>,
    events: Seq<StateBasedEvent>,
    turn: crate::primitives::TurnData,
)
    requires
        no_destroy_targets(events),
    ensures
        graveyards_after(graveyards, cards, events, turn) == graveyards,
    decreases events.len(),
{
    if events.len() > 0 {
        assert(no_destroy_targets(events.drop_last())) by {
            assert forall|j: int| 0 <= j < events.drop_last().len() implies destroy_target(
                #[trigger] events.drop_last()[j],
            ) is None by {
                assert(events.drop_last()[j] == events[j]);
            }
        }
        assert(destroy_target(events[events.len() - 1]) is None);
        lemma_graveyards_no_targets(graveyards, cards, events.drop_last(), turn);
    }
}

/// `s` without the identifiers in `removed`, in order.
pub open spec fn drop_ids(s: Seq<u64>, removed: Set<u64>) -> Seq<u64>
    decreases s.len(),
{
    if s.len() == 0 {
        Seq::empty()
    } else {
        drop_ids(s.drop_last(), removed) + (if removed.contains(s.last()) {
            Seq::empty()
        } else {
            seq![s.last()]
        })
    }
}

/// Every library without the cards in `removed`.
pub open spec fn libraries_without(libraries: Seq<Seq<u64>>, removed: Set<u64>) -> Seq<Seq<u64>> {
    Seq::new(libraries.len(), |p: int| drop_ids(libraries[p], removed))
}

/// Whether every event is the note of a token leaving the battlefield.
pub open spec fn only_token_events(events: Seq<StateBasedEvent>) -> bool {
    forall|j: int| 0 <= j < events.len() ==> #[trigger] events[j] is TokenLeftBattlefield
}

/// Whether no event can put a card into the graveyard.
pub open spec fn no_destroy_targets(events: Seq<StateBasedEvent>) -> bool {
    forall|j: int| 0 <= j < events.len() ==> destroy_target(#[trigger] events[j]) is None
}

/// The effect of the state-based actions for `events` on the cards,
/// libraries and stack; the other parts of the game but the pending events
/// are unchanged.
pub open spec fn swept(old: &GameState, new: &GameState, events: Seq<StateBasedEvent>) -> bool {
    let removed = destroyed_set(old.cards@, events);
    &&& new.cards@ == cards_after(old.cards@, events, old.turn)
    &&& libraries_view(new.libraries@) == libraries_without(libraries_view(old.libraries@), removed)
    &&& libraries_view(new.graveyards@) == graveyards_after(
        libraries_view(old.graveyards@),
        old.cards@,
        events,
        old.turn,
    )
    &&& new.stack@ == drop_ids(old.stack@, removed)
    &&& new.status == old.status
    &&& new.step == old.step
    &&& new.turn == old.turn
    &&& new.priority == old.priority
    &&& new.passed == old.passed
    &&& new.all_players == old.all_players
    &&& new.players == old.players
    &&& new.combat == old.combat
    &&& new.history == old.history
    &&& new.agent_search == old.agent_search
    &&& new.control_changing_effects@ == effects_off_cards(old.control_changing_effects@, removed)
    &&& new.this_turn == old.this_turn
}

/// The status after the players in `lost` lose: the game ends, won by every
/// other player, once anybody lost.
pub open spec fn status_after(status: GameStatus, all_players: PlayerSet, lost: PlayerSet) -> GameStatus {
    if lost.count() > 0 {
        GameStatus::GameOver {
            winners: PlayerSet {
                one: all_players.one && !lost.one,
                two: all_players.two && !lost.two,
                three: all_players.three && !lost.three,
                four: all_players.four && !lost.four,
            },
        }
    } else {
        status
    }
}

/// The game after the state-based actions for the events pending in `old`.
pub open spec fn after_state_based_actions(old: &GameState, new: &GameState) -> bool {
    let events = pending_events(old.state_based_events);
    let lost = lost_set(old.players@, events);
    &&& new.cards@ == cards_after(old.cards@, events, old.turn)
    &&& libraries_view(new.libraries@) == libraries_without(
        libraries_view(old.libraries@),
        destroyed_set(old.cards@, events),
    )
    &&& libraries_view(new.graveyards@) == graveyards_after(
        libraries_view(old.graveyards@),
        old.cards@,
        events,
        old.turn,
    )
    &&& new.stack@ == drop_ids(old.stack@, destroyed_set(old.cards@, events))
    &&& new.status == status_after(old.status, old.all_players, lost)
    &&& new.state_based_events is None
    &&& new.step == old.step
    &&& new.turn == old.turn
    &&& new.priority == old.priority
    &&& new.passed == old.passed
    &&& new.all_players == old.all_players
    &&& new.players == old.players
    &&& new.combat == old.combat
    &&& new.history == old.history
    &&& new.agent_search == old.agent_search
    &&& new.control_changing_effects@ == effects_off_cards(
        old.control_changing_effects@,
        destroyed_set(old.cards@, events),
    )
    &&& new.this_turn == old.this_turn
}

/// `effects` without those on the cards in `removed`, in order.
pub open spec fn effects_off_cards(effects: Seq<ControlChangingEffect>, removed: Set<u64>) -> Seq<
    ControlChangingEffect,
>
    decreases effects.len(),
{
    if effects.len() == 0 {
        Seq::empty()
    } else {
        let rest = effects_off_cards(effects.drop_last(), removed);
        if removed.contains(effects.last().card_id) {
            rest
        } else {
            rest.push(effects.last())
        }
    }
}

/// Ending the effects on `id` after those on `removed` ends those on both.
proof fn lemma_effects_off_insert(s: Seq<ControlChangingEffect>, removed: Set<u64>, id: u64)
    ensures
        retained_effects(effects_off_cards(s, removed), id, None) == effects_off_cards(s, removed.insert(id)),
    decreases s.len(),
{
    if s.len() > 0 {
        lemma_effects_off_insert(s.drop_last(), removed, id);
        let rest = effects_off_cards(s.drop_last(), removed);
        if !removed.contains(s.last().card_id) {
            assert(rest.push(s.last()).drop_last() =~= rest);
        }
    }
}

/// Ending the effects on no card keeps them all.
proof fn lemma_effects_off_nothing(s: Seq<ControlChangingEffect>)
    ensures
        effects_off_cards(s, Set::empty()) == s,
    decreases s.len(),
{
    if s.len() > 0 {
        lemma_effects_off_nothing(s.drop_last());
        assert(s.drop_last().push(s.last()) =~= s);
    }
}

/// Taking `id` out of a sequence without `removed` leaves it without
/// `removed` and `id`.
proof fn lemma_remove_after_drop(s: Seq<u64>, removed: Set<u64>, id: u64)
    ensures
        remove_id(drop_ids(s, removed), id) == drop_ids(s, removed.insert(id)),
    decreases s.len(),
{
    if s.len() > 0 {
        let t = s.drop_last();
        let x = s.last();
        lemma_remove_after_drop(t, removed, id);
        let d = drop_ids(t, removed);
        if removed.contains(x) {
            assert(d + Seq::<u64>::empty() =~= d);
        } else {
            assert((d + seq![x]).drop_last() =~= d);
            assert((d + seq![x]).last() == x);
        }
    }
}

/// Removing nothing keeps the sequence.
proof fn lemma_drop_nothing(s: Seq<u64>)
    ensures
        drop_ids(s, Set::empty()) == s,
    decreases s.len(),
{
    if s.len() > 0 {
        lemma_drop_nothing(s.drop_last());
        assert(s.drop_last() + seq![s.last()] =~= s);
    }
}

/// Events without a card to destroy destroy nothing, and events that are all
/// token notes make nobody lose and lead to no action.
proof fn lemma_token_events_inert(cards: Seq<CardState>, players: Seq<PlayerState>, events: Seq<StateBasedEvent>)
    requires
        only_token_events(events),
    ensures
        destroyed_set(cards, events) =~= Set::<u64>::empty(),
        lost_set(players, events) == (PlayerSet { one: false, two: false, three: false, four: false }),
        !any_acts(cards, players, events),
        no_destroy_targets(events),
{
    assert forall|id: u64| !destroyed(cards, events, id) by {
        if destroyed(cards, events, id) {
            let j = choose|j: int|
                0 <= j < events.len() && destroy_target(#[trigger] events[j]) == Some(id) && destroys(
                    cards[id as int],
                    events[j],
                );
            assert(events[j] is TokenLeftBattlefield);
        }
    }
    assert forall|p: PlayerName| !loses(players, events, p) by {
        if loses(players, events, p) {
            let j = choose|j: int| 0 <= j < events.len() && loses_by(players, #[trigger] events[j], p);
            assert(events[j] is TokenLeftBattlefield);
        }
    }
    if any_acts(cards, players, events) {
        let j = choose|j: int| 0 <= j < events.len() && acts(cards, players, #[trigger] events[j]);
        assert(events[j] is TokenLeftBattlefield);
    }
}

/// Moving a card to the graveyard twice in a turn is moving it once.
proof fn lemma_graveyard_twice(card: CardState, turn: crate::primitives::TurnData)
    ensures
        card_after_move(card_after_move(card, Zone::Graveyard, turn), Zone::Graveyard, turn)
            == card_after_move(card, Zone::Graveyard, turn),
{
}

/// Applies the state-based actions for `events`, one event at a time, adding
/// the players who lose to `lost`.
fn apply_events(game: &mut GameState, events: Vec<StateBasedEvent>, lost: &mut PlayerSet, performed: &mut bool)
    requires
        old(game).wf(),
        old(game).state_based_events is None,
    ensures
        final(game).wf(),
        swept(old(game), final(game), events@),
        only_token_events(pending_events(final(game).state_based_events)),
        no_destroy_targets(events@) ==> final(game).state_based_events is None,
        forall|p: PlayerName|
            #[trigger] final(lost).has(p) == (old(lost).has(p) || loses(old(game).players@, events@, p)),
        *final(performed) == (*old(performed) || any_acts(old(game).cards@, old(game).players@, events@)),
{
    let ghost g0 = *game;
    let ghost lost0 = *lost;
    let ghost performed0 = *performed;
    let mut k: usize = 0;
    proof {
        assert(events@.take(0) =~= Seq::<StateBasedEvent>::empty());
        assert(destroyed_set(g0.cards@, events@.take(0)) =~= Set::<u64>::empty());
        assert(g0.cards@ =~= cards_after(g0.cards@, events@.take(0), g0.turn));
        assert forall|p: int| 0 <= p < 4 implies #[trigger] libraries_view(g0.libraries@)[p] == drop_ids(
            libraries_view(g0.libraries@)[p],
            Set::empty(),
        ) by {
            lemma_drop_nothing(libraries_view(g0.libraries@)[p]);
        }
        assert(libraries_view(g0.libraries@) =~= libraries_without(
            libraries_view(g0.libraries@),
            destroyed_set(g0.cards@, events@.take(0)),
        ));
        lemma_drop_nothing(g0.stack@);
        lemma_effects_off_nothing(g0.control_changing_effects@);
    }
    while k < events.len()
        invariant
            k <= events@.len(),
            game.wf(),
            swept(&g0, game, events@.take(k as int)),
            only_token_events(pending_events(game.state_based_events)),
            no_destroy_targets(events@.take(k as int)) ==> game.state_based_events is None,
            forall|p: PlayerName|
                #[trigger] lost.has(p) == (lost0.has(p) || loses(g0.players@, events@.take(k as int), p)),
            *performed == (performed0 || any_acts(g0.cards@, g0.players@, events@.take(k as int))),
            g0.wf(),
        decreases events@.len() - k,
    {
        let event = events[k];
        let ghost before = *game;
        let ghost prefix = events@.take(k as int);
        let ghost next = events@.take(k as int + 1);
        proof {
            assert(next =~= prefix.push(event));
            lemma_step(g0.cards@, g0.players@, events@, k as nat);
        }
        match event {
            StateBasedEvent::LifeTotalDecrease(player) => {
                if game.player(player).life <= 0 {
                    lost.insert(player);
                    *performed = true;
                }
                proof {
                    lemma_no_target_keeps(&g0, game, events@, k as nat);
                }
            },
            StateBasedEvent::DrawFromEmptyLibrary(player) => {
                lost.insert(player);
                *performed = true;
                proof {
                    lemma_no_target_keeps(&g0, game, events@, k as nat);
                }
            },
            StateBasedEvent::CreatureToughnessChanged(id) => {
                proof {
                    lemma_event_on_current(&g0, &before, events@, k as nat, id);
                }
                if let Some(t) = toughness(game, id) {
                    if t <= 0 {
                        run(game, id, Zone::Graveyard);
                        *performed = true;
                        proof {
                            lemma_sweep_move(&g0, &before, game, events@, k as nat, id);
                        }
                    } else {
                        proof {
                            lemma_sweep_same(&g0, game, events@, k as nat);
                        }
                    }
                } else {
                    proof {
                        lemma_sweep_same(&g0, game, events@, k as nat);
                    }
                }
            },
            StateBasedEvent::CreatureDamaged(id) => {
                proof {
                    lemma_event_on_current(&g0, &before, events@, k as nat, id);
                }
                let mut fired = false;
                if let Some(card) = game.card(id) {
                    let damage = card.damage as i64;
                    if let Some(t) = toughness(game, id) {
                        if damage >= t {
                            fired = true;
                        }
                    }
                }
                if fired {
                    run(game, id, Zone::Graveyard);
                    *performed = true;
                    proof {
                        lemma_sweep_move(&g0, &before, game, events@, k as nat, id);
                    }
                } else {
                    proof {
                        lemma_sweep_same(&g0, game, events@, k as nat);
                    }
                }
            },
            StateBasedEvent::CreatureDamagedByDeathtouch(id) => {
                proof {
                    lemma_event_on_current(&g0, &before, events@, k as nat, id);
                }
                if run(game, id, Zone::Graveyard).is_some() {
                    *performed = true;
                    proof {
                        lemma_sweep_move(&g0, &before, game, events@, k as nat, id);
                    }
                } else {
                    proof {
                        lemma_sweep_same(&g0, game, events@, k as nat);
                    }
                }
            },
            _ => {
                proof {
                    lemma_no_target_keeps(&g0, game, events@, k as nat);
                }
            },
        }
        k = k + 1;
    }
    proof {
        assert(events@.take(k as int) =~= events@);
    }
}

/// Events with no card to destroy keep the effect of the earlier events.
proof fn lemma_no_target_keeps(g0: &GameState, g: &GameState, events: Seq<StateBasedEvent>, k: nat)
    requires
        k < events.len(),
        destroy_target(events[k as int]) is None,
        swept(g0, g, events.take(k as int)),
    ensures
        destroyed_set(g0.cards@, events.take(k as int + 1)) =~= destroyed_set(g0.cards@, events.take(k as int)),
        swept(g0, g, events.take(k as int + 1)),
{
    lemma_step(g0.cards@, g0.players@, events, k);
    lemma_sweep_same(g0, g, events, k);
}

/// An event for card `id` destroys it exactly when it destroys the card as it
/// stands after the earlier events; a card destroyed earlier already led to
/// an action.
proof fn lemma_event_on_current(g0: &GameState, before: &GameState, events: Seq<StateBasedEvent>, k: nat, id: u64)
    requires
        k < events.len(),
        destroy_target(events[k as int]) == Some(id),
        swept(g0, before, events.take(k as int)),
    ensures
        before.cards@.len() == g0.cards@.len(),
        id < g0.cards@.len() ==> destroyed_set(g0.cards@, events.take(k as int + 1)) =~= (if destroys(
            before.cards@[id as int],
            events[k as int],
        ) {
            destroyed_set(g0.cards@, events.take(k as int)).insert(id)
        } else {
            destroyed_set(g0.cards@, events.take(k as int))
        }),
        id >= g0.cards@.len() ==> destroyed_set(g0.cards@, events.take(k as int + 1)) =~= destroyed_set(
            g0.cards@,
            events.take(k as int),
        ),
        id < g0.cards@.len() && destroyed(g0.cards@, events.take(k as int), id) ==> any_acts(
            g0.cards@,
            g0.players@,
            events.take(k as int),
        ),
        id < g0.cards@.len() && !destroyed(g0.cards@, events.take(k as int), id) ==> before.cards@[id as int]
            == g0.cards@[id as int],
        acts(g0.cards@, g0.players@, events[k as int]) == (id < g0.cards@.len() && destroys(
            g0.cards@[id as int],
            events[k as int],
        )),
{
    let a = events.take(k as int);
    lemma_step(g0.cards@, g0.players@, events, k);
    if id < g0.cards@.len() && destroyed(g0.cards@, a, id) {
        let j = choose|j: int|
            0 <= j < a.len() && destroy_target(#[trigger] a[j]) == Some(id) && destroys(
                g0.cards@[id as int],
                a[j],
            );
        assert(acts(g0.cards@, g0.players@, a[j]));
    }
}

/// When the set of destroyed cards does not grow, the effect stays.
proof fn lemma_sweep_same(g0: &GameState, g: &GameState, events: Seq<StateBasedEvent>, k: nat)
    requires
        k < events.len(),
        swept(g0, g, events.take(k as int)),
        destroyed_set(g0.cards@, events.take(k as int + 1)) =~= destroyed_set(g0.cards@, events.take(k as int)),
        !fires(g.cards@, events[k as int]),
    ensures
        swept(g0, g, events.take(k as int + 1)),
{
    let a = events.take(k as int);
    let b = events.take(k as int + 1);
    assert(b.drop_last() =~= a);
    assert(b.last() == events[k as int]);
    assert forall|i: int| 0 <= i < g0.cards@.len() implies #[trigger] destroyed(g0.cards@, b, i as u64) == destroyed(
        g0.cards@,
        a,
        i as u64,
    ) by {
        assert(destroyed_set(g0.cards@, b).contains(i as u64) == destroyed_set(g0.cards@, a).contains(
            i as u64,
        ));
    }
    assert(cards_after(g0.cards@, b, g0.turn) =~= cards_after(g0.cards@, a, g0.turn));
}

/// Moving a newly destroyed card to the graveyard extends the effect by it.
proof fn lemma_sweep_move(g0: &GameState, before: &GameState, after: &GameState, events: Seq<StateBasedEvent>, k: nat, id: u64)
    requires
        k < events.len(),
        id < before.cards@.len(),
        g0.wf(),
        swept(g0, before, events.take(k as int)),
        crate::move_card::moved(before, after, id, Zone::Graveyard),
        destroy_target(events[k as int]) == Some(id),
        destroys(before.cards@[id as int], events[k as int]),
        destroyed_set(g0.cards@, events.take(k as int + 1)) =~= destroyed_set(g0.cards@, events.take(k as int)).insert(id),
    ensures
        swept(g0, after, events.take(k as int + 1)),
{
    let a = events.take(k as int);
    let b = events.take(k as int + 1);
    let da = destroyed_set(g0.cards@, a);
    let db = destroyed_set(g0.cards@, b);
    assert(db.contains(id));
    assert forall|i: int| 0 <= i < g0.cards@.len() implies #[trigger] after.cards@[i] == cards_after(
        g0.cards@,
        b,
        g0.turn,
    )[i] by {
        assert(g0.cards@[i].id == i);
        assert(db.contains(i as u64) == destroyed(g0.cards@, b, i as u64));
        assert(da.contains(i as u64) == destroyed(g0.cards@, a, i as u64));
        assert(before.cards@[i] == cards_after(g0.cards@, a, g0.turn)[i]);
        if i == id {
            lemma_graveyard_twice(g0.cards@[i], g0.turn);
            assert(after.cards@[i] == card_after_move(before.cards@[i], Zone::Graveyard, before.turn));
        } else {
            assert(after.cards@[i] == before.cards@[i]);
            assert(i as u64 != id);
        }
    }
    assert(after.cards@ =~= cards_after(g0.cards@, b, g0.turn));
    lemma_effects_off_insert(g0.control_changing_effects@, da, id);
    assert(b.drop_last() =~= a);
    assert(b.last() == events[k as int]);
    let lb = libraries_view(before.libraries@);
    let l0 = libraries_view(g0.libraries@);
    assert forall|p: int| 0 <= p < l0.len() implies #[trigger] libraries_view(after.libraries@)[p] == drop_ids(
        l0[p],
        db,
    ) by {
        lemma_remove_after_drop(l0[p], da, id);
        assert(lb[p] == drop_ids(l0[p], da));
    }
    assert(libraries_view(after.libraries@) =~= libraries_without(l0, db));
    lemma_remove_after_drop(g0.stack@, da, id);
}

/// How the sets of destroyed cards, losing players and actions grow by one
/// event.
proof fn lemma_step(cards: Seq<CardState>, players: Seq<PlayerState>, events: Seq<StateBasedEvent>, k: nat)
    requires
        k < events.len(),
    ensures
        forall|id: u64|
            #[trigger] destroyed(cards, events.take(k as int + 1), id) == (destroyed(cards, events.take(k as int), id)
                || (id < cards.len() && destroy_target(events[k as int]) == Some(id) && destroys(
                cards[id as int],
                events[k as int],
            ))),
        forall|p: PlayerName|
            #[trigger] loses(players, events.take(k as int + 1), p) == (loses(players, events.take(k as int), p)
                || loses_by(players, events[k as int], p)),
        any_acts(cards, players, events.take(k as int + 1)) == (any_acts(cards, players, events.take(k as int))
            || acts(cards, players, events[k as int])),
        no_destroy_targets(events.take(k as int + 1)) == (no_destroy_targets(events.take(k as int))
            && destroy_target(events[k as int]) is None),
{
    let a = events.take(k as int);
    let b = events.take(k as int + 1);
    assert(b =~= a.push(events[k as int]));
    assert forall|id: u64|
        #[trigger] destroyed(cards, b, id) == (destroyed(cards, a, id) || (id < cards.len()
            && destroy_target(events[k as int]) == Some(id) && destroys(cards[id as int], events[k as int]))) by {
        if destroyed(cards, a, id) {
            let j = choose|j: int|
                0 <= j < a.len() && destroy_target(#[trigger] a[j]) == Some(id) && destroys(cards[id as int], a[j]);
            assert(b[j] == a[j]);
        }
        if destroyed(cards, b, id) {
            let j = choose|j: int|
                0 <= j < b.len() && destroy_target(#[trigger] b[j]) == Some(id) && destroys(cards[id as int], b[j]);
            if j < k {
                assert(a[j] == b[j]);
            }
        }
        if id < cards.len() && destroy_target(events[k as int]) == Some(id) && destroys(cards[id as int], events[k as int]) {
            assert(b[k as int] == events[k as int]);
        }
    }
    assert forall|p: PlayerName|
        #[trigger] loses(players, b, p) == (loses(players, a, p) || loses_by(players, events[k as int], p)) by {
        if loses(players, a, p) {
            let j = choose|j: int| 0 <= j < a.len() && loses_by(players, #[trigger] a[j], p);
            assert(b[j] == a[j]);
        }
        if loses(players, b, p) {
            let j = choose|j: int| 0 <= j < b.len() && loses_by(players, #[trigger] b[j], p);
            if j < k {
                assert(a[j] == b[j]);
            }
        }
        if loses_by(players, events[k as int], p) {
            assert(b[k as int] == events[k as int]);
        }
    }
    if any_acts(cards, players, a) {
        let j = choose|j: int| 0 <= j < a.len() && acts(cards, players, #[trigger] a[j]);
        assert(b[j] == a[j]);
    }
    if any_acts(cards, players, b) {
        let j = choose|j: int| 0 <= j < b.len() && acts(cards, players, #[trigger] b[j]);
        if j < k {
            assert(a[j] == b[j]);
        }
    }
    if acts(cards, players, events[k as int]) {
        assert(b[k as int] == events[k as int]);
    }
    if no_destroy_targets(b) {
        assert forall|j: int| 0 <= j < a.len() implies destroy_target(#[trigger] a[j]) is None by {
            assert(b[j] == a[j]);
        }
        assert(b[k as int] == events[k as int]);
    }
    if no_destroy_targets(a) && destroy_target(events[k as int]) is None {
        assert forall|j: int| 0 <= j < b.len() implies destroy_target(#[trigger] b[j]) is None by {
            if j < k {
                assert(a[j] == b[j]);
            }
        }
    }
}

/// A measure of the pending events that shrinks with every batch handled:
/// 2 while some event is not a token note, 1 while only token notes wait, 0
/// when nothing waits.
pub open spec fn pending_rank(events: Seq<StateBasedEvent>) -> nat {
    if events.len() == 0 {
        0
    } else if only_token_events(events) {
        1
    } else {
        2
    }
}

/// Whether events wait for the next check.
fn has_pending_events(game: &GameState) -> (b: bool)
    ensures
        b == (pending_events(game.state_based_events).len() > 0),
{
    match &game.state_based_events {
        Some(events) => events.len() > 0,
        None => false,
    }
}

/// Takes the pending events out of the game.
fn take_events(game: &mut GameState) -> (events: Vec<StateBasedEvent>)
    ensures
        events@ == pending_events(old(game).state_based_events),
        *final(game) == (GameState { state_based_events: None, ..*old(game) }),
{
    match game.state_based_events.take() {
        Some(events) => events,
        None => Vec::new(),
    }
}

/// Runs the state-based actions for the pending events, batch after batch
/// until no event waits, then ends the game if a player lost. Returns
/// whether any action was performed.
fn state_based_actions(game: &mut GameState) -> (performed: bool)
    requires
        old(game).wf(),
    ensures
        final(game).wf(),
        after_state_based_actions(old(game), final(game)),
        performed == any_acts(
            old(game).cards@,
            old(game).players@,
            pending_events(old(game).state_based_events),
        ),
        pending_events(old(game).state_based_events).len() == 0 ==> *final(game) == (GameState {
            state_based_events: None,
            ..*old(game)
        }),
{
    let ghost g0 = *game;
    let ghost first_batch = pending_events(game.state_based_events);
    let mut lost = PlayerSet::empty();
    let mut performed = false;
    let ghost mut started = false;
    while has_pending_events(game)
        invariant
            game.wf(),
            g0.wf(),
            first_batch == pending_events(g0.state_based_events),
            !started ==> *game == g0,
            !started ==> !lost.one && !lost.two && !lost.three && !lost.four && !performed,
            started ==> swept(&g0, game, first_batch),
            started ==> first_batch.len() > 0,
            started ==> only_token_events(pending_events(game.state_based_events)),
            started ==> lost == lost_set(g0.players@, first_batch),
            started ==> performed == any_acts(g0.cards@, g0.players@, first_batch),
        decreases pending_rank(pending_events(game.state_based_events)),
    {
        let ghost before = *game;
        let ghost rank_before = pending_rank(pending_events(game.state_based_events));
        let events = take_events(game);
        let ghost lost_before = lost;
        apply_events(game, events, &mut lost, &mut performed);
        proof {
            if started {
                lemma_token_events_inert(before.cards@, before.players@, events@);
                lemma_drop_nothing(before.stack@);
                lemma_effects_off_nothing(before.control_changing_effects@);
                lemma_graveyards_no_targets(libraries_view(before.graveyards@), before.cards@, events@, before.turn);
                let lb = libraries_view(before.libraries@);
                assert forall|p: int| 0 <= p < lb.len() implies #[trigger] libraries_view(game.libraries@)[p]
                    == lb[p] by {
                    lemma_drop_nothing(lb[p]);
                }
                assert(libraries_view(game.libraries@) =~= lb);
                assert(game.cards@ =~= before.cards@);
                assert(lost == lost_before) by {
                    assert(lost.has(PlayerName::One) == lost_before.has(PlayerName::One));
                    assert(lost.has(PlayerName::Two) == lost_before.has(PlayerName::Two));
                    assert(lost.has(PlayerName::Three) == lost_before.has(PlayerName::Three));
                    assert(lost.has(PlayerName::Four) == lost_before.has(PlayerName::Four));
                }
            } else {
                assert(lost.has(PlayerName::One) == loses(g0.players@, first_batch, PlayerName::One));
                assert(lost.has(PlayerName::Two) == loses(g0.players@, first_batch, PlayerName::Two));
                assert(lost.has(PlayerName::Three) == loses(g0.players@, first_batch, PlayerName::Three));
                assert(lost.has(PlayerName::Four) == loses(g0.players@, first_batch, PlayerName::Four));
            }
            if only_token_events(events@) {
                lemma_token_events_inert(before.cards@, before.players@, events@);
            }
            assert(pending_rank(pending_events(game.state_based_events)) < rank_before);
            started = true;
        }
    }
    proof {
        if !started {
            let events = first_batch;
            assert(events.len() == 0);
            assert(destroyed_set(g0.cards@, events) =~= Set::<u64>::empty());
            lemma_drop_nothing(g0.stack@);
            lemma_effects_off_nothing(g0.control_changing_effects@);
            let l0 = libraries_view(g0.libraries@);
            assert forall|p: int| 0 <= p < l0.len() implies #[trigger] libraries_without(l0, Set::empty())[p]
                == l0[p] by {
                lemma_drop_nothing(l0[p]);
            }
            assert(libraries_without(l0, Set::empty()) =~= l0);
            assert(cards_after(g0.cards@, events, g0.turn) =~= g0.cards@);
            assert(lost_set(g0.players@, events) == lost);
            assert(!any_acts(g0.cards@, g0.players@, events));
            assert(swept(&g0, game, first_batch));
        }
        assert(lost == lost_set(g0.players@, first_batch));
    }
    game.state_based_events = None;
    if !lost.is_empty() {
        let winners = crate::player_queries::all_players(game).difference(&lost);
        proof {
            assert(winners.has(PlayerName::One) == (g0.all_players.one && !lost.one));
            assert(winners.has(PlayerName::Two) == (g0.all_players.two && !lost.two));
            assert(winners.has(PlayerName::Three) == (g0.all_players.three && !lost.three));
            assert(winners.has(PlayerName::Four) == (g0.all_players.four && !lost.four));
        }
        game.status = GameStatus::GameOver { winners };
    }
    performed
}

/// Runs the checks made before a player receives priority: state-based
/// actions are performed until a check performs none. Returns whether
/// anything happened.
pub fn on_will_receive_priority(game: &mut GameState) -> (anything_happened: bool)
    requires
        old(game).wf(),
    ensures
        final(game).wf(),
        after_state_based_actions(old(game), final(game)),
        anything_happened == any_acts(
            old(game).cards@,
            old(game).players@,
            pending_events(old(game).state_based_events),
        ),
{
    let first = state_based_actions(game);
    let mut again = first;
    while again
        invariant
            game.wf(),
            game.state_based_events is None,
            after_state_based_actions(old(game), game),
        decreases (if again {
            1nat
        } else {
            0nat
        }),
    {
        again = state_based_actions(game);
    }
    first
}

/// A player who draws from an empty library loses at the next check of
/// state-based actions, and the game is over.
pub proof fn law_empty_library_draw_loses(old: &GameState, mid: &GameState, new: &GameState, player: PlayerName)
    requires
        crate::move_card::drew_one(old, mid, player),
        old.libraries@[player_index(player) as int]@.len() == 0,
        after_state_based_actions(mid, new),
    ensures
        new.status matches GameStatus::GameOver { winners } && !winners.has(player),
{
    let events = pending_events(mid.state_based_events);
    let j = events.len() - 1;
    assert(loses_by(mid.players@, events[j], player));
    assert(loses(mid.players@, events, player));
    let lost = lost_set(mid.players@, events);
    assert(lost.has(player));
}

/// A player dealt at least as much damage as their life total loses at the
/// next check of state-based actions, and the game is over.
pub proof fn law_lethal_damage_to_player_loses(
    old: &GameState,
    mid: &GameState,
    new: &GameState,
    player: PlayerName,
    damage: u64,
)
    requires
        old.wf(),
        damage <= i64::MAX,
        i64::MIN <= old.spec_player(player).life - damage <= 0,
        crate::players::player_damaged(old, mid, player, damage),
        after_state_based_actions(mid, new),
    ensures
        new.status matches GameStatus::GameOver { winners } && !winners.has(player),
{
    let events = pending_events(mid.state_based_events);
    let j = events.len() - 1;
    assert(damage as i64 == damage);
    assert(mid.players@[player_index(player) as int].life <= 0);
    assert(loses_by(mid.players@, events[j], player));
    assert(loses(mid.players@, events, player));
    let lost = lost_set(mid.players@, events);
    assert(lost.has(player));
}

/// A creature on the battlefield dealt damage that brings its marked damage
/// to at least its toughness goes to the graveyard at the next check of
/// state-based actions.
pub proof fn law_lethal_damage_destroys_creature(
    old: &GameState,
    mid: &GameState,
    new: &GameState,
    id: u64,
    damage: u64,
)
    requires
        old.wf(),
        crate::permanents::is_permanent(old, id),
        old.cards@[id as int].damage + damage <= i64::MAX,
        old.cards@[id as int].damage + damage >= spec_toughness(old.cards@[id as int]),
        crate::permanents::permanent_damaged(old, mid, id, damage),
        after_state_based_actions(mid, new),
    ensures
        new.cards@[id as int].zone == Zone::Graveyard,
{
    let events = pending_events(mid.state_based_events);
    let j = events.len() - 1;
    let card = mid.cards@[id as int];
    assert(card.damage == old.cards@[id as int].damage + damage);
    assert(card.damage as i64 == card.damage);
    assert(spec_toughness(card) == spec_toughness(old.cards@[id as int]));
    assert(destroy_target(events[j]) == Some(id) && destroys(card, events[j]));
    assert(destroyed(mid.cards@, events, id));
    assert(new.cards@[id as int] == cards_after(mid.cards@, events, mid.turn)[id as int]);
}

/// A check of state-based actions right after another one changes nothing:
/// the first leaves no event waiting.
pub proof fn law_second_check_changes_nothing(g0: &GameState, g1: &GameState, g2: &GameState)
    requires
        after_state_based_actions(g0, g1),
        after_state_based_actions(g1, g2),
    ensures
        g2.cards@ == g1.cards@,
        libraries_view(g2.libraries@) == libraries_view(g1.libraries@),
        g2.stack@ == g1.stack@,
        g2.status == g1.status,
        g2.players == g1.players,
        g2.state_based_events == g1.state_based_events,
{
    let events = pending_events(g1.state_based_events);
    assert(events.len() == 0);
    assert(destroyed_set(g1.cards@, events) =~= Set::<u64>::empty());
    assert(cards_after(g1.cards@, events, g1.turn) =~= g1.cards@);
    let l1 = libraries_view(g1.libraries@);
    assert forall|p: int| 0 <= p < l1.len() implies #[trigger] libraries_without(l1, Set::empty())[p] == l1[p] by {
        lemma_drop_nothing(l1[p]);
    }
    assert(libraries_without(l1, Set::empty()) =~= l1);
    lemma_drop_nothing(g1.stack@);
    assert(lost_set(g1.players@, events).count() == 0);
}

} // verus!
