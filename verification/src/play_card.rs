//! Playing a card from hand: choosing how it can be played, checking that
//! it can be paid for, and carrying out the plan. Cards here have one face,
//! no modes and no targets.
use crate::combat_actions::{tap_card, tap_cards};
use crate::game_state::{
    keeps_control, pending_events, retained_effects, CardState, GameState, PlayerState, StateBasedEvent,
};
use crate::move_card::{
    card_after_move, graveyards_after_move, libraries_after_move, libraries_view, moved, run, stack_after_move,
};
use crate::permanents::tap;
use crate::player_queries::{land_plays_remaining, spec_land_plays_remaining};
use crate::primitives::{player_index, CardTypes, GamePhaseStep, PlayerName, Zone};
use crate::priority::{pass, passed_priority};
use crate::spell_planner::{mana_payment, spec_mana_payment, ManaPaymentPlan};
use crate::steps::{nobody, players_seated};
use vstd::prelude::*;

verus! {

/// When a card may be played: as a land, at instant speed, or at sorcery
/// speed.
#[derive(Debug, Clone, Copy, PartialEq, Eq, Structural)]
pub enum PlayCardTiming {
    Land,
    Instant,
    Sorcery,
}

/// How a card is to be played.
#[derive(Debug, Clone, Copy, PartialEq, Eq, Structural)]
pub struct PlayAs {
    pub timing: PlayCardTiming,
}

/// A plan for playing a card: how it is played and which lands pay for it.
#[derive(Debug, Clone)]
pub struct PlayCardPlan {
    pub play_as: PlayAs,
    pub mana_payment: ManaPaymentPlan,
}

/// The timing of a card with `types`: instants at instant speed, lands as
/// lands, everything else at sorcery speed.
pub open spec fn spec_timing(types: CardTypes) -> PlayCardTiming {
    if types.instant {
        PlayCardTiming::Instant
    } else if types.land {
        PlayCardTiming::Land
    } else {
        PlayCardTiming::Sorcery
    }
}

/// How a card with `types` would be played.
fn can_play_as_for_types(types: &CardTypes) -> (play: PlayAs)
    ensures
        play.timing == spec_timing(*types),
{
    if types.instant {
        PlayAs { timing: PlayCardTiming::Instant }
    } else if types.land {
        PlayAs { timing: PlayCardTiming::Land }
    } else {
        PlayAs { timing: PlayCardTiming::Sorcery }
    }
}

/// `player` may act at sorcery speed: the stack is empty, it is a main
/// phase of their own turn, and they hold priority.
pub open spec fn spec_main_phase_with_stack_empty(game: &GameState, player: PlayerName) -> bool {
    &&& game.stack@.len() == 0
    &&& game.step.spec_is_main_phase()
    &&& game.turn.active_player == player
    &&& game.priority == player
}

/// Whether `player` may act at sorcery speed.
fn in_main_phase_with_stack_empty(game: &GameState, player: PlayerName) -> (b: bool)
    ensures
        b == spec_main_phase_with_stack_empty(game, player),
{
    game.stack.len() == 0 && game.step.is_main_phase() && game.turn.active_player == player
        && game.priority == player
}

/// Whether `card` may now be played as its timing says, by its controller: a
/// land at sorcery speed with a land play left, an instant with priority,
/// anything else at sorcery speed.
pub open spec fn spec_can_play_as(game: &GameState, card: CardState) -> bool {
    let player = card.controller;
    match spec_timing(card.card_types) {
        PlayCardTiming::Land => spec_main_phase_with_stack_empty(game, player)
            && spec_land_plays_remaining(game, player) > 0,
        PlayCardTiming::Instant => game.priority == player,
        PlayCardTiming::Sorcery => spec_main_phase_with_stack_empty(game, player),
    }
}

/// How `card` may be played now, if it may.
fn can_play_as(game: &GameState, card: &CardState) -> (play: Option<PlayAs>)
    requires
        game.wf(),
    ensures
        play is Some <==> spec_can_play_as(game, *card),
        play matches Some(p) ==> p.timing == spec_timing(card.card_types),
{
    let player = card.controller;
    let result = can_play_as_for_types(&card.card_types);
    match result.timing {
        PlayCardTiming::Land => {
            if in_main_phase_with_stack_empty(game, player) && land_plays_remaining(game, player)
                > 0 {
                return Some(result);
            }
        },
        PlayCardTiming::Instant => {
            if game.priority == player {
                return Some(result);
            }
        },
        PlayCardTiming::Sorcery => {
            if in_main_phase_with_stack_empty(game, player) {
                return Some(result);
            }
        },
    }
    None
}

/// The ways card `card_id` may be played now: none when there is no such
/// card or it may not be played, else one way, by its timing, with no lands
/// to tap yet.
pub fn play_as(game: &GameState, _player: PlayerName, card_id: u64) -> (plans: Vec<PlayCardPlan>)
    requires
        game.wf(),
    ensures
        plans@.len() == (if card_id < game.cards@.len() && spec_can_play_as(
            game,
            game.cards@[card_id as int],
        ) {
            1int
        } else {
            0int
        }),
        plans@.len() == 1 ==> plans@[0].play_as.timing == spec_timing(
            game.cards@[card_id as int].card_types,
        ) && plans@[0].mana_payment.basic_land_abilities_to_activate@.len() == 0,
{
    let mut plans: Vec<PlayCardPlan> = Vec::new();
    let card = match game.card(card_id) {
        Some(c) => c,
        None => {
            return plans;
        },
    };
    if let Some(play) = can_play_as(game, card) {
        plans.push(
            PlayCardPlan {
                play_as: play,
                mana_payment: ManaPaymentPlan { basic_land_abilities_to_activate: Vec::new() },
            },
        );
    }
    plans
}

/// Whether `player` may play card `card_id` now: it is in their hand under
/// their control, it may be played now, and a land needs no mana while any
/// other card's mana cost can be paid.
pub open spec fn spec_can_play_card(game: &GameState, player: PlayerName, card_id: u64) -> bool {
    &&& card_id < game.cards@.len()
    &&& game.cards@[card_id as int].controller == player
    &&& game.cards@[card_id as int].zone == Zone::Hand
    &&& spec_can_play_as(game, game.cards@[card_id as int])
    &&& (spec_timing(game.cards@[card_id as int].card_types) == PlayCardTiming::Land
        || spec_mana_payment(game, card_id) is Some)
}

/// Whether a card may be played with `plan`: lands always may, other cards
/// when their mana cost can be paid.
fn can_play_card_as(game: &GameState, card_id: u64, plan: &PlayCardPlan) -> (b: bool)
    requires
        game.wf(),
    ensures
        b == (plan.play_as.timing == PlayCardTiming::Land || spec_mana_payment(game, card_id) is Some),
{
    match plan.play_as.timing {
        PlayCardTiming::Land => true,
        _ => can_pay_mana_costs(game, card_id),
    }
}

/// Whether the mana cost of card `card_id` can be paid.
fn can_pay_mana_costs(game: &GameState, card_id: u64) -> (b: bool)
    requires
        game.wf(),
    ensures
        b == spec_mana_payment(game, card_id) is Some,
{
    mana_payment(game, card_id).is_some()
}

/// Whether `player` may play card `card_id` now.
pub fn can_play_card(game: &GameState, player: PlayerName, card_id: u64) -> (b: bool)
    requires
        game.wf(),
    ensures
        b == spec_can_play_card(game, player, card_id),
{
    let card = match game.card(card_id) {
        Some(c) => c,
        None => {
            return false;
        },
    };
    if card.controller != player || card.zone != Zone::Hand {
        return false;
    }
    let plans = play_as(game, player, card_id);
    let mut i: usize = 0;
    while i < plans.len()
        invariant
            game.wf(),
            i <= plans@.len(),
            plans@.len() == (if spec_can_play_as(game, game.cards@[card_id as int]) {
                1int
            } else {
                0int
            }),
            plans@.len() == 1 ==> plans@[0].play_as.timing == spec_timing(
                game.cards@[card_id as int].card_types,
            ),
            i > 0 ==> !(spec_timing(game.cards@[card_id as int].card_types) == PlayCardTiming::Land
                || spec_mana_payment(game, card_id) is Some),
            card_id < game.cards@.len(),
            game.cards@[card_id as int].controller == player,
            game.cards@[card_id as int].zone == Zone::Hand,
        decreases plans@.len() - i,
    {
        if can_play_card_as(game, card_id, &plans[i]) {
            return true;
        }
        i = i + 1;
    }
    false
}

/// The players after `player` plays a land.
pub open spec fn land_counted(players: Seq<PlayerState>, player: PlayerName) -> Seq<PlayerState> {
    let i = player_index(player) as int;
    players.update(i, PlayerState { lands_played: (players[i].lands_played + 1) as u64, ..players[i] })
}

/// The game after `player` taps `lands` and plays card `id` as a land: it
/// is turned face up and enters the battlefield, and the land play is
/// counted.
pub open spec fn land_played(old: &GameState, new: &GameState, player: PlayerName, id: u64, lands: Seq<u64>) -> bool {
    let tapped = tap_cards(old.cards@, lands);
    let card = tapped[id as int];
    &&& new.cards@ == tapped.update(
        id as int,
        card_after_move(crate::permanents::turned_face_up(card), Zone::Battlefield, old.turn),
    )
    &&& libraries_view(new.libraries@) == libraries_after_move(
        libraries_view(old.libraries@),
        id,
        card.owner,
        Zone::Battlefield,
    )
    &&& libraries_view(new.graveyards@) == graveyards_after_move(
        libraries_view(old.graveyards@),
        id,
        card.owner,
        Zone::Battlefield,
    )
    &&& new.stack@ == stack_after_move(old.stack@, id, Zone::Battlefield)
    &&& new.players@ == land_counted(old.players@, player)
    &&& new.state_based_events == old.state_based_events
    &&& new.status == old.status
    &&& new.step == old.step
    &&& new.turn == old.turn
    &&& new.priority == old.priority
    &&& new.passed == old.passed
    &&& new.all_players == old.all_players
    &&& new.combat == old.combat
    &&& new.history == old.history
    &&& new.agent_search == old.agent_search
    &&& new.control_changing_effects@ == (if keeps_control(card.zone, Zone::Battlefield) {
        old.control_changing_effects@
    } else {
        retained_effects(old.control_changing_effects@, id, None)
    })
    &&& new.this_turn == old.this_turn
}

/// The game after `lands` are tapped and card `id` is cast: it moves to the
/// top of the stack and nobody has passed since.
pub open spec fn spell_cast(old: &GameState, cast: &GameState, id: u64, lands: Seq<u64>) -> bool {
    let tapped = tap_cards(old.cards@, lands);
    let card = tapped[id as int];
    &&& cast.cards@ == tapped.update(id as int, card_after_move(card, Zone::Stack, old.turn))
    &&& libraries_view(cast.libraries@) == libraries_after_move(
        libraries_view(old.libraries@),
        id,
        card.owner,
        Zone::Stack,
    )
    &&& libraries_view(cast.graveyards@) == graveyards_after_move(
        libraries_view(old.graveyards@),
        id,
        card.owner,
        Zone::Stack,
    )
    &&& cast.stack@ == stack_after_move(old.stack@, id, Zone::Stack)
    &&& (if card.is_token {
        pending_events(cast.state_based_events) == pending_events(old.state_based_events).push(
            StateBasedEvent::TokenLeftBattlefield(id),
        )
    } else {
        cast.state_based_events == old.state_based_events
    })
    &&& cast.passed == nobody()
    &&& cast.status == old.status
    &&& cast.step == old.step
    &&& cast.turn == old.turn
    &&& cast.priority == old.priority
    &&& cast.all_players == old.all_players
    &&& cast.players == old.players
    &&& cast.combat == old.combat
    &&& cast.history == old.history
    &&& cast.agent_search == old.agent_search
    &&& cast.control_changing_effects@ == retained_effects(old.control_changing_effects@, id, None)
    &&& cast.this_turn == old.this_turn
}

/// The game after `player` carries out a plan to play card `id` with
/// `timing`, tapping `lands`: a land enters the battlefield; a spell is cast
/// and, unless `player` holds priority, they pass it.
pub open spec fn plan_executed(
    old: &GameState,
    new: &GameState,
    player: PlayerName,
    id: u64,
    timing: PlayCardTiming,
    lands: Seq<u64>,
) -> bool {
    if timing == PlayCardTiming::Land {
        land_played(old, new, player, id, lands)
    } else {
        exists|cast: GameState|
            #[trigger] spell_cast(old, &cast, id, lands) && (if old.spec_player(
                player,
            ).options.hold_priority {
                *new == cast
            } else {
                passed_priority(&cast, new, player)
            })
    }
}

/// What carrying out a plan needs: the card exists, the counted land plays
/// fit, and a spell's caster holds priority.
pub open spec fn can_execute_plan(game: &GameState, player: PlayerName, id: u64, timing: PlayCardTiming) -> bool {
    &&& id < game.cards@.len()
    &&& timing == PlayCardTiming::Land ==> game.spec_player(player).lands_played < u64::MAX
    &&& timing != PlayCardTiming::Land ==> game.priority == player
}

/// Taps each land of `lands` in turn.
fn tap_lands(game: &mut GameState, lands: &Vec<u64>)
    requires
        old(game).wf(),
    ensures
        final(game).wf(),
        final(game).cards@ == tap_cards(old(game).cards@, lands@),
        crate::permanents::same_but_cards(old(game), final(game)),
{
    let mut i: usize = 0;
    while i < lands.len()
        invariant
            game.wf(),
            i <= lands@.len(),
            game.cards@ == tap_cards(old(game).cards@, lands@.take(i as int)),
            crate::permanents::same_but_cards(old(game), game),
        decreases lands@.len() - i,
    {
        let ghost before = game.cards@;
        tap(game, lands[i]);
        proof {
            assert(lands@.take(i + 1).drop_last() =~= lands@.take(i as int));
            assert(game.cards@ =~= tap_card(before, lands@[i as int]));
        }
        i = i + 1;
    }
    proof {
        assert(lands@.take(i as int) =~= lands@);
    }
}

/// Tapping lands keeps every card's owner, token status and identity.
proof fn lemma_tap_cards_keeps(cards: Seq<CardState>, lands: Seq<u64>, id: int)
    requires
        0 <= id < cards.len(),
    ensures
        tap_cards(cards, lands).len() == cards.len(),
        tap_cards(cards, lands)[id].owner == cards[id].owner,
        tap_cards(cards, lands)[id].is_token == cards[id].is_token,
        tap_cards(cards, lands)[id].id == cards[id].id,
        tap_cards(cards, lands)[id].zone == cards[id].zone,
    decreases lands.len(),
{
    if lands.len() > 0 {
        lemma_tap_cards_keeps(cards, lands.drop_last(), id);
    }
}

/// Carries out `plan` for `player` playing card `card_id`: taps the lands
/// that pay for it, then plays it as a land or casts it.
pub fn execute_plan(game: &mut GameState, player: PlayerName, card_id: u64, plan: PlayCardPlan)
    requires
        old(game).wf(),
        players_seated(old(game)),
        can_execute_plan(old(game), player, card_id, plan.play_as.timing),
    ensures
        final(game).wf(),
        players_seated(final(game)),
        plan_executed(
            old(game),
            final(game),
            player,
            card_id,
            plan.play_as.timing,
            plan.mana_payment.basic_land_abilities_to_activate@,
        ),
{
    let lands = plan.mana_payment.basic_land_abilities_to_activate;
    tap_lands(game, &lands);
    proof {
        lemma_tap_cards_keeps(old(game).cards@, lands@, card_id as int);
        assert(game.cards@[card_id as int].id == card_id);
    }
    if plan.play_as.timing == PlayCardTiming::Land {
        let i = player.index();
        let mut state = PlayerState {
            life: 0,
            lands_played: 0,
            options: crate::game_state::PlayerOptions {
                hold_priority: false,
                auto_pass: false,
                active_turn_stops: Vec::new(),
                inactive_turn_stops: Vec::new(),
            },
            player_type: crate::game_state::PlayerType::Nobody,
            deck_name: None,
        };
        game.players.set_and_swap(i, &mut state);
        state.lands_played = state.lands_played + 1;
        game.players.set(i, state);
        let ghost counted = *game;
        crate::permanents::turn_face_up(game, card_id);
        let ghost up = *game;
        run(game, card_id, Zone::Battlefield);
        proof {
            assert(game.players@ =~= land_counted(old(game).players@, player));
            assert(up.cards@[card_id as int] == crate::permanents::turned_face_up(
                tap_cards(old(game).cards@, lands@)[card_id as int],
            ));
            assert(game.cards@ =~= tap_cards(old(game).cards@, lands@).update(
                card_id as int,
                card_after_move(
                    crate::permanents::turned_face_up(tap_cards(old(game).cards@, lands@)[card_id as int]),
                    Zone::Battlefield,
                    old(game).turn,
                ),
            ));
        }
    } else {
        let hold = game.player(player).options.hold_priority;
        run(game, card_id, Zone::Stack);
        game.passed.clear();
        proof {
            assert(game.passed == nobody()) by {
                assert(!game.passed.has(PlayerName::One));
                assert(!game.passed.has(PlayerName::Two));
                assert(!game.passed.has(PlayerName::Three));
                assert(!game.passed.has(PlayerName::Four));
            }
            assert(game.cards@ =~= tap_cards(old(game).cards@, lands@).update(
                card_id as int,
                card_after_move(tap_cards(old(game).cards@, lands@)[card_id as int], Zone::Stack, old(game).turn),
            ));
            assert(spell_cast(old(game), game, card_id, lands@));
        }
        let ghost cast = *game;
        if !hold {
            pass(game, player);
        }
        proof {
            assert(spell_cast(old(game), &cast, card_id, lands@));
        }
    }
}

/// `player` plays card `card_id`: the one way it can be played is chosen,
/// its mana cost is planned, and the plan is carried out.
pub fn execute(game: &mut GameState, player: PlayerName, card_id: u64)
    requires
        old(game).wf(),
        players_seated(old(game)),
        card_id < old(game).cards@.len(),
        spec_can_play_as(old(game), old(game).cards@[card_id as int]),
        spec_mana_payment(old(game), card_id) is Some,
        spec_timing(old(game).cards@[card_id as int].card_types) == PlayCardTiming::Land ==> old(
            game,
        ).spec_player(player).lands_played < u64::MAX,
        spec_timing(old(game).cards@[card_id as int].card_types) != PlayCardTiming::Land ==> old(
            game,
        ).priority == player,
    ensures
        final(game).wf(),
        players_seated(final(game)),
        plan_executed(
            old(game),
            final(game),
            player,
            card_id,
            spec_timing(old(game).cards@[card_id as int].card_types),
            spec_mana_payment(old(game), card_id).unwrap(),
        ),
{
    let mut plans = play_as(game, player, card_id);
    let mut plan = plans.remove(0);
    let payment = mana_payment(game, card_id);
    match payment {
        Some(p) => {
            plan.mana_payment = p;
        },
        None => {},
    }
    execute_plan(game, player, card_id, plan);
}

/// An instant in its controller's hand may be played whenever that player
/// holds priority and its mana cost can be paid, whatever the step, whose
/// turn it is, or what is on the stack; any other card may be played only
/// by the active player, holding priority, in a main phase with an empty
/// stack.
pub proof fn law_instants_need_only_priority(game: &GameState, player: PlayerName, card_id: u64)
    ensures
        ({
            let card = game.cards@[card_id as int];
            card_id < game.cards@.len() && card.controller == player && card.zone == Zone::Hand
                && card.card_types.instant && game.priority == player && spec_mana_payment(game, card_id) is Some
                ==> spec_can_play_card(game, player, card_id)
        }),
        spec_can_play_card(game, player, card_id) && !game.cards@[card_id as int].card_types.instant ==> {
            &&& game.priority == player
            &&& game.turn.active_player == player
            &&& game.stack@.len() == 0
            &&& (game.step == GamePhaseStep::PreCombatMain || game.step == GamePhaseStep::PostCombatMain)
        },
{
}

} // verus!
