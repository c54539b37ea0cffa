//! The steps of a turn: moving from one step to the next and the
//! turn-based actions each step begins with.
use crate::card_queries::{power, spec_power};
use crate::change_controller::{after_removals, remove_control, removal_step, same_but_control};
use crate::game_state::{
    pending_events, AttackTarget, AttackerMap, BlockerMap, CardState, CombatState, GameState,
    PlayerState, ProposedAttackers, ProposedBlockers, StateBasedEvent,
};
use crate::id_collections::{entry_keys, map_value, IdMap, IdSet};
use crate::move_card::drew_one;
use crate::permanents::is_permanent;
use crate::player_queries::{next_player, next_player_after, seat_supported, spec_next_player_after};
use crate::primitives::{
    player_at, player_index, spec_following_step, GamePhaseStep, PlayerName, PlayerSet, TurnData,
    Zone,
};
use crate::state_based_actions::{after_state_based_actions, any_acts, on_will_receive_priority};
use vstd::prelude::*;

verus! {

/// The active player and the player with priority have seats at a table of
/// two to four players.
pub open spec fn players_seated(game: &GameState) -> bool {
    &&& seat_supported(game.all_players.count(), game.turn.active_player)
    &&& seat_supported(game.all_players.count(), game.priority)
}

/// The set with no player.
pub open spec fn nobody() -> PlayerSet {
    PlayerSet { one: false, two: false, three: false, four: false }
}

/// The game as `step` begins: the active player receives priority and
/// nobody has passed.
pub open spec fn began(game: GameState, step: GamePhaseStep) -> GameState {
    GameState { step, priority: game.turn.active_player, passed: nobody(), ..game }
}

/// Begins `step`.
fn begin_step(game: &mut GameState, step: GamePhaseStep)
    ensures
        *final(game) == began(*old(game), step),
{
    game.step = step;
    game.priority = game.turn.active_player;
    game.passed.clear();
    proof {
        assert(game.passed == nobody()) by {
            assert(!game.passed.has(PlayerName::One));
            assert(!game.passed.has(PlayerName::Two));
            assert(!game.passed.has(PlayerName::Three));
            assert(!game.passed.has(PlayerName::Four));
        }
    }
}

/// Begins the upkeep step.
fn upkeep(game: &mut GameState)
    ensures
        *final(game) == began(*old(game), GamePhaseStep::Upkeep),
{
    begin_step(game, GamePhaseStep::Upkeep);
}

/// Begins the draw step: the active player draws a card.
fn draw(game: &mut GameState)
    requires
        old(game).wf(),
    ensures
        final(game).wf(),
        drew_one(&began(*old(game), GamePhaseStep::Draw), final(game), old(game).turn.active_player),
{
    begin_step(game, GamePhaseStep::Draw);
    let player = game.turn.active_player;
    crate::move_card::draw(game, player);
}

/// Begins the first main phase.
fn pre_combat_main(game: &mut GameState)
    ensures
        *final(game) == began(*old(game), GamePhaseStep::PreCombatMain),
{
    begin_step(game, GamePhaseStep::PreCombatMain);
}

/// Begins the beginning of combat step.
fn begin_combat(game: &mut GameState)
    ensures
        *final(game) == began(*old(game), GamePhaseStep::BeginCombat),
{
    begin_step(game, GamePhaseStep::BeginCombat);
}

/// Begins the first strike damage step.
fn first_strike_damage(game: &mut GameState)
    ensures
        *final(game) == began(*old(game), GamePhaseStep::FirstStrikeDamage),
{
    begin_step(game, GamePhaseStep::FirstStrikeDamage);
}

/// Begins the end of combat step.
fn end_combat(game: &mut GameState)
    ensures
        *final(game) == began(*old(game), GamePhaseStep::EndCombat),
{
    begin_step(game, GamePhaseStep::EndCombat);
}

/// Begins the second main phase; combat is over.
fn post_combat_main(game: &mut GameState)
    ensures
        *final(game) == (GameState { combat: None, ..began(*old(game), GamePhaseStep::PostCombatMain) }),
{
    begin_step(game, GamePhaseStep::PostCombatMain);
    game.combat = None;
}

/// Begins the end step.
fn end_step(game: &mut GameState)
    ensures
        *final(game) == began(*old(game), GamePhaseStep::EndStep),
{
    begin_step(game, GamePhaseStep::EndStep);
}

/// The turn after the current one: the next player in turn order becomes
/// active, and the turn number goes up when play comes back to the first
/// seat.
pub open spec fn next_turn(game: &GameState) -> TurnData {
    let next = spec_next_player_after(game.all_players.count(), game.turn.active_player);
    TurnData {
        active_player: next,
        turn_number: if next == PlayerName::One {
            (game.turn.turn_number + 1) as u64
        } else {
            game.turn.turn_number
        },
    }
}

/// The turn number can go up if the next turn needs it to.
pub open spec fn turn_can_advance(game: &GameState) -> bool {
    spec_next_player_after(game.all_players.count(), game.turn.active_player) == PlayerName::One
        ==> game.turn.turn_number < u64::MAX
}

/// `cards` after `player` untaps every permanent they control.
pub open spec fn untapped_for(cards: Seq<CardState>, player: PlayerName) -> Seq<CardState> {
    Seq::new(
        cards.len(),
        |i: int|
            if cards[i].zone == Zone::Battlefield && cards[i].controller == player {
                CardState { tapped: false, ..cards[i] }
            } else {
                cards[i]
            },
    )
}

/// The game after a new turn's untap step, which gives no priority and so
/// moves on to the upkeep step.
pub open spec fn turned(old: &GameState, new: &GameState) -> bool {
    let turn = next_turn(old);
    &&& new.cards@ == untapped_for(old.cards@, turn.active_player)
    &&& new.step == GamePhaseStep::Upkeep
    &&& new.turn == turn
    &&& new.priority == turn.active_player
    &&& new.passed == nobody()
    &&& new.status == old.status
    &&& new.all_players == old.all_players
    &&& new.players == old.players
    &&& new.libraries == old.libraries
    &&& new.graveyards == old.graveyards
    &&& new.stack == old.stack
    &&& new.combat == old.combat
    &&& new.history == old.history
    &&& new.state_based_events == old.state_based_events
    &&& new.agent_search == old.agent_search
    &&& new.control_changing_effects == old.control_changing_effects
    &&& new.this_turn == old.this_turn
}

/// Begins a new turn: the next player becomes active and untaps their
/// permanents, then the upkeep step begins.
fn untap(game: &mut GameState)
    requires
        old(game).wf(),
        players_seated(old(game)),
        turn_can_advance(old(game)),
    ensures
        final(game).wf(),
        players_seated(final(game)),
        turned(old(game), final(game)),
{
    begin_step(game, GamePhaseStep::Untap);
    let next = next_player_after(game, game.turn.active_player);
    if next == PlayerName::One {
        game.turn.turn_number = game.turn.turn_number + 1;
    }
    game.turn.active_player = next;
    proof {
        crate::player_queries::law_turn_order_cycles(old(game).all_players.count(), old(game).turn.active_player);
        reveal_with_fuel(crate::player_queries::nth_player_after, 2);
        assert(crate::player_queries::nth_player_after(old(game).all_players.count(), old(game).turn.active_player, 1) == next);
    }
    let ghost start = game.cards@;
    let ghost mid = *game;
    let mut i: usize = 0;
    while i < game.cards.len()
        invariant
            game.wf(),
            i <= game.cards@.len(),
            game.cards@.len() == start.len(),
            forall|j: int|
                0 <= j < start.len() ==> #[trigger] game.cards@[j] == if j < i {
                    untapped_for(start, next)[j]
                } else {
                    start[j]
                },
            crate::permanents::same_but_cards(&mid, game),
        decreases start.len() - i,
    {
        if game.cards[i].zone == Zone::Battlefield && game.cards[i].controller == next {
            crate::permanents::untap(game, i as u64);
        }
        i = i + 1;
    }
    proof {
        assert(game.cards@ =~= untapped_for(start, next));
    }
    begin_step(game, GamePhaseStep::Upkeep);
}

/// The attackers that were confirmed, when combat is at that stage.
pub open spec fn confirmed_attackers_of(game: &GameState) -> AttackerMap {
    match &game.combat {
        Some(CombatState::ConfirmedAttackers(a)) => *a,
        _ => arbitrary(),
    }
}

/// The blocks that were confirmed, when combat is at that stage.
pub open spec fn confirmed_blocks_of(game: &GameState) -> &BlockerMap {
    match &game.combat {
        Some(CombatState::ConfirmedBlockers(m)) => m,
        _ => arbitrary(),
    }
}

/// Everything but the step, priority, passes and combat is unchanged.
pub open spec fn same_outside_combat(a: &GameState, b: &GameState) -> bool {
    &&& a.status == b.status
    &&& a.turn == b.turn
    &&& a.all_players == b.all_players
    &&& a.players == b.players
    &&& a.cards == b.cards
    &&& a.libraries == b.libraries
    &&& a.graveyards == b.graveyards
    &&& a.stack == b.stack
    &&& a.history == b.history
    &&& a.state_based_events == b.state_based_events
    &&& a.agent_search == b.agent_search
    &&& a.control_changing_effects == b.control_changing_effects
    &&& a.this_turn == b.this_turn
}

/// The declare attackers step has begun with no attacker proposed.
pub open spec fn attackers_step_begun(old: &GameState, new: &GameState) -> bool {
    &&& same_outside_combat(old, new)
    &&& new.step == GamePhaseStep::DeclareAttackers
    &&& new.priority == old.turn.active_player
    &&& new.passed == nobody()
    &&& new.combat matches Some(CombatState::ProposingAttackers(a)) && a.proposed_attacks@.len() == 0
        && a.selected_attackers@.len() == 0
}

/// The declare blockers step has begun: the next player in turn order
/// declares blockers against the confirmed attackers.
pub open spec fn blockers_step_begun(old: &GameState, new: &GameState) -> bool {
    &&& same_outside_combat(old, new)
    &&& new.step == GamePhaseStep::DeclareBlockers
    &&& new.priority == old.turn.active_player
    &&& new.passed == nobody()
    &&& new.combat matches Some(CombatState::ProposingBlockers(b)) && b.defender
        == spec_next_player_after(old.all_players.count(), old.turn.active_player) && b.attackers
        == confirmed_attackers_of(old) && b.selected_blockers@.len() == 0 && b.proposed_blocks@.len()
        == 0
}

/// Starts the declare attackers step: the active player may now propose
/// attackers.
fn declare_attackers(game: &mut GameState)
    requires
        old(game).wf(),
    ensures
        final(game).wf(),
        attackers_step_begun(old(game), final(game)),
{
    begin_step(game, GamePhaseStep::DeclareAttackers);
    game.combat = Some(
        CombatState::ProposingAttackers(
            ProposedAttackers { proposed_attacks: IdMap::new(), selected_attackers: IdSet::new() },
        ),
    );
}

/// Starts the declare blockers step: the next player in turn order may now
/// propose blockers against the confirmed attackers.
fn declare_blockers(game: &mut GameState)
    requires
        old(game).wf(),
        players_seated(old(game)),
        old(game).combat matches Some(CombatState::ConfirmedAttackers(_)),
    ensures
        final(game).wf(),
        blockers_step_begun(old(game), final(game)),
{
    begin_step(game, GamePhaseStep::DeclareBlockers);
    let next = next_player(game);
    let combat = game.combat.take();
    if let Some(CombatState::ConfirmedAttackers(attackers)) = combat {
        game.combat = Some(
            CombatState::ProposingBlockers(
                ProposedBlockers {
                    defender: next,
                    attackers,
                    selected_blockers: IdSet::new(),
                    proposed_blocks: IdMap::new(),
                },
            ),
        );
    }
}

/// The damage a creature with `power` assigns: its power, or none when its
/// power is 0 or less.
pub open spec fn spec_power_to_damage(power: i64) -> u64 {
    if power <= 0 {
        0
    } else {
        power as u64
    }
}

/// The damage a creature with `power` assigns.
pub fn power_to_damage(power: i64) -> (damage: u64)
    ensures
        damage == spec_power_to_damage(power),
        damage <= i64::MAX,
{
    if power <= 0 {
        0
    } else {
        power as u64
    }
}

/// Combat damage about to be dealt, and to what.
#[derive(Debug, Clone, Copy, PartialEq, Eq, Structural)]
pub enum CombatDamageAssignment {
    Player(PlayerName, u64),
    Planeswalker(PlayerName, u64),
    Battle(PlayerName, u64),
    Creature(u64, u64),
}

/// Blocks can be turned into damage: a blocked attacker has a first blocker,
/// and an unblocked attacker attacks a player.
pub open spec fn damage_ready(m: &BlockerMap) -> bool {
    forall|i: int|
        0 <= i < m.attackers@.len() ==> {
            let attacker = #[trigger] m.attackers@[i];
            if m.blocked_attackers.has(attacker.0) {
                m.blocked_attackers.value(attacker.0)@.len() > 0
            } else {
                attacker.1 is Player
            }
        }
}

/// The damage an attacker assigns: all of it to its first blocker when
/// blocked, else to the player it attacks; none when it is no card.
pub open spec fn attacker_assignment(
    cards: Seq<CardState>,
    blocked: Seq<(u64, Vec<u64>)>,
    entry: (u64, AttackTarget),
) -> Option<CombatDamageAssignment> {
    if entry.0 >= cards.len() {
        None
    } else {
        let damage = spec_power_to_damage(spec_power(cards[entry.0 as int]));
        if entry_keys(blocked).contains(entry.0) {
            Some(CombatDamageAssignment::Creature(map_value(blocked, entry.0)@[0], damage))
        } else {
            match entry.1 {
                AttackTarget::Player(p) => Some(CombatDamageAssignment::Player(p, damage)),
                _ => None,
            }
        }
    }
}

/// The damage a blocker assigns: all of it to the attacker it blocks; none
/// when it is no card.
pub open spec fn blocker_assignment(cards: Seq<CardState>, entry: (u64, Vec<u64>)) -> Option<
    CombatDamageAssignment,
> {
    if entry.0 >= cards.len() {
        None
    } else {
        Some(
            CombatDamageAssignment::Creature(
                entry.1@[0],
                spec_power_to_damage(spec_power(cards[entry.0 as int])),
            ),
        )
    }
}

/// The assignment as a sequence of at most one element.
pub open spec fn as_seq(a: Option<CombatDamageAssignment>) -> Seq<CombatDamageAssignment> {
    match a {
        Some(x) => seq![x],
        None => Seq::empty(),
    }
}

/// The assignments of the attackers in `entries`, in order.
pub open spec fn attacker_assignments(
    cards: Seq<CardState>,
    blocked: Seq<(u64, Vec<u64>)>,
    entries: Seq<(u64, AttackTarget)>,
) -> Seq<CombatDamageAssignment>
    decreases entries.len(),
{
    if entries.len() == 0 {
        Seq::empty()
    } else {
        attacker_assignments(cards, blocked, entries.drop_last()) + as_seq(
            attacker_assignment(cards, blocked, entries.last()),
        )
    }
}

/// The assignments of the blockers in `entries`, in order.
pub open spec fn blocker_assignments(cards: Seq<CardState>, entries: Seq<(u64, Vec<u64>)>) -> Seq<
    CombatDamageAssignment,
>
    decreases entries.len(),
{
    if entries.len() == 0 {
        Seq::empty()
    } else {
        blocker_assignments(cards, entries.drop_last()) + as_seq(
            blocker_assignment(cards, entries.last()),
        )
    }
}

/// All combat damage: first what the attackers assign, in attacker order,
/// then what the blockers assign, in blocker order.
pub open spec fn combat_assignments(cards: Seq<CardState>, m: &BlockerMap) -> Seq<CombatDamageAssignment> {
    attacker_assignments(cards, m.blocked_attackers@, m.attackers@) + blocker_assignments(
        cards,
        m.reverse_lookup@,
    )
}

/// Total damage `list` assigns to `player`.
pub open spec fn damage_to_player(list: Seq<CombatDamageAssignment>, player: PlayerName) -> int
    decreases list.len(),
{
    if list.len() == 0 {
        0
    } else {
        damage_to_player(list.drop_last(), player) + match list.last() {
            CombatDamageAssignment::Player(p, d) => if p == player {
                d as int
            } else {
                0
            },
            _ => 0,
        }
    }
}

/// Total damage `list` assigns to card `id`.
pub open spec fn damage_to_card(list: Seq<CombatDamageAssignment>, id: u64) -> int
    decreases list.len(),
{
    if list.len() == 0 {
        0
    } else {
        damage_to_card(list.drop_last(), id) + match list.last() {
            CombatDamageAssignment::Creature(c, d) => if c == id {
                d as int
            } else {
                0
            },
            _ => 0,
        }
    }
}

/// The events noted while `list` is dealt: each player loses life, and each
/// creature on the battlefield is damaged.
pub open spec fn damage_events(cards: Seq<CardState>, list: Seq<CombatDamageAssignment>) -> Seq<
    StateBasedEvent,
>
    decreases list.len(),
{
    if list.len() == 0 {
        Seq::empty()
    } else {
        damage_events(cards, list.drop_last()) + match list.last() {
            CombatDamageAssignment::Player(p, _) => seq![StateBasedEvent::LifeTotalDecrease(p)],
            CombatDamageAssignment::Creature(c, _) => if c < cards.len() && cards[c as int].zone
                == Zone::Battlefield {
                seq![StateBasedEvent::CreatureDamaged(c)]
            } else {
                Seq::empty()
            },
            _ => Seq::empty(),
        }
    }
}

/// The players after `list` is dealt.
pub open spec fn damaged_players(players: Seq<PlayerState>, list: Seq<CombatDamageAssignment>) -> Seq<
    PlayerState,
> {
    Seq::new(
        players.len(),
        |i: int|
            PlayerState {
                life: (players[i].life - damage_to_player(list, player_at(i as nat))) as i64,
                ..players[i]
            },
    )
}

/// The cards after `list` is dealt: damage is marked on permanents only.
pub open spec fn damaged_cards(cards: Seq<CardState>, list: Seq<CombatDamageAssignment>) -> Seq<
    CardState,
> {
    Seq::new(
        cards.len(),
        |i: int|
            if cards[i].zone == Zone::Battlefield {
                CardState { damage: (cards[i].damage + damage_to_card(list, i as u64)) as u64, ..cards[i] }
            } else {
                cards[i]
            },
    )
}

/// Dealing `list` fits the numbers: no life total goes below the smallest
/// `i64` and no damage above the largest `u64`.
pub open spec fn damage_fits(game: &GameState, list: Seq<CombatDamageAssignment>) -> bool {
    &&& forall|i: int|
        0 <= i < 4 ==> i64::MIN <= #[trigger] game.players@[i].life - damage_to_player(
            list,
            player_at(i as nat),
        )
    &&& forall|i: int|
        0 <= i < game.cards@.len() && game.cards@[i].zone == Zone::Battlefield ==> #[trigger] game.cards@[i].damage
            + damage_to_card(list, i as u64) <= u64::MAX
}

/// Every assignment is to a player or a creature, of at most the largest
/// `i64`.
pub open spec fn plain_assignments(list: Seq<CombatDamageAssignment>) -> bool {
    forall|k: int|
        0 <= k < list.len() ==> match #[trigger] list[k] {
            CombatDamageAssignment::Player(_, d) => d <= i64::MAX,
            CombatDamageAssignment::Creature(_, d) => d <= i64::MAX,
            _ => false,
        }
}

/// Combat damage can be dealt without a stop: blocks are ready and the
/// numbers fit.
pub open spec fn combat_damage_ready(game: &GameState) -> bool {
    &&& game.combat matches Some(CombatState::ConfirmedBlockers(m)) && damage_ready(&m)
    &&& damage_fits(game, combat_assignments(game.cards@, confirmed_blocks_of(game)))
}

/// The combat damage step after its damage is dealt.
pub open spec fn damage_dealt(old: &GameState, new: &GameState) -> bool {
    let list = combat_assignments(old.cards@, confirmed_blocks_of(old));
    &&& new.players@ == damaged_players(old.players@, list)
    &&& new.cards@ == damaged_cards(old.cards@, list)
    &&& pending_events(new.state_based_events) == pending_events(old.state_based_events) + damage_events(
        old.cards@,
        list,
    )
    &&& damage_events(old.cards@, list).len() == 0 ==> new.state_based_events == old.state_based_events
    &&& new.step == GamePhaseStep::CombatDamage
    &&& new.priority == old.turn.active_player
    &&& new.passed == nobody()
    &&& new.status == old.status
    &&& new.turn == old.turn
    &&& new.all_players == old.all_players
    &&& new.libraries == old.libraries
    &&& new.graveyards == old.graveyards
    &&& new.stack == old.stack
    &&& new.combat == old.combat
    &&& new.history == old.history
    &&& new.agent_search == old.agent_search
    &&& new.control_changing_effects == old.control_changing_effects
    &&& new.this_turn == old.this_turn
}

/// The combat damage of the confirmed blocks, in the order it is dealt.
fn damage_assignments(game: &GameState, m: &BlockerMap) -> (list: Vec<CombatDamageAssignment>)
    requires
        game.wf(),
        m.wf(),
        damage_ready(m),
    ensures
        list@ == combat_assignments(game.cards@, m),
        plain_assignments(list@),
{
    let mut list: Vec<CombatDamageAssignment> = Vec::new();
    let mut i: usize = 0;
    while i < m.attackers.entries.len()
        invariant
            game.wf(),
            m.wf(),
            damage_ready(m),
            i <= m.attackers@.len(),
            list@ == attacker_assignments(game.cards@, m.blocked_attackers@, m.attackers@.take(i as int)),
            plain_assignments(list@),
        decreases m.attackers@.len() - i,
    {
        let attacker = m.attackers.entries[i].0;
        let target = m.attackers.entries[i].1;
        let ghost before = list@;
        proof {
            assert(m.attackers@.take(i + 1).drop_last() =~= m.attackers@.take(i as int));
            assert(m.attackers@[i as int] == (attacker, target));
        }
        match m.blocked_attackers.get(attacker) {
            Some(blockers) => {
                let blocker = blockers[0];
                if let Some(p) = power(game, attacker) {
                    list.push(CombatDamageAssignment::Creature(blocker, power_to_damage(p)));
                }
            },
            None => {
                if let AttackTarget::Player(player) = target {
                    if let Some(p) = power(game, attacker) {
                        list.push(CombatDamageAssignment::Player(player, power_to_damage(p)));
                    }
                }
            },
        }
        proof {
            assert(list@ =~= before + as_seq(
                attacker_assignment(game.cards@, m.blocked_attackers@, (attacker, target)),
            ));
            assert forall|k: int| 0 <= k < list@.len() implies match #[trigger] list@[k] {
                CombatDamageAssignment::Player(_, d) => d <= i64::MAX,
                CombatDamageAssignment::Creature(_, d) => d <= i64::MAX,
                _ => false,
            } by {
                if k < before.len() {
                    assert(list@[k] == before[k]);
                }
            }
        }
        i = i + 1;
    }
    proof {
        assert(m.attackers@.take(i as int) =~= m.attackers@);
    }
    let ghost attack_part = list@;
    let mut j: usize = 0;
    while j < m.reverse_lookup.entries.len()
        invariant
            game.wf(),
            m.wf(),
            damage_ready(m),
            j <= m.reverse_lookup@.len(),
            attack_part == attacker_assignments(game.cards@, m.blocked_attackers@, m.attackers@),
            list@ == attack_part + blocker_assignments(game.cards@, m.reverse_lookup@.take(j as int)),
            plain_assignments(list@),
        decreases m.reverse_lookup@.len() - j,
    {
        let blocker = m.reverse_lookup.entries[j].0;
        let attacker = m.reverse_lookup.entries[j].1[0];
        let ghost before = list@;
        proof {
            assert(m.reverse_lookup@.take(j + 1).drop_last() =~= m.reverse_lookup@.take(j as int));
        }
        if let Some(p) = power(game, blocker) {
            list.push(CombatDamageAssignment::Creature(attacker, power_to_damage(p)));
        }
        proof {
            assert(list@ =~= attack_part + blocker_assignments(
                game.cards@,
                m.reverse_lookup@.take(j + 1),
            ));
            assert forall|k: int| 0 <= k < list@.len() implies match #[trigger] list@[k] {
                CombatDamageAssignment::Player(_, d) => d <= i64::MAX,
                CombatDamageAssignment::Creature(_, d) => d <= i64::MAX,
                _ => false,
            } by {
                if k < before.len() {
                    assert(list@[k] == before[k]);
                }
            }
        }
        j = j + 1;
    }
    proof {
        assert(m.reverse_lookup@.take(j as int) =~= m.reverse_lookup@);
    }
    list
}

/// A prefix of the assignments assigns no more to anybody than all of them.
proof fn lemma_prefix_damage(list: Seq<CombatDamageAssignment>, k: int)
    requires
        0 <= k <= list.len(),
    ensures
        forall|p: PlayerName| #[trigger] damage_to_player(list.take(k), p) <= damage_to_player(list, p),
        forall|id: u64| #[trigger] damage_to_card(list.take(k), id) <= damage_to_card(list, id),
        forall|p: PlayerName| #[trigger] damage_to_player(list.take(k), p) >= 0,
        forall|id: u64| #[trigger] damage_to_card(list.take(k), id) >= 0,
    decreases list.len() - k,
{
    if k == list.len() {
        assert(list.take(k) =~= list);
        lemma_damage_nonnegative(list);
    } else {
        lemma_prefix_damage(list.drop_last(), k);
        assert(list.drop_last().take(k) =~= list.take(k));
    }
}

/// Totals of damage are never negative.
proof fn lemma_damage_nonnegative(list: Seq<CombatDamageAssignment>)
    ensures
        forall|p: PlayerName| #[trigger] damage_to_player(list, p) >= 0,
        forall|id: u64| #[trigger] damage_to_card(list, id) >= 0,
    decreases list.len(),
{
    if list.len() > 0 {
        lemma_damage_nonnegative(list.drop_last());
        assert forall|p: PlayerName| #[trigger] damage_to_player(list, p) >= 0 by {
            assert(damage_to_player(list.drop_last(), p) >= 0);
        }
        assert forall|id: u64| #[trigger] damage_to_card(list, id) >= 0 by {
            assert(damage_to_card(list.drop_last(), id) >= 0);
        }
    }
}

/// Deals the assignments of `list` one after another.
#[verifier::rlimit(40)]
fn deal_assignments(game: &mut GameState, list: &Vec<CombatDamageAssignment>)
    requires
        old(game).wf(),
        plain_assignments(list@),
        damage_fits(old(game), list@),
    ensures
        final(game).wf(),
        final(game).players@ == damaged_players(old(game).players@, list@),
        final(game).cards@ == damaged_cards(old(game).cards@, list@),
        pending_events(final(game).state_based_events) == pending_events(
            old(game).state_based_events,
        ) + damage_events(old(game).cards@, list@),
        damage_events(old(game).cards@, list@).len() == 0 ==> final(game).state_based_events
            == old(game).state_based_events,
        final(game).status == old(game).status,
        final(game).step == old(game).step,
        final(game).turn == old(game).turn,
        final(game).priority == old(game).priority,
        final(game).passed == old(game).passed,
        final(game).all_players == old(game).all_players,
        final(game).libraries == old(game).libraries,
        final(game).graveyards == old(game).graveyards,
        final(game).stack == old(game).stack,
        final(game).combat == old(game).combat,
        final(game).history == old(game).history,
        final(game).agent_search == old(game).agent_search,
        final(game).control_changing_effects == old(game).control_changing_effects,
        final(game).this_turn == old(game).this_turn,
{
    let ghost g0 = *game;
    let mut k: usize = 0;
    proof {
        assert(list@.take(0) =~= Seq::<CombatDamageAssignment>::empty());
        assert(g0.players@ =~= damaged_players(g0.players@, list@.take(0)));
        assert(g0.cards@ =~= damaged_cards(g0.cards@, list@.take(0)));
        assert(pending_events(g0.state_based_events) =~= pending_events(g0.state_based_events)
            + damage_events(g0.cards@, list@.take(0)));
    }
    while k < list.len()
        invariant
            game.wf(),
            g0.wf(),
            k <= list@.len(),
            plain_assignments(list@),
            damage_fits(&g0, list@),
            game.players@ == damaged_players(g0.players@, list@.take(k as int)),
            game.cards@ == damaged_cards(g0.cards@, list@.take(k as int)),
            pending_events(game.state_based_events) == pending_events(g0.state_based_events)
                + damage_events(g0.cards@, list@.take(k as int)),
            damage_events(g0.cards@, list@.take(k as int)).len() == 0 ==> game.state_based_events
                == g0.state_based_events,
            game.status == g0.status,
            game.step == g0.step,
            game.turn == g0.turn,
            game.priority == g0.priority,
            game.passed == g0.passed,
            game.all_players == g0.all_players,
            game.libraries == g0.libraries,
            game.graveyards == g0.graveyards,
            game.stack == g0.stack,
            game.combat == g0.combat,
            game.history == g0.history,
            game.agent_search == g0.agent_search,
            game.control_changing_effects == g0.control_changing_effects,
            game.this_turn == g0.this_turn,
        decreases list@.len() - k,
    {
        let a = list[k];
        let ghost before = *game;
        let ghost prefix = list@.take(k as int);
        let ghost next = list@.take(k + 1);
        proof {
            assert(next.drop_last() =~= prefix);
            assert(next.last() == a);
            lemma_prefix_damage(list@, k + 1);
            lemma_prefix_damage(list@, k as int);
            assert(match list@[k as int] {
                CombatDamageAssignment::Player(_, d) => d <= i64::MAX,
                CombatDamageAssignment::Creature(_, d) => d <= i64::MAX,
                _ => false,
            });
        }
        match a {
            CombatDamageAssignment::Player(player, damage) => {
                proof {
                    let i = player_index(player) as int;
                    assert(player_at(i as nat) == player);
                    assert(i64::MIN <= g0.players@[i].life - damage_to_player(list@, player));
                    assert(damage as i64 == damage);
                    assert(damage_to_player(next, player) == damage_to_player(prefix, player) + damage);
                    assert(damage_to_player(next, player) <= damage_to_player(list@, player));
                    assert(damage_to_player(prefix, player) >= 0);
                    assert(before.players@[i] == damaged_players(g0.players@, prefix)[i]);
                    assert(before.players@[i].life == g0.players@[i].life - damage_to_player(prefix, player));
                }
                crate::players::deal_damage(game, player, damage);
                proof {
                    assert forall|i: int| 0 <= i < 4 implies #[trigger] player_index(player_at(i as nat)) == i by {}
                    assert(game.players@ =~= damaged_players(g0.players@, next));
                    assert(game.cards@ =~= damaged_cards(g0.cards@, next));
                }
            },
            CombatDamageAssignment::Creature(id, damage) => {
                proof {
                    if is_permanent(&before, id) {
                        assert(before.cards@[id as int] == damaged_cards(g0.cards@, prefix)[id as int]);
                        assert(g0.cards@[id as int].zone == Zone::Battlefield);
                        assert(g0.cards@[id as int].id == id);
                        assert(g0.cards@[id as int].damage + damage_to_card(list@, id) <= u64::MAX);
                        assert(damage_to_card(next, id) == damage_to_card(prefix, id) + damage);
                        assert(damage_to_card(next, id) <= damage_to_card(list@, id));
                        assert(damage_to_card(prefix, id) >= 0);
                        assert(before.cards@[id as int].damage == g0.cards@[id as int].damage + damage_to_card(prefix, id));
                    }
                }
                crate::permanents::deal_damage(game, id, damage);
                proof {
                    assert(game.players@ =~= damaged_players(g0.players@, next));
                    assert forall|i: int| 0 <= i < g0.cards@.len() implies #[trigger] game.cards@[i]
                        == damaged_cards(g0.cards@, next)[i] by {
                        assert(g0.cards@[i].id == i);
                        if i == id {
                            assert(i as u64 == id);
                        } else {
                            assert(i as u64 != id);
                        }
                    }
                    assert(game.cards@ =~= damaged_cards(g0.cards@, next));
                }
            },
            _ => {},
        }
        k = k + 1;
    }
    proof {
        assert(list@.take(k as int) =~= list@);
    }
}

/// Starts the combat damage step: every attacking and blocking creature
/// deals damage equal to its power.
fn combat_damage(game: &mut GameState)
    requires
        old(game).wf(),
        combat_damage_ready(old(game)),
    ensures
        final(game).wf(),
        damage_dealt(old(game), final(game)),
{
    begin_step(game, GamePhaseStep::CombatDamage);
    let list = match &game.combat {
        Some(CombatState::ConfirmedBlockers(m)) => damage_assignments(game, m),
        _ => Vec::new(),
    };
    deal_assignments(game, &list);
}

/// `cards` with the damage marked on every card removed.
pub open spec fn damage_removed(cards: Seq<CardState>) -> Seq<CardState> {
    Seq::new(cards.len(), |i: int| CardState { damage: 0, ..cards[i] })
}

/// The cleanup step as it begins, once damage is removed and the
/// control-changing effects that last this turn have ended.
pub open spec fn cleanup_begun(old: &GameState, new: &GameState) -> bool {
    let ended = after_removals(
        damage_removed(old.cards@),
        old.control_changing_effects@,
        old.this_turn.control_changing_effects@,
        old.turn,
    );
    &&& new.cards@ == ended.0
    &&& new.control_changing_effects@ == ended.1
    &&& new.this_turn.control_changing_effects@.len() == 0
    &&& new.step == GamePhaseStep::Cleanup
    &&& new.priority == old.turn.active_player
    &&& new.passed == nobody()
    &&& new.status == old.status
    &&& new.turn == old.turn
    &&& new.all_players == old.all_players
    &&& new.players == old.players
    &&& new.libraries == old.libraries
    &&& new.graveyards == old.graveyards
    &&& new.stack == old.stack
    &&& new.combat == old.combat
    &&& new.history == old.history
    &&& new.state_based_events == old.state_based_events
    &&& new.agent_search == old.agent_search
}

/// The game after the cleanup step: damage is removed, the effects that
/// last this turn end, and state-based actions are checked; when none is
/// performed, the next turn begins.
pub open spec fn cleaned_up(old: &GameState, new: &GameState) -> bool {
    exists|cleared: GameState, checked: GameState|
        #![trigger cleanup_begun(old, &cleared), after_state_based_actions(&cleared, &checked)]
        cleanup_begun(old, &cleared) && after_state_based_actions(&cleared, &checked) && (if any_acts(
            cleared.cards@,
            cleared.players@,
            pending_events(cleared.state_based_events),
        ) {
            *new == checked
        } else {
            turned(&checked, new)
        })
}

/// Starts the cleanup step: damage wears off, the effects that last this
/// turn end, and unless a state-based action is performed the turn ends.
fn cleanup(game: &mut GameState)
    requires
        old(game).wf(),
        players_seated(old(game)),
        turn_can_advance(old(game)),
    ensures
        final(game).wf(),
        players_seated(final(game)),
        cleaned_up(old(game), final(game)),
{
    begin_step(game, GamePhaseStep::Cleanup);
    let ghost start = game.cards@;
    let ghost begun = *game;
    let mut i: usize = 0;
    while i < game.cards.len()
        invariant
            game.wf(),
            i <= game.cards@.len(),
            game.cards@.len() == start.len(),
            forall|j: int|
                0 <= j < start.len() ==> #[trigger] game.cards@[j] == if j < i {
                    damage_removed(start)[j]
                } else {
                    start[j]
                },
            crate::permanents::same_but_cards(&begun, game),
        decreases start.len() - i,
    {
        let mut card = game.take_card(i);
        card.damage = 0;
        game.put_card(i, card);
        proof {
            assert(game.cards@[i as int].id == i);
        }
        i = i + 1;
    }
    proof {
        assert(game.cards@ =~= damage_removed(start));
    }
    let ghost damaged = *game;
    let ends = game.this_turn.remove_control_changing_effects();
    let mut k: usize = 0;
    proof {
        assert(ends@.take(0) =~= Seq::<(u64, u64)>::empty());
    }
    while k < ends.len()
        invariant
            game.wf(),
            k <= ends@.len(),
            ends@ == damaged.this_turn.control_changing_effects@,
            (game.cards@, game.control_changing_effects@) == after_removals(
                damaged.cards@,
                damaged.control_changing_effects@,
                ends@.take(k as int),
                damaged.turn,
            ),
            same_but_control(&damaged, game),
            game.this_turn.control_changing_effects@.len() == 0,
        decreases ends@.len() - k,
    {
        let (event_id, card_id) = ends[k];
        let ghost before = *game;
        let _ = remove_control(game, event_id, card_id);
        proof {
            assert(ends@.take(k + 1).drop_last() =~= ends@.take(k as int));
            assert((game.cards@, game.control_changing_effects@) == removal_step(
                before.cards@,
                before.control_changing_effects@,
                event_id,
                card_id,
                before.turn,
            ));
        }
        k = k + 1;
    }
    proof {
        assert(ends@.take(k as int) =~= ends@);
    }
    let ghost cleared = *game;
    let anything_happened = on_will_receive_priority(game);
    let ghost checked = *game;
    if !anything_happened {
        untap(game);
    }
    proof {
        assert(cleanup_begun(old(game), &cleared));
        assert(after_state_based_actions(&cleared, &checked));
    }
}

/// The game after the turn moves on to its next step, as `advance` does it.
pub open spec fn advanced(old: &GameState, new: &GameState) -> bool {
    let step = spec_following_step(old.step);
    match step {
        GamePhaseStep::Untap => turned(old, new),
        GamePhaseStep::Draw => drew_one(&began(*old, step), new, old.turn.active_player),
        GamePhaseStep::DeclareAttackers => attackers_step_begun(old, new),
        GamePhaseStep::DeclareBlockers => blockers_step_begun(old, new),
        GamePhaseStep::CombatDamage => damage_dealt(old, new),
        GamePhaseStep::PostCombatMain => *new == (GameState { combat: None, ..began(*old, step) }),
        GamePhaseStep::Cleanup => cleaned_up(old, new),
        _ => *new == began(*old, step),
    }
}

/// What moving on to the next step needs: a new turn can be counted, the
/// blockers step finds confirmed attackers, and the damage step finds
/// confirmed blocks whose damage can be dealt.
pub open spec fn can_advance(game: &GameState) -> bool {
    let step = spec_following_step(game.step);
    &&& (step == GamePhaseStep::Untap || step == GamePhaseStep::Cleanup) ==> turn_can_advance(game)
    &&& step == GamePhaseStep::DeclareBlockers ==> (game.combat matches Some(
        CombatState::ConfirmedAttackers(_),
    ))
    &&& step == GamePhaseStep::CombatDamage ==> combat_damage_ready(game)
}

/// Moves the game on to the next step of the turn and performs the actions
/// that begin it; after the cleanup step, the next turn begins.
pub fn advance(game: &mut GameState)
    requires
        old(game).wf(),
        players_seated(old(game)),
        can_advance(old(game)),
    ensures
        final(game).wf(),
        players_seated(final(game)),
        advanced(old(game), final(game)),
{
    let step = game.step.following();
    match step {
        GamePhaseStep::Untap => untap(game),
        GamePhaseStep::Upkeep => upkeep(game),
        GamePhaseStep::Draw => draw(game),
        GamePhaseStep::PreCombatMain => pre_combat_main(game),
        GamePhaseStep::BeginCombat => begin_combat(game),
        GamePhaseStep::DeclareAttackers => declare_attackers(game),
        GamePhaseStep::DeclareBlockers => declare_blockers(game),
        GamePhaseStep::FirstStrikeDamage => first_strike_damage(game),
        GamePhaseStep::CombatDamage => combat_damage(game),
        GamePhaseStep::EndCombat => end_combat(game),
        GamePhaseStep::PostCombatMain => post_combat_main(game),
        GamePhaseStep::EndStep => end_step(game),
        GamePhaseStep::Cleanup => cleanup(game),
    }
}

/// When a new turn begins, the new active player, the next in turn order,
/// untaps the permanents they control and nothing else changes on any
/// card: permanents of other players stay tapped or untapped as they were.
pub proof fn law_untap_step_untaps_only_active_players_permanents(old: &GameState, new: &GameState)
    requires
        turned(old, new),
    ensures
        new.turn.active_player == spec_next_player_after(old.all_players.count(), old.turn.active_player),
        new.cards@.len() == old.cards@.len(),
        forall|i: int|
            0 <= i < old.cards@.len() && (old.cards@[i].zone != Zone::Battlefield || old.cards@[i].controller
                != new.turn.active_player) ==> #[trigger] new.cards@[i] == old.cards@[i],
        forall|i: int|
            0 <= i < old.cards@.len() && old.cards@[i].zone == Zone::Battlefield && old.cards@[i].controller
                == new.turn.active_player ==> !(#[trigger] new.cards@[i]).tapped && new.cards@[i] == (CardState {
                tapped: false,
                ..old.cards@[i]
            }),
{
}

/// Total combat damage the blockers in `blocks` assign to `attacker`: each
/// blocker that blocks it deals damage equal to its power, or none when its
/// power is not positive.
pub open spec fn blocker_power_total(cards: Seq<CardState>, blocks: Seq<(u64, Vec<u64>)>, attacker: u64) -> int
    decreases blocks.len(),
{
    if blocks.len() == 0 {
        0
    } else {
        let b = blocks.last();
        blocker_power_total(cards, blocks.drop_last(), attacker) + (if b.1@[0] == attacker && b.0 < cards.len()
            && spec_power(cards[b.0 as int]) > 0 {
            spec_power(cards[b.0 as int]) as int
        } else {
            0
        })
    }
}

/// Damage to a card adds up over two lists of assignments.
proof fn lemma_damage_to_card_append(a: Seq<CombatDamageAssignment>, b: Seq<CombatDamageAssignment>, id: u64)
    ensures
        damage_to_card(a + b, id) == damage_to_card(a, id) + damage_to_card(b, id),
    decreases b.len(),
{
    if b.len() == 0 {
        assert(a + b =~= a);
    } else {
        lemma_damage_to_card_append(a, b.drop_last(), id);
        assert((a + b).drop_last() =~= a + b.drop_last());
        assert((a + b).last() == b.last());
    }
}

/// The damage the blockers assign to a card is the power they block it with.
proof fn lemma_blocker_damage(cards: Seq<CardState>, blocks: Seq<(u64, Vec<u64>)>, id: u64)
    ensures
        damage_to_card(blocker_assignments(cards, blocks), id) == blocker_power_total(cards, blocks, id),
    decreases blocks.len(),
{
    if blocks.len() > 0 {
        lemma_blocker_damage(cards, blocks.drop_last(), id);
        let one = as_seq(blocker_assignment(cards, blocks.last()));
        lemma_damage_to_card_append(blocker_assignments(cards, blocks.drop_last()), one, id);
        assert(blocker_assignments(cards, blocks) == blocker_assignments(cards, blocks.drop_last()) + one);
        let b = blocks.last();
        if one.len() > 0 {
            assert(one.drop_last() =~= Seq::<CombatDamageAssignment>::empty());
            assert(damage_to_card(one.drop_last(), id) == 0);
            let p = spec_power(cards[b.0 as int]);
            if p > 0 {
                assert(spec_power_to_damage(p) as int == p);
            }
            assert(damage_to_card(one, id) == (if b.1@[0] == id && spec_power(cards[b.0 as int]) > 0 {
                spec_power(cards[b.0 as int]) as int
            } else {
                0
            }));
        } else {
            assert(damage_to_card(one, id) == 0);
        }
    }
}

/// No attacker assigns damage to a card that is listed as a blocker of no
/// attacker.
proof fn lemma_attackers_spare_non_blockers(
    cards: Seq<CardState>,
    blocked: Seq<(u64, Vec<u64>)>,
    entries: Seq<(u64, AttackTarget)>,
    id: u64,
)
    requires
        crate::id_collections::strictly_increasing(entry_keys(blocked)),
        forall|k: int| 0 <= k < blocked.len() ==> !(#[trigger] blocked[k].1@).contains(id),
        forall|i: int|
            0 <= i < entries.len() ==> (entry_keys(blocked).contains(#[trigger] entries[i].0) ==> map_value(
                blocked,
                entries[i].0,
            )@.len() > 0),
    ensures
        damage_to_card(attacker_assignments(cards, blocked, entries), id) == 0,
    decreases entries.len(),
{
    if entries.len() > 0 {
        let e = entries.last();
        assert(entries[entries.len() - 1] == e);
        lemma_attackers_spare_non_blockers(cards, blocked, entries.drop_last(), id);
        let one = as_seq(attacker_assignment(cards, blocked, e));
        lemma_damage_to_card_append(attacker_assignments(cards, blocked, entries.drop_last()), one, id);
        assert(attacker_assignments(cards, blocked, entries) == attacker_assignments(cards, blocked, entries.drop_last()) + one);
        assert(forall|i: int| 0 <= i < entries.drop_last().len() ==> entries.drop_last()[i] == entries[i]);
        if one.len() == 0 {
            assert(damage_to_card(one, id) == 0);
        }
        if one.len() > 0 {
            assert(one.drop_last() =~= Seq::<CombatDamageAssignment>::empty());
            assert(damage_to_card(one.drop_last(), id) == 0);
            if e.0 < cards.len() && entry_keys(blocked).contains(e.0) {
                let keys = entry_keys(blocked);
                let j = choose|j: int| 0 <= j < keys.len() && keys[j] == e.0;
                crate::id_collections::lemma_key_position(keys, j);
                assert(map_value(blocked, e.0) == blocked[j].1);
                let v = blocked[j].1@;
                assert(!v.contains(id));
                assert(v[0] != id);
            }
        }
    }
}

/// In the combat damage step, every creature blocking an attacker deals it
/// damage equal to its power: the damage marked on an attacking creature,
/// which itself blocks nothing, rises by the sum of the powers of its
/// blockers.
pub proof fn law_blockers_deal_their_power_to_attackers(old: &GameState, new: &GameState, attacker: u64)
    requires
        old.wf(),
        combat_damage_ready(old),
        damage_dealt(old, new),
        attacker < old.cards@.len(),
        old.cards@[attacker as int].zone == Zone::Battlefield,
        forall|k: int|
            0 <= k < confirmed_blocks_of(old).blocked_attackers@.len() ==> !(
            #[trigger] confirmed_blocks_of(old).blocked_attackers@[k].1@).contains(attacker),
    ensures
        new.cards@[attacker as int].damage == old.cards@[attacker as int].damage + blocker_power_total(
            old.cards@,
            confirmed_blocks_of(old).reverse_lookup@,
            attacker,
        ),
{
    let m = confirmed_blocks_of(old);
    let blocked = m.blocked_attackers@;
    let list = combat_assignments(old.cards@, m);
    assert forall|i: int|
        0 <= i < m.attackers@.len() implies (entry_keys(blocked).contains(#[trigger] m.attackers@[i].0)
        ==> map_value(blocked, m.attackers@[i].0)@.len() > 0) by {
        let entry = m.attackers@[i];
        assert(damage_ready(m));
    }
    lemma_attackers_spare_non_blockers(old.cards@, blocked, m.attackers@, attacker);
    lemma_blocker_damage(old.cards@, m.reverse_lookup@, attacker);
    lemma_damage_to_card_append(
        attacker_assignments(old.cards@, blocked, m.attackers@),
        blocker_assignments(old.cards@, m.reverse_lookup@),
        attacker,
    );
    lemma_damage_nonnegative(list);
    assert(damage_to_card(list, attacker) >= 0);
    assert(new.cards@[attacker as int] == damaged_cards(old.cards@, list)[attacker as int]);
}

/// Total combat damage that the attackers in `entries` which are not blocked
/// assign to `player`: each one attacking that player deals damage equal to
/// its power, or none when its power is not positive.
pub open spec fn unblocked_power_total(
    cards: Seq<CardState>,
    blocked: Seq<(u64, Vec<u64>)>,
    entries: Seq<(u64, AttackTarget)>,
    player: PlayerName,
) -> int
    decreases entries.len(),
{
    if entries.len() == 0 {
        0
    } else {
        let e = entries.last();
        unblocked_power_total(cards, blocked, entries.drop_last(), player) + (if e.0 < cards.len()
            && !entry_keys(blocked).contains(e.0) && e.1 == AttackTarget::Player(player) && spec_power(
            cards[e.0 as int],
        ) > 0 {
            spec_power(cards[e.0 as int]) as int
        } else {
            0
        })
    }
}

/// Damage to a player adds up over two lists of assignments.
proof fn lemma_damage_to_player_append(a: Seq<CombatDamageAssignment>, b: Seq<CombatDamageAssignment>, p: PlayerName)
    ensures
        damage_to_player(a + b, p) == damage_to_player(a, p) + damage_to_player(b, p),
    decreases b.len(),
{
    if b.len() == 0 {
        assert(a + b =~= a);
    } else {
        lemma_damage_to_player_append(a, b.drop_last(), p);
        assert((a + b).drop_last() =~= a + b.drop_last());
        assert((a + b).last() == b.last());
    }
}

/// Blockers assign no damage to players.
proof fn lemma_blockers_spare_players(cards: Seq<CardState>, blocks: Seq<(u64, Vec<u64>)>, p: PlayerName)
    ensures
        damage_to_player(blocker_assignments(cards, blocks), p) == 0,
    decreases blocks.len(),
{
    if blocks.len() > 0 {
        lemma_blockers_spare_players(cards, blocks.drop_last(), p);
        let one = as_seq(blocker_assignment(cards, blocks.last()));
        lemma_damage_to_player_append(blocker_assignments(cards, blocks.drop_last()), one, p);
        assert(blocker_assignments(cards, blocks) == blocker_assignments(cards, blocks.drop_last()) + one);
        if one.len() > 0 {
            assert(one.drop_last() =~= Seq::<CombatDamageAssignment>::empty());
            assert(damage_to_player(one.drop_last(), p) == 0);
        }
        assert(damage_to_player(one, p) == 0);
    }
}

/// The damage the attackers assign to a player is the power of the
/// unblocked attackers attacking that player.
proof fn lemma_attacker_player_damage(
    cards: Seq<CardState>,
    blocked: Seq<(u64, Vec<u64>)>,
    entries: Seq<(u64, AttackTarget)>,
    p: PlayerName,
)
    ensures
        damage_to_player(attacker_assignments(cards, blocked, entries), p) == unblocked_power_total(
            cards,
            blocked,
            entries,
            p,
        ),
    decreases entries.len(),
{
    if entries.len() > 0 {
        let e = entries.last();
        lemma_attacker_player_damage(cards, blocked, entries.drop_last(), p);
        let one = as_seq(attacker_assignment(cards, blocked, e));
        lemma_damage_to_player_append(attacker_assignments(cards, blocked, entries.drop_last()), one, p);
        assert(attacker_assignments(cards, blocked, entries) == attacker_assignments(cards, blocked, entries.drop_last()) + one);
        if one.len() > 0 {
            assert(one.drop_last() =~= Seq::<CombatDamageAssignment>::empty());
            assert(damage_to_player(one.drop_last(), p) == 0);
            let pw = spec_power(cards[e.0 as int]);
            if pw > 0 {
                assert(spec_power_to_damage(pw) as int == pw);
            }
        }
        assert(damage_to_player(one, p) == (if e.0 < cards.len() && !entry_keys(blocked).contains(e.0)
            && e.1 == AttackTarget::Player(p) && spec_power(cards[e.0 as int]) > 0 {
            spec_power(cards[e.0 as int]) as int
        } else {
            0
        }));
    }
}

/// In the combat damage step, each attacker that is not blocked deals damage
/// equal to its power to the player it attacks: that player's life total
/// goes down by the sum of those powers, and blockers deal no damage to
/// players.
pub proof fn law_unblocked_attackers_damage_their_player(old: &GameState, new: &GameState, player: PlayerName)
    requires
        old.wf(),
        combat_damage_ready(old),
        damage_dealt(old, new),
    ensures
        new.spec_player(player).life == old.spec_player(player).life - unblocked_power_total(
            old.cards@,
            confirmed_blocks_of(old).blocked_attackers@,
            confirmed_blocks_of(old).attackers@,
            player,
        ),
{
    let m = confirmed_blocks_of(old);
    let list = combat_assignments(old.cards@, m);
    lemma_attacker_player_damage(old.cards@, m.blocked_attackers@, m.attackers@, player);
    lemma_blockers_spare_players(old.cards@, m.reverse_lookup@, player);
    lemma_damage_to_player_append(
        attacker_assignments(old.cards@, m.blocked_attackers@, m.attackers@),
        blocker_assignments(old.cards@, m.reverse_lookup@),
        player,
    );
    let i = player_index(player) as int;
    assert(player_at(i as nat) == player);
    lemma_damage_nonnegative(list);
    assert(damage_to_player(list, player) >= 0);
    assert(i64::MIN <= old.players@[i].life - damage_to_player(list, player_at(i as nat)));
    assert(new.players@[i] == damaged_players(old.players@, list)[i]);
}

/// Total combat damage that the blocked attackers in `entries` assign to
/// `blocker`: each attacker whose first blocker it is deals it damage equal
/// to its power, or none when its power is not positive.
pub open spec fn first_blocker_power_total(
    cards: Seq<CardState>,
    blocked: Seq<(u64, Vec<u64>)>,
    entries: Seq<(u64, AttackTarget)>,
    blocker: u64,
) -> int
    decreases entries.len(),
{
    if entries.len() == 0 {
        0
    } else {
        let e = entries.last();
        first_blocker_power_total(cards, blocked, entries.drop_last(), blocker) + (if e.0 < cards.len()
            && entry_keys(blocked).contains(e.0) && map_value(blocked, e.0)@[0] == blocker && spec_power(
            cards[e.0 as int],
        ) > 0 {
            spec_power(cards[e.0 as int]) as int
        } else {
            0
        })
    }
}

/// The damage the attackers assign to a card is the power of the attackers
/// that have it as their first blocker.
proof fn lemma_attacker_card_damage(
    cards: Seq<CardState>,
    blocked: Seq<(u64, Vec<u64>)>,
    entries: Seq<(u64, AttackTarget)>,
    id: u64,
)
    ensures
        damage_to_card(attacker_assignments(cards, blocked, entries), id) == first_blocker_power_total(
            cards,
            blocked,
            entries,
            id,
        ),
    decreases entries.len(),
{
    if entries.len() > 0 {
        let e = entries.last();
        lemma_attacker_card_damage(cards, blocked, entries.drop_last(), id);
        let one = as_seq(attacker_assignment(cards, blocked, e));
        lemma_damage_to_card_append(attacker_assignments(cards, blocked, entries.drop_last()), one, id);
        assert(attacker_assignments(cards, blocked, entries) == attacker_assignments(cards, blocked, entries.drop_last()) + one);
        if one.len() > 0 {
            assert(one.drop_last() =~= Seq::<CombatDamageAssignment>::empty());
            assert(damage_to_card(one.drop_last(), id) == 0);
            let pw = spec_power(cards[e.0 as int]);
            if pw > 0 {
                assert(spec_power_to_damage(pw) as int == pw);
            }
        }
        assert(damage_to_card(one, id) == (if e.0 < cards.len() && entry_keys(blocked).contains(e.0)
            && map_value(blocked, e.0)@[0] == id && spec_power(cards[e.0 as int]) > 0 {
            spec_power(cards[e.0 as int]) as int
        } else {
            0
        }));
    }
}

/// Blockers blocking no card `id` deal it no damage.
proof fn lemma_blocked_nothing(cards: Seq<CardState>, blocks: Seq<(u64, Vec<u64>)>, id: u64)
    requires
        forall|i: int| 0 <= i < blocks.len() ==> (#[trigger] blocks[i]).1@[0] != id,
    ensures
        blocker_power_total(cards, blocks, id) == 0,
    decreases blocks.len(),
{
    if blocks.len() > 0 {
        assert(forall|i: int| 0 <= i < blocks.drop_last().len() ==> blocks.drop_last()[i] == blocks[i]);
        lemma_blocked_nothing(cards, blocks.drop_last(), id);
        assert(blocks[blocks.len() - 1] == blocks.last());
    }
}

/// In the combat damage step, a blocked attacker deals damage equal to its
/// power to its first blocker: the damage marked on a blocking creature,
/// which is itself blocked by nothing, rises by the sum of the powers of the
/// attackers it blocks first.
pub proof fn law_attackers_deal_their_power_to_first_blockers(old: &GameState, new: &GameState, blocker: u64)
    requires
        old.wf(),
        combat_damage_ready(old),
        damage_dealt(old, new),
        blocker < old.cards@.len(),
        old.cards@[blocker as int].zone == Zone::Battlefield,
        forall|i: int|
            0 <= i < confirmed_blocks_of(old).reverse_lookup@.len() ==> (
            #[trigger] confirmed_blocks_of(old).reverse_lookup@[i]).1@[0] != blocker,
    ensures
        new.cards@[blocker as int].damage == old.cards@[blocker as int].damage + first_blocker_power_total(
            old.cards@,
            confirmed_blocks_of(old).blocked_attackers@,
            confirmed_blocks_of(old).attackers@,
            blocker,
        ),
{
    let m = confirmed_blocks_of(old);
    let list = combat_assignments(old.cards@, m);
    lemma_attacker_card_damage(old.cards@, m.blocked_attackers@, m.attackers@, blocker);
    lemma_blocker_damage(old.cards@, m.reverse_lookup@, blocker);
    lemma_blocked_nothing(old.cards@, m.reverse_lookup@, blocker);
    lemma_damage_to_card_append(
        attacker_assignments(old.cards@, m.blocked_attackers@, m.attackers@),
        blocker_assignments(old.cards@, m.reverse_lookup@),
        blocker,
    );
    lemma_damage_nonnegative(list);
    assert(damage_to_card(list, blocker) >= 0);
    assert(new.cards@[blocker as int] == damaged_cards(old.cards@, list)[blocker as int]);
}

} // verus!
