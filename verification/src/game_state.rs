//! The state of a game: players, cards, zones, the step of the turn, who has
//! priority, and the state of combat. Cards here have only their printed
//! characteristics, no abilities, so every rules query returns its printed
//! value.
use crate::card_parser::ManaCostItem;
use crate::id_collections::{IdMap, IdSet};
use crate::primitives::{
    player_index, CardTypes, Colors, GamePhaseStep, LandSubtypes, PlayerName, PlayerSet, TurnData, Zone,
};
use vstd::prelude::*;

verus! {

/// What a creature attacks.
#[derive(Debug, Clone, Copy, PartialEq, Eq, Hash, Structural)]
pub enum AttackTarget {
    Player(PlayerName),
    Planeswalker(PlayerName, u64),
    Battle(PlayerName, u64),
}

/// Attacking creatures and what each attacks, by creature.
pub type AttackerMap = IdMap<AttackTarget>;

/// Attackers being declared: creatures already assigned a target, and
/// creatures selected and waiting for one.
#[derive(Debug)]
pub struct ProposedAttackers {
    pub proposed_attacks: AttackerMap,
    pub selected_attackers: IdSet,
}

/// Blockers being declared by the defending player.
#[derive(Debug)]
pub struct ProposedBlockers {
    pub defender: PlayerName,
    pub attackers: AttackerMap,
    pub selected_blockers: IdSet,
    pub proposed_blocks: IdMap<Vec<u64>>,
}

/// Declared blocks: for each blocked attacker its blockers in damage order,
/// and for each blocker the attackers it blocks.
#[derive(Debug)]
pub struct BlockerMap {
    pub attackers: AttackerMap,
    pub blocked_attackers: IdMap<Vec<u64>>,
    pub reverse_lookup: IdMap<Vec<u64>>,
}

/// Every blocker blocks exactly one attacker.
pub open spec fn single_attacker_blocks(blocks: Seq<(u64, Vec<u64>)>) -> bool {
    forall|i: int| 0 <= i < blocks.len() ==> #[trigger] blocks[i].1@.len() == 1
}

impl BlockerMap {
    /// Keys are in order, every blocker blocks exactly one attacker, and the
    /// attacker a blocker blocks lists that blocker among its blockers.
    pub open spec fn wf(&self) -> bool {
        &&& self.attackers.wf()
        &&& self.blocked_attackers.wf()
        &&& self.reverse_lookup.wf()
        &&& single_attacker_blocks(self.reverse_lookup@)
        &&& forall|i: int|
            0 <= i < self.reverse_lookup@.len() ==> {
                let attacker = #[trigger] self.reverse_lookup@[i].1@[0];
                &&& self.blocked_attackers.has(attacker)
                &&& self.blocked_attackers.value(attacker)@.contains(self.reverse_lookup@[i].0)
            }
    }
}

/// Progress of the combat phase.
#[derive(Debug)]
pub enum CombatState {
    ProposingAttackers(ProposedAttackers),
    ConfirmedAttackers(AttackerMap),
    ProposingBlockers(ProposedBlockers),
    OrderingBlockers(BlockerMap),
    ConfirmedBlockers(BlockerMap),
}

/// The stage of combat without its data.
#[derive(Debug, Clone, Copy, PartialEq, Eq, Structural)]
pub enum CombatStateKind {
    ProposingAttackers,
    ConfirmedAttackers,
    ProposingBlockers,
    OrderingBlockers,
    ConfirmedBlockers,
}

impl CombatState {
    /// The stage of combat.
    pub open spec fn spec_kind(&self) -> CombatStateKind {
        match self {
            CombatState::ProposingAttackers(_) => CombatStateKind::ProposingAttackers,
            CombatState::ConfirmedAttackers(_) => CombatStateKind::ConfirmedAttackers,
            CombatState::ProposingBlockers(_) => CombatStateKind::ProposingBlockers,
            CombatState::OrderingBlockers(_) => CombatStateKind::OrderingBlockers,
            CombatState::ConfirmedBlockers(_) => CombatStateKind::ConfirmedBlockers,
        }
    }

    /// The stage of combat.
    pub fn kind(&self) -> (k: CombatStateKind)
        ensures
            k == self.spec_kind(),
    {
        match self {
            CombatState::ProposingAttackers(_) => CombatStateKind::ProposingAttackers,
            CombatState::ConfirmedAttackers(_) => CombatStateKind::ConfirmedAttackers,
            CombatState::ProposingBlockers(_) => CombatStateKind::ProposingBlockers,
            CombatState::OrderingBlockers(_) => CombatStateKind::OrderingBlockers,
            CombatState::ConfirmedBlockers(_) => CombatStateKind::ConfirmedBlockers,
        }
    }

    /// Every collection of the combat state keeps its keys in order.
    pub open spec fn wf(&self) -> bool {
        match self {
            CombatState::ProposingAttackers(a) => a.proposed_attacks.wf()
                && a.selected_attackers.wf(),
            CombatState::ConfirmedAttackers(a) => a.wf(),
            CombatState::ProposingBlockers(b) => b.attackers.wf() && b.selected_blockers.wf()
                && b.proposed_blocks.wf() && single_attacker_blocks(b.proposed_blocks@),
            CombatState::OrderingBlockers(m) => m.wf(),
            CombatState::ConfirmedBlockers(m) => m.wf(),
        }
    }

    /// The confirmed attackers, once attackers have been confirmed.
    pub fn confirmed_attackers(&self) -> (a: Option<&AttackerMap>)
        ensures
            a matches Some(m) ==> (match self {
                CombatState::ConfirmedAttackers(x) => m == x,
                CombatState::ProposingBlockers(b) => m == &b.attackers,
                CombatState::OrderingBlockers(x) => m == &x.attackers,
                CombatState::ConfirmedBlockers(x) => m == &x.attackers,
                CombatState::ProposingAttackers(_) => false,
            }),
            a is None <==> self is ProposingAttackers,
    {
        match self {
            CombatState::ProposingAttackers(_) => None,
            CombatState::ConfirmedAttackers(a) => Some(a),
            CombatState::ProposingBlockers(b) => Some(&b.attackers),
            CombatState::OrderingBlockers(m) => Some(&m.attackers),
            CombatState::ConfirmedBlockers(m) => Some(&m.attackers),
        }
    }
}

/// A card and its printed characteristics.
#[derive(Debug, Clone)]
pub struct CardState {
    pub id: u64,
    pub owner: PlayerName,
    pub controller: PlayerName,
    pub zone: Zone,
    pub tapped: bool,
    pub damage: u64,
    pub face_up: bool,
    pub is_token: bool,
    pub card_types: CardTypes,
    pub land_subtypes: LandSubtypes,
    pub colors: Colors,
    pub mana_cost: Vec<ManaCostItem>,
    pub power: Option<i64>,
    pub toughness: Option<i64>,
    pub entered_current_zone: TurnData,
    pub last_changed_control: TurnData,
    /// The players who may see the card.
    pub revealed_to: PlayerSet,
    /// The permanent this card is attached to, if any.
    pub attached_to: Option<u64>,
}

/// Choices a player made about stopping the game for them.
#[derive(Debug, Clone)]
pub struct PlayerOptions {
    pub hold_priority: bool,
    pub auto_pass: bool,
    pub active_turn_stops: Vec<GamePhaseStep>,
    pub inactive_turn_stops: Vec<GamePhaseStep>,
}

/// Who makes a player's decisions.
#[derive(Debug, Clone, Copy, PartialEq, Eq, Structural)]
pub enum PlayerType {
    /// Nobody: the seat is not played.
    Nobody,
    /// The user with this identifier.
    Human(u128),
    /// A game-playing agent.
    Agent,
}

/// The decks players can play.
#[derive(Debug, Clone, Copy, PartialEq, Eq, Structural)]
pub enum DeckName {
    GreenVanilla,
    AllDandans,
    GrizzlyBearGiantGrowth,
    SomeDandans,
    Dandan,
}

/// A player's life total, land plays this turn, options, who plays them and
/// the deck they play.
#[derive(Debug, Clone)]
pub struct PlayerState {
    pub life: i64,
    pub lands_played: u64,
    pub options: PlayerOptions,
    pub player_type: PlayerType,
    pub deck_name: Option<DeckName>,
}

/// Whether the game is being set up, is being played, or is over.
#[derive(Debug, Clone, Copy, PartialEq, Eq, Structural)]
pub enum GameStatus {
    Setup,
    Playing,
    GameOver { winners: PlayerSet },
}

/// Actions taken during combat.
#[derive(Debug, Clone, Copy, PartialEq, Eq, Structural)]
pub enum CombatAction {
    AddSelectedAttacker(u64),
    SetSelectedAttackersTarget(AttackTarget),
    RemoveAttacker(u64),
    ConfirmAttackers,
    AddSelectedBlocker(u64),
    SetSelectedBlockersTarget(u64),
    RemoveBlocker(u64),
    ConfirmBlockers,
    OrderBlocker { attacker_id: u64, blocker_id: u64, position: usize },
    ConfirmBlockerOrder,
}

/// Actions a player takes in the game.
#[derive(Debug, Clone, Copy, PartialEq, Eq, Structural)]
pub enum GameAction {
    PassPriority,
    ProposePlayingCard(u64),
    CombatAction(CombatAction),
}

/// An action in a player's history, and whether undo counts it.
#[derive(Debug, Clone, Copy, PartialEq, Eq, Structural)]
pub struct TakenGameAction {
    pub action: GameAction,
    pub track_for_undo: bool,
}

/// Events after which state-based actions are checked.
#[derive(Debug, Clone, Copy, PartialEq, Eq, Structural)]
pub enum StateBasedEvent {
    LifeTotalDecrease(PlayerName),
    DrawFromEmptyLibrary(PlayerName),
    GainedPoisonCounters(PlayerName),
    TokenLeftBattlefield(u64),
    CopyLeftStackOrBattlefield(u64),
    CreatureToughnessChanged(u64),
    CreatureDamaged(u64),
    CreatureDamagedByDeathtouch(u64),
    PlaneswalkerLostLoyalty(u64),
    LegendaryPermanentEntered(u64),
}

/// A control-changing effect: card `card_id` is controlled by `controller`
/// until the effect begun by event `event_id` ends.
#[derive(Debug, Clone, Copy, PartialEq, Eq, Structural)]
pub struct ControlChangingEffect {
    pub card_id: u64,
    pub event_id: u64,
    pub controller: PlayerName,
}

/// Effects that end in the cleanup step of the current turn.
#[derive(Debug)]
pub struct ThisTurnState {
    /// Control-changing effects, each as the event that began it and the
    /// card it affects.
    pub control_changing_effects: Vec<(u64, u64)>,
}

impl ThisTurnState {
    /// No effect ends this turn.
    pub fn new() -> (state: ThisTurnState)
        ensures
            state.control_changing_effects@.len() == 0,
    {
        ThisTurnState { control_changing_effects: Vec::new() }
    }

    /// Records that the control-changing effect of event `event_id` on card
    /// `card_id` ends this turn.
    pub fn add_control_changing_effect(&mut self, event_id: u64, card_id: u64)
        ensures
            final(self).control_changing_effects@ == old(self).control_changing_effects@.push(
                (event_id, card_id),
            ),
    {
        self.control_changing_effects.push((event_id, card_id));
    }

    /// Takes out the control-changing effects that end this turn.
    pub fn remove_control_changing_effects(&mut self) -> (effects: Vec<(u64, u64)>)
        ensures
            effects@ == old(self).control_changing_effects@,
            final(self).control_changing_effects@.len() == 0,
    {
        let mut effects: Vec<(u64, u64)> = Vec::new();
        std::mem::swap(&mut effects, &mut self.control_changing_effects);
        effects
    }
}

/// `effects` without those on card `card_id`, or, given an event, without
/// those on the card begun by that event; the others keep their order.
pub open spec fn retained_effects(effects: Seq<ControlChangingEffect>, card_id: u64, event_id: Option<u64>) -> Seq<
    ControlChangingEffect,
>
    decreases effects.len(),
{
    if effects.len() == 0 {
        Seq::empty()
    } else {
        let e = effects.last();
        let rest = retained_effects(effects.drop_last(), card_id, event_id);
        if e.card_id == card_id && (event_id is None || event_id == Some(e.event_id)) {
            rest
        } else {
            rest.push(e)
        }
    }
}

/// The controller of card `card_id`, owned by `owner`, under `effects`: the
/// player named by the latest effect on it, else its owner.
pub open spec fn controller_from(effects: Seq<ControlChangingEffect>, card_id: u64, owner: PlayerName) -> PlayerName
    decreases effects.len(),
{
    if effects.len() == 0 {
        owner
    } else if effects.last().card_id == card_id {
        effects.last().controller
    } else {
        controller_from(effects.drop_last(), card_id, owner)
    }
}

/// Ending effects on card `id` leaves the controller of every other card as
/// it was.
pub proof fn lemma_controller_other_card(
    s: Seq<ControlChangingEffect>,
    id: u64,
    event_id: Option<u64>,
    other: u64,
    owner: PlayerName,
)
    requires
        other != id,
    ensures
        controller_from(retained_effects(s, id, event_id), other, owner) == controller_from(s, other, owner),
    decreases s.len(),
{
    if s.len() > 0 {
        lemma_controller_other_card(s.drop_last(), id, event_id, other, owner);
        let rest = retained_effects(s.drop_last(), id, event_id);
        assert(rest.push(s.last()).drop_last() =~= rest);
    }
}

/// Effects that all name cards below `n` still do after some of them end.
pub proof fn lemma_retained_below(s: Seq<ControlChangingEffect>, id: u64, event_id: Option<u64>, n: nat)
    requires
        forall|k: int| 0 <= k < s.len() ==> #[trigger] s[k].card_id < n,
    ensures
        forall|k: int|
            0 <= k < retained_effects(s, id, event_id).len() ==> #[trigger] retained_effects(s, id, event_id)[k].card_id
                < n,
    decreases s.len(),
{
    if s.len() > 0 {
        assert forall|k: int| 0 <= k < s.drop_last().len() implies #[trigger] s.drop_last()[k].card_id < n by {
            assert(s.drop_last()[k] == s[k]);
        }
        lemma_retained_below(s.drop_last(), id, event_id, n);
        assert(s[s.len() - 1] == s.last());
    }
}

/// A card that no effect names is controlled by its owner.
pub proof fn lemma_controller_unaffected(s: Seq<ControlChangingEffect>, id: u64, owner: PlayerName)
    requires
        forall|k: int| 0 <= k < s.len() ==> #[trigger] s[k].card_id != id,
    ensures
        controller_from(s, id, owner) == owner,
    decreases s.len(),
{
    if s.len() > 0 {
        assert forall|k: int| 0 <= k < s.drop_last().len() implies #[trigger] s.drop_last()[k].card_id != id by {
            assert(s.drop_last()[k] == s[k]);
        }
        lemma_controller_unaffected(s.drop_last(), id, owner);
        assert(s[s.len() - 1] == s.last());
    }
}

/// Once all effects on a card end, its owner controls it.
pub proof fn lemma_controller_after_clearing(s: Seq<ControlChangingEffect>, id: u64, owner: PlayerName)
    ensures
        controller_from(retained_effects(s, id, None), id, owner) == owner,
    decreases s.len(),
{
    if s.len() > 0 {
        lemma_controller_after_clearing(s.drop_last(), id, owner);
        let rest = retained_effects(s.drop_last(), id, None);
        if s.last().card_id != id {
            assert(rest.push(s.last()).drop_last() =~= rest);
        }
    }
}

/// `effects` without those on card `card_id` (begun by `event_id`, when
/// given).
pub fn retain_effects(effects: &Vec<ControlChangingEffect>, card_id: u64, event_id: Option<u64>) -> (kept: Vec<
    ControlChangingEffect,
>)
    ensures
        kept@ == retained_effects(effects@, card_id, event_id),
{
    let mut kept: Vec<ControlChangingEffect> = Vec::new();
    let mut i: usize = 0;
    proof {
        assert(effects@.take(0) =~= Seq::<ControlChangingEffect>::empty());
    }
    while i < effects.len()
        invariant
            i <= effects@.len(),
            kept@ == retained_effects(effects@.take(i as int), card_id, event_id),
        decreases effects@.len() - i,
    {
        proof {
            assert(effects@.take(i + 1).drop_last() =~= effects@.take(i as int));
        }
        let e = effects[i];
        let ends = match event_id {
            Some(ev) => e.card_id == card_id && e.event_id == ev,
            None => e.card_id == card_id,
        };
        if !ends {
            kept.push(e);
        }
        i = i + 1;
    }
    proof {
        assert(effects@.take(i as int) =~= effects@);
    }
    kept
}

/// The controller of card `card_id`, owned by `owner`, under `effects`.
pub fn controller_under(effects: &Vec<ControlChangingEffect>, card_id: u64, owner: PlayerName) -> (controller:
    PlayerName)
    ensures
        controller == controller_from(effects@, card_id, owner),
{
    let mut i: usize = effects.len();
    proof {
        assert(effects@.take(i as int) =~= effects@);
    }
    while i > 0
        invariant
            i <= effects@.len(),
            controller_from(effects@, card_id, owner) == controller_from(effects@.take(i as int), card_id, owner),
        decreases i,
    {
        proof {
            assert(effects@.take(i as int).drop_last() =~= effects@.take(i - 1));
        }
        if effects[i - 1].card_id == card_id {
            return effects[i - 1].controller;
        }
        i = i - 1;
    }
    owner
}

/// Whether a card moving from `from` to `to` keeps its control-changing
/// effects: only a spell resolving onto the battlefield does.
pub open spec fn keeps_control(from: Zone, to: Zone) -> bool {
    from == Zone::Stack && to == Zone::Battlefield
}

/// The state of a game.
#[derive(Debug)]
pub struct GameState {
    pub status: GameStatus,
    pub step: GamePhaseStep,
    pub turn: TurnData,
    pub priority: PlayerName,
    pub passed: PlayerSet,
    pub all_players: PlayerSet,
    /// Indexed by seat.
    pub players: Vec<PlayerState>,
    /// Indexed by card id.
    pub cards: Vec<CardState>,
    /// Each player's library, indexed by seat; the last card is the top.
    pub libraries: Vec<Vec<u64>>,
    /// Each player's graveyard, indexed by seat; the last card is the top.
    pub graveyards: Vec<Vec<u64>>,
    /// The stack; the last item is the top.
    pub stack: Vec<u64>,
    pub combat: Option<CombatState>,
    /// Each player's actions, indexed by seat.
    pub history: Vec<Vec<TakenGameAction>>,
    pub state_based_events: Option<Vec<StateBasedEvent>>,
    /// Whether an agent is searching over copies of this game.
    pub agent_search: bool,
    /// Control-changing effects, in the order they began.
    pub control_changing_effects: Vec<ControlChangingEffect>,
    /// Effects that end with the current turn.
    pub this_turn: ThisTurnState,
}

impl GameState {
    /// The game's collections are laid out as described: one entry per seat,
    /// card ids equal to positions, zones holding known cards.
    pub open spec fn wf(&self) -> bool {
        &&& self.players@.len() == 4
        &&& self.libraries@.len() == 4
        &&& self.graveyards@.len() == 4
        &&& self.history@.len() == 4
        &&& forall|i: int| 0 <= i < self.cards@.len() ==> #[trigger] self.cards@[i].id == i
        &&& forall|p: int, i: int|
            0 <= p < 4 && 0 <= i < self.libraries@[p]@.len() ==> #[trigger] self.libraries@[p]@[i]
                < self.cards@.len()
        &&& forall|p: int, i: int|
            0 <= p < 4 && 0 <= i < self.graveyards@[p]@.len() ==> #[trigger] self.graveyards@[p]@[i]
                < self.cards@.len()
        &&& forall|i: int| 0 <= i < self.stack@.len() ==> #[trigger] self.stack@[i] < self.cards@.len()
        &&& self.combat matches Some(c) ==> c.wf()
        &&& forall|k: int|
            0 <= k < self.control_changing_effects@.len() ==> #[trigger] self.control_changing_effects@[k].card_id
                < self.cards@.len()
        &&& forall|i: int|
            0 <= i < self.cards@.len() ==> #[trigger] self.cards@[i].controller == controller_from(
                self.control_changing_effects@,
                i as u64,
                self.cards@[i].owner,
            )
    }

    /// The card with identifier `id`, if any.
    pub open spec fn spec_card(&self, id: u64) -> Option<CardState> {
        if id < self.cards@.len() {
            Some(self.cards@[id as int])
        } else {
            None
        }
    }

    /// The player state of `player`.
    pub open spec fn spec_player(&self, player: PlayerName) -> PlayerState {
        self.players@[player_index(player) as int]
    }

    /// The card with identifier `id`, if any.
    pub fn card(&self, id: u64) -> (c: Option<&CardState>)
        requires
            self.wf(),
        ensures
            c is None <==> id >= self.cards@.len(),
            c matches Some(x) ==> *x == self.cards@[id as int],
    {
        if id < self.cards.len() as u64 {
            Some(&self.cards[id as usize])
        } else {
            None
        }
    }

    /// The player state of `player`.
    pub fn player(&self, player: PlayerName) -> (p: &PlayerState)
        requires
            self.wf(),
        ensures
            *p == self.spec_player(player),
    {
        &self.players[player.index()]
    }


    /// Records an event for the next check of state-based actions.
    pub fn add_state_based_event(&mut self, event: StateBasedEvent)
        ensures
            final(self).state_based_events is Some,
            pending_events(final(self).state_based_events) == pending_events(
                old(self).state_based_events,
            ).push(event),
            final(self).status == old(self).status,
            final(self).step == old(self).step,
            final(self).turn == old(self).turn,
            final(self).priority == old(self).priority,
            final(self).passed == old(self).passed,
            final(self).all_players == old(self).all_players,
            final(self).players == old(self).players,
            final(self).cards == old(self).cards,
            final(self).libraries == old(self).libraries,
            final(self).graveyards == old(self).graveyards,
            final(self).stack == old(self).stack,
            final(self).combat == old(self).combat,
            final(self).history == old(self).history,
            final(self).agent_search == old(self).agent_search,
            final(self).control_changing_effects == old(self).control_changing_effects,
            final(self).this_turn == old(self).this_turn,
    {
        let mut events = match self.state_based_events.take() {
            Some(e) => e,
            None => Vec::new(),
        };
        events.push(event);
        self.state_based_events = Some(events);
    }
}

/// The events waiting for the next check of state-based actions.
pub open spec fn pending_events(events: Option<Vec<StateBasedEvent>>) -> Seq<StateBasedEvent> {
    match events {
        Some(e) => e@,
        None => Seq::empty(),
    }
}

/// Identifiers of the first `n` cards that satisfy `pred`, in order.
pub open spec fn ids_where(cards: Seq<CardState>, n: nat, pred: spec_fn(CardState) -> bool) -> Seq<
    u64,
>
    decreases n,
{
    if n == 0 {
        Seq::empty()
    } else {
        ids_where(cards, (n - 1) as nat, pred) + (if pred(cards[n - 1]) {
            seq![(n - 1) as u64]
        } else {
            Seq::empty()
        })
    }
}

/// Cards on the battlefield under `player`'s control.
pub open spec fn on_battlefield_of(player: PlayerName) -> spec_fn(CardState) -> bool {
    |c: CardState| c.zone == Zone::Battlefield && c.controller == player
}

/// Cards in `player`'s hand.
pub open spec fn in_hand_of(player: PlayerName) -> spec_fn(CardState) -> bool {
    |c: CardState| c.zone == Zone::Hand && c.owner == player
}

/// The types a card has where it is: none while face down on the battlefield.
pub open spec fn spec_card_types(card: CardState) -> CardTypes {
    if card.zone == Zone::Battlefield && !card.face_up {
        CardTypes {
            artifact: false,
            battle: false,
            creature: false,
            enchantment: false,
            instant: false,
            land: false,
            planeswalker: false,
            sorcery: false,
        }
    } else {
        card.card_types
    }
}

/// The types a card has where it is: none while face down on the battlefield.
pub fn card_types(card: &CardState) -> (types: CardTypes)
    ensures
        types == spec_card_types(*card),
{
    if card.zone == Zone::Battlefield && !card.face_up {
        CardTypes {
            artifact: false,
            battle: false,
            creature: false,
            enchantment: false,
            instant: false,
            land: false,
            planeswalker: false,
            sorcery: false,
        }
    } else {
        card.card_types
    }
}

/// A card standing in for one taken out of the card list: a blank card of
/// player one outside the game, with no types, colors, cost or stats.
fn placeholder_card() -> (card: CardState)
    ensures
        card.id == 0,
        card.owner == PlayerName::One,
        card.controller == PlayerName::One,
        card.zone == Zone::OutsideTheGame,
        !card.tapped,
        card.damage == 0,
        !card.face_up,
        !card.is_token,
        !card.card_types.spec_is_permanent(),
        !card.card_types.instant && !card.card_types.sorcery,
        card.land_subtypes.count() == 0,
        !card.colors.white && !card.colors.blue && !card.colors.black && !card.colors.red
            && !card.colors.green,
        card.mana_cost@.len() == 0,
        card.power is None,
        card.toughness is None,
        card.entered_current_zone == (TurnData { active_player: PlayerName::One, turn_number: 0 }),
        card.last_changed_control == (TurnData { active_player: PlayerName::One, turn_number: 0 }),
        card.revealed_to == (PlayerSet { one: false, two: false, three: false, four: false }),
        card.attached_to is None,
{
    let turn = TurnData { active_player: PlayerName::One, turn_number: 0 };
    CardState {
        id: 0,
        owner: PlayerName::One,
        controller: PlayerName::One,
        zone: Zone::OutsideTheGame,
        tapped: false,
        damage: 0,
        face_up: false,
        is_token: false,
        card_types: CardTypes {
            artifact: false,
            battle: false,
            creature: false,
            enchantment: false,
            instant: false,
            land: false,
            planeswalker: false,
            sorcery: false,
        },
        land_subtypes: LandSubtypes {
            plains: false,
            island: false,
            swamp: false,
            mountain: false,
            forest: false,
            others: 0,
        },
        colors: Colors { white: false, blue: false, black: false, red: false, green: false },
        mana_cost: Vec::new(),
        power: None,
        toughness: None,
        entered_current_zone: turn,
        last_changed_control: turn,
        revealed_to: PlayerSet { one: false, two: false, three: false, four: false },
        attached_to: None,
    }
}

impl GameState {
    /// Takes card `id` out of the list, leaving a placeholder.
    pub fn take_card(&mut self, id: usize) -> (card: CardState)
        requires
            id < old(self).cards@.len(),
        ensures
            card == old(self).cards@[id as int],
            final(self).cards@ == old(self).cards@.update(id as int, final(self).cards@[id as int]),
            final(self).status == old(self).status,
            final(self).step == old(self).step,
            final(self).turn == old(self).turn,
            final(self).priority == old(self).priority,
            final(self).passed == old(self).passed,
            final(self).all_players == old(self).all_players,
            final(self).players == old(self).players,
            final(self).libraries == old(self).libraries,
            final(self).graveyards == old(self).graveyards,
            final(self).stack == old(self).stack,
            final(self).combat == old(self).combat,
            final(self).history == old(self).history,
            final(self).state_based_events == old(self).state_based_events,
            final(self).agent_search == old(self).agent_search,
            final(self).control_changing_effects == old(self).control_changing_effects,
            final(self).this_turn == old(self).this_turn,
    {
        let mut card = placeholder_card();
        self.cards.set_and_swap(id, &mut card);
        card
    }

    /// Puts `card` back as card `id`.
    pub fn put_card(&mut self, id: usize, card: CardState)
        requires
            id < old(self).cards@.len(),
        ensures
            final(self).cards@ == old(self).cards@.update(id as int, card),
            final(self).status == old(self).status,
            final(self).step == old(self).step,
            final(self).turn == old(self).turn,
            final(self).priority == old(self).priority,
            final(self).passed == old(self).passed,
            final(self).all_players == old(self).all_players,
            final(self).players == old(self).players,
            final(self).libraries == old(self).libraries,
            final(self).graveyards == old(self).graveyards,
            final(self).stack == old(self).stack,
            final(self).combat == old(self).combat,
            final(self).history == old(self).history,
            final(self).state_based_events == old(self).state_based_events,
            final(self).agent_search == old(self).agent_search,
            final(self).control_changing_effects == old(self).control_changing_effects,
            final(self).this_turn == old(self).this_turn,
    {
        self.cards.set(id, card);
    }

    /// Identifiers of the permanents `player` controls, in order.
    pub fn battlefield(&self, player: PlayerName) -> (ids: Vec<u64>)
        requires
            self.wf(),
        ensures
            ids@ == ids_where(self.cards@, self.cards@.len(), on_battlefield_of(player)),
    {
        let mut ids: Vec<u64> = Vec::new();
        let mut i: usize = 0;
        while i < self.cards.len()
            invariant
                i <= self.cards@.len(),
                ids@ == ids_where(self.cards@, i as nat, on_battlefield_of(player)),
            decreases self.cards@.len() - i,
        {
            if self.cards[i].zone == Zone::Battlefield && self.cards[i].controller == player {
                ids.push(i as u64);
            }
            i = i + 1;
        }
        ids
    }

    /// Identifiers of the cards in `player`'s hand, in order.
    pub fn hand(&self, player: PlayerName) -> (ids: Vec<u64>)
        requires
            self.wf(),
        ensures
            ids@ == ids_where(self.cards@, self.cards@.len(), in_hand_of(player)),
    {
        let mut ids: Vec<u64> = Vec::new();
        let mut i: usize = 0;
        while i < self.cards.len()
            invariant
                i <= self.cards@.len(),
                ids@ == ids_where(self.cards@, i as nat, in_hand_of(player)),
            decreases self.cards@.len() - i,
        {
            if self.cards[i].zone == Zone::Hand && self.cards[i].owner == player {
                ids.push(i as u64);
            }
            i = i + 1;
        }
        ids
    }
}

} // verus!
