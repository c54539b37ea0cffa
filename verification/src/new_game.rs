//! Decks and the creation of a new game: each player's deck becomes their
//! library, in deck order, before any card is drawn.
use crate::create_copy::copy_cost;
use crate::game_state::{
    controller_from, pending_events, CardState, DeckName, GameState, GameStatus, PlayerOptions, PlayerState,
    PlayerType, ThisTurnState,
};
use crate::move_card::{draw_sequence, drew, drew_one};
use crate::primitives::{GamePhaseStep, PlayerName, PlayerSet, TurnData, Zone};
use crate::steps::{advance, advanced, nobody, players_seated};
use vstd::prelude::*;

verus! {


/// The printed cards that the decks hold.
#[derive(Debug, Clone, Copy, PartialEq, Eq, Hash, Structural)]
pub enum PrintedCardId {
    Forest,
    GrizzlyBears,
    Gigantosaurus,
    AlpineGrizzly,
    LeatherbackBaloth,
    KalonianTusker,
    AncientBrontodon,
    GarruksGorehorn,
    GoldenBear,
    PrimordialWurm,
    Vorstclaw,
    TerrainElemental,
    OrazcaFrillback,
    SwordwiseCentaur,
    QuilledSlagwurm,
    ElvishWarrior,
    NyxbornColossus,
    RumblingBaloth,
    GrizzledOutrider,
    CentaurCourser,
    GorillaWarrior,
    SilverbackApe,
    PantherWarriors,
    FerociousZheng,
    ElvishRanger,
    EnormousBaloth,
    CrawWurm,
    BroodhunterWurm,
    AxebaneStag,
    SpinedWurm,
    ScaledWurm,
    AlphaTyrranax,
    WhiptailWurm,
    CanopyGorger,
    VastwoodGorger,
    PheresBandCentaurs,
    Island,
    Dandan,
    GiantGrowth,
    Brainstorm,
    CrystalSpray,
    DanceOfTheSkywise,
    RayOfCommand,
}

/// Number of printed cards; a card catalog has one entry for each.
pub const PRINTED_CARD_COUNT: usize = 43;

/// Position of a printed card in a card catalog.
pub open spec fn spec_catalog_index(id: PrintedCardId) -> nat {
    match id {
        PrintedCardId::Forest => 0,
        PrintedCardId::GrizzlyBears => 1,
        PrintedCardId::Gigantosaurus => 2,
        PrintedCardId::AlpineGrizzly => 3,
        PrintedCardId::LeatherbackBaloth => 4,
        PrintedCardId::KalonianTusker => 5,
        PrintedCardId::AncientBrontodon => 6,
        PrintedCardId::GarruksGorehorn => 7,
        PrintedCardId::GoldenBear => 8,
        PrintedCardId::PrimordialWurm => 9,
        PrintedCardId::Vorstclaw => 10,
        PrintedCardId::TerrainElemental => 11,
        PrintedCardId::OrazcaFrillback => 12,
        PrintedCardId::SwordwiseCentaur => 13,
        PrintedCardId::QuilledSlagwurm => 14,
        PrintedCardId::ElvishWarrior => 15,
        PrintedCardId::NyxbornColossus => 16,
        PrintedCardId::RumblingBaloth => 17,
        PrintedCardId::GrizzledOutrider => 18,
        PrintedCardId::CentaurCourser => 19,
        PrintedCardId::GorillaWarrior => 20,
        PrintedCardId::SilverbackApe => 21,
        PrintedCardId::PantherWarriors => 22,
        PrintedCardId::FerociousZheng => 23,
        PrintedCardId::ElvishRanger => 24,
        PrintedCardId::EnormousBaloth => 25,
        PrintedCardId::CrawWurm => 26,
        PrintedCardId::BroodhunterWurm => 27,
        PrintedCardId::AxebaneStag => 28,
        PrintedCardId::SpinedWurm => 29,
        PrintedCardId::ScaledWurm => 30,
        PrintedCardId::AlphaTyrranax => 31,
        PrintedCardId::WhiptailWurm => 32,
        PrintedCardId::CanopyGorger => 33,
        PrintedCardId::VastwoodGorger => 34,
        PrintedCardId::PheresBandCentaurs => 35,
        PrintedCardId::Island => 36,
        PrintedCardId::Dandan => 37,
        PrintedCardId::GiantGrowth => 38,
        PrintedCardId::Brainstorm => 39,
        PrintedCardId::CrystalSpray => 40,
        PrintedCardId::DanceOfTheSkywise => 41,
        PrintedCardId::RayOfCommand => 42,
    }
}

impl PrintedCardId {
    /// Position of this printed card in a card catalog.
    pub fn catalog_index(&self) -> (i: usize)
        ensures
            i == spec_catalog_index(*self),
            i < PRINTED_CARD_COUNT,
    {
        match self {
            PrintedCardId::Forest => 0,
            PrintedCardId::GrizzlyBears => 1,
            PrintedCardId::Gigantosaurus => 2,
            PrintedCardId::AlpineGrizzly => 3,
            PrintedCardId::LeatherbackBaloth => 4,
            PrintedCardId::KalonianTusker => 5,
            PrintedCardId::AncientBrontodon => 6,
            PrintedCardId::GarruksGorehorn => 7,
            PrintedCardId::GoldenBear => 8,
            PrintedCardId::PrimordialWurm => 9,
            PrintedCardId::Vorstclaw => 10,
            PrintedCardId::TerrainElemental => 11,
            PrintedCardId::OrazcaFrillback => 12,
            PrintedCardId::SwordwiseCentaur => 13,
            PrintedCardId::QuilledSlagwurm => 14,
            PrintedCardId::ElvishWarrior => 15,
            PrintedCardId::NyxbornColossus => 16,
            PrintedCardId::RumblingBaloth => 17,
            PrintedCardId::GrizzledOutrider => 18,
            PrintedCardId::CentaurCourser => 19,
            PrintedCardId::GorillaWarrior => 20,
            PrintedCardId::SilverbackApe => 21,
            PrintedCardId::PantherWarriors => 22,
            PrintedCardId::FerociousZheng => 23,
            PrintedCardId::ElvishRanger => 24,
            PrintedCardId::EnormousBaloth => 25,
            PrintedCardId::CrawWurm => 26,
            PrintedCardId::BroodhunterWurm => 27,
            PrintedCardId::AxebaneStag => 28,
            PrintedCardId::SpinedWurm => 29,
            PrintedCardId::ScaledWurm => 30,
            PrintedCardId::AlphaTyrranax => 31,
            PrintedCardId::WhiptailWurm => 32,
            PrintedCardId::CanopyGorger => 33,
            PrintedCardId::VastwoodGorger => 34,
            PrintedCardId::PheresBandCentaurs => 35,
            PrintedCardId::Island => 36,
            PrintedCardId::Dandan => 37,
            PrintedCardId::GiantGrowth => 38,
            PrintedCardId::Brainstorm => 39,
            PrintedCardId::CrystalSpray => 40,
            PrintedCardId::DanceOfTheSkywise => 41,
            PrintedCardId::RayOfCommand => 42,
        }
    }
}

/// A deck: each printed card with how many copies of it the deck holds.
#[derive(Debug, Clone)]
pub struct Deck {
    pub cards: Vec<(PrintedCardId, u64)>,
}

/// The contents of each deck.
pub open spec fn spec_deck(name: DeckName) -> Seq<(PrintedCardId, u64)> {
    match name {
        DeckName::GreenVanilla => seq![
            (PrintedCardId::Forest, 35u64),
            (PrintedCardId::GrizzlyBears, 1u64),
            (PrintedCardId::Gigantosaurus, 1u64),
            (PrintedCardId::AlpineGrizzly, 1u64),
            (PrintedCardId::LeatherbackBaloth, 1u64),
            (PrintedCardId::KalonianTusker, 1u64),
            (PrintedCardId::AncientBrontodon, 1u64),
            (PrintedCardId::GarruksGorehorn, 1u64),
            (PrintedCardId::GoldenBear, 1u64),
            (PrintedCardId::PrimordialWurm, 1u64),
            (PrintedCardId::Vorstclaw, 1u64),
            (PrintedCardId::TerrainElemental, 1u64),
            (PrintedCardId::OrazcaFrillback, 1u64),
            (PrintedCardId::SwordwiseCentaur, 1u64),
            (PrintedCardId::QuilledSlagwurm, 1u64),
            (PrintedCardId::ElvishWarrior, 1u64),
            (PrintedCardId::NyxbornColossus, 1u64),
            (PrintedCardId::RumblingBaloth, 1u64),
            (PrintedCardId::GrizzledOutrider, 1u64),
            (PrintedCardId::CentaurCourser, 1u64),
            (PrintedCardId::GorillaWarrior, 1u64),
            (PrintedCardId::SilverbackApe, 1u64),
            (PrintedCardId::PantherWarriors, 1u64),
            (PrintedCardId::FerociousZheng, 1u64),
            (PrintedCardId::ElvishRanger, 1u64),
            (PrintedCardId::EnormousBaloth, 1u64),
            (PrintedCardId::CrawWurm, 1u64),
            (PrintedCardId::BroodhunterWurm, 1u64),
            (PrintedCardId::AxebaneStag, 1u64),
            (PrintedCardId::SpinedWurm, 1u64),
            (PrintedCardId::ScaledWurm, 1u64),
            (PrintedCardId::AlphaTyrranax, 1u64),
            (PrintedCardId::WhiptailWurm, 1u64),
            (PrintedCardId::CanopyGorger, 1u64),
            (PrintedCardId::VastwoodGorger, 1u64),
            (PrintedCardId::PheresBandCentaurs, 1u64),
        ],
        DeckName::AllDandans => seq![
            (PrintedCardId::Island, 30u64),
            (PrintedCardId::Dandan, 30u64),
        ],
        DeckName::GrizzlyBearGiantGrowth => seq![
            (PrintedCardId::Forest, 20u64),
            (PrintedCardId::GrizzlyBears, 20u64),
            (PrintedCardId::GiantGrowth, 20u64),
        ],
        DeckName::SomeDandans => seq![
            (PrintedCardId::Island, 30u64),
            (PrintedCardId::Brainstorm, 5u64),
            (PrintedCardId::CrystalSpray, 5u64),
            (PrintedCardId::Dandan, 20u64),
            (PrintedCardId::DanceOfTheSkywise, 5u64),
            (PrintedCardId::RayOfCommand, 5u64),
        ],
        DeckName::Dandan => seq![
            (PrintedCardId::Island, 30u64),
            (PrintedCardId::CrystalSpray, 15u64),
            (PrintedCardId::Dandan, 15u64),
            (PrintedCardId::DanceOfTheSkywise, 15u64),
        ],
    }
}

/// The deck called `name`.
pub fn find_deck(name: DeckName) -> (d: Deck)
    ensures
        d.cards@ == spec_deck(name),
{
    let cards = match name {
        DeckName::GreenVanilla => vec![
                (PrintedCardId::Forest, 35u64),
                (PrintedCardId::GrizzlyBears, 1u64),
                (PrintedCardId::Gigantosaurus, 1u64),
                (PrintedCardId::AlpineGrizzly, 1u64),
                (PrintedCardId::LeatherbackBaloth, 1u64),
                (PrintedCardId::KalonianTusker, 1u64),
                (PrintedCardId::AncientBrontodon, 1u64),
                (PrintedCardId::GarruksGorehorn, 1u64),
                (PrintedCardId::GoldenBear, 1u64),
                (PrintedCardId::PrimordialWurm, 1u64),
                (PrintedCardId::Vorstclaw, 1u64),
                (PrintedCardId::TerrainElemental, 1u64),
                (PrintedCardId::OrazcaFrillback, 1u64),
                (PrintedCardId::SwordwiseCentaur, 1u64),
                (PrintedCardId::QuilledSlagwurm, 1u64),
                (PrintedCardId::ElvishWarrior, 1u64),
                (PrintedCardId::NyxbornColossus, 1u64),
                (PrintedCardId::RumblingBaloth, 1u64),
                (PrintedCardId::GrizzledOutrider, 1u64),
                (PrintedCardId::CentaurCourser, 1u64),
                (PrintedCardId::GorillaWarrior, 1u64),
                (PrintedCardId::SilverbackApe, 1u64),
                (PrintedCardId::PantherWarriors, 1u64),
                (PrintedCardId::FerociousZheng, 1u64),
                (PrintedCardId::ElvishRanger, 1u64),
                (PrintedCardId::EnormousBaloth, 1u64),
                (PrintedCardId::CrawWurm, 1u64),
                (PrintedCardId::BroodhunterWurm, 1u64),
                (PrintedCardId::AxebaneStag, 1u64),
                (PrintedCardId::SpinedWurm, 1u64),
                (PrintedCardId::ScaledWurm, 1u64),
                (PrintedCardId::AlphaTyrranax, 1u64),
                (PrintedCardId::WhiptailWurm, 1u64),
                (PrintedCardId::CanopyGorger, 1u64),
                (PrintedCardId::VastwoodGorger, 1u64),
                (PrintedCardId::PheresBandCentaurs, 1u64),
            ],
        DeckName::AllDandans => vec![
                (PrintedCardId::Island, 30u64),
                (PrintedCardId::Dandan, 30u64),
            ],
        DeckName::GrizzlyBearGiantGrowth => vec![
                (PrintedCardId::Forest, 20u64),
                (PrintedCardId::GrizzlyBears, 20u64),
                (PrintedCardId::GiantGrowth, 20u64),
            ],
        DeckName::SomeDandans => vec![
                (PrintedCardId::Island, 30u64),
                (PrintedCardId::Brainstorm, 5u64),
                (PrintedCardId::CrystalSpray, 5u64),
                (PrintedCardId::Dandan, 20u64),
                (PrintedCardId::DanceOfTheSkywise, 5u64),
                (PrintedCardId::RayOfCommand, 5u64),
            ],
        DeckName::Dandan => vec![
                (PrintedCardId::Island, 30u64),
                (PrintedCardId::CrystalSpray, 15u64),
                (PrintedCardId::Dandan, 15u64),
                (PrintedCardId::DanceOfTheSkywise, 15u64),
            ],
    };
    proof {
        assert(cards@ =~= spec_deck(name));
    }
    Deck { cards }
}

/// The printed cards of `deck`, each repeated as many times as the deck
/// holds it, in deck order.
pub open spec fn deck_cards(deck: Seq<(PrintedCardId, u64)>) -> Seq<PrintedCardId>
    decreases deck.len(),
{
    if deck.len() == 0 {
        Seq::empty()
    } else {
        deck_cards(deck.drop_last()) + Seq::new(deck.last().1 as nat, |i: int| deck.last().0)
    }
}

/// Whether `card` is made from catalog entry `template` as card `id`, owned
/// and controlled by `owner`, face down and untapped in their library since
/// `turn`, with the printed characteristics of the entry.
pub open spec fn made_from(card: CardState, template: CardState, id: u64, owner: PlayerName, turn: TurnData) -> bool {
    &&& card.id == id
    &&& card.owner == owner
    &&& card.controller == owner
    &&& card.zone == Zone::Library
    &&& !card.tapped
    &&& card.damage == 0
    &&& !card.face_up
    &&& !card.is_token
    &&& card.card_types == template.card_types
    &&& card.land_subtypes == template.land_subtypes
    &&& card.colors == template.colors
    &&& card.mana_cost@ == template.mana_cost@
    &&& card.power == template.power
    &&& card.toughness == template.toughness
    &&& card.entered_current_zone == turn
    &&& card.last_changed_control == turn
    &&& card.revealed_to == (PlayerSet { one: false, two: false, three: false, four: false })
    &&& card.attached_to is None
}

/// Whether `cards` are the cards made for the printed cards `ids` from
/// `catalog`, in order, numbered from `start`.
pub open spec fn starting_cards(
    cards: Seq<CardState>,
    catalog: Seq<CardState>,
    ids: Seq<PrintedCardId>,
    start: nat,
    owner: PlayerName,
    turn: TurnData,
) -> bool {
    &&& cards.len() == ids.len()
    &&& forall|i: int|
        0 <= i < ids.len() ==> made_from(
            #[trigger] cards[i],
            catalog[spec_catalog_index(ids[i]) as int],
            (start + i) as u64,
            owner,
            turn,
        )
}

/// The identifiers `start`, `start + 1`, ... of `n` cards.
pub open spec fn numbered(start: nat, n: nat) -> Seq<u64> {
    Seq::new(n, |i: int| (start + i) as u64)
}

/// Makes a card for each card of `deck`, owned by `owner`, and puts it on
/// top of `library`.
fn create_cards_in_deck(
    catalog: &Vec<CardState>,
    cards: &mut Vec<CardState>,
    library: &mut Vec<u64>,
    deck: &Deck,
    owner: PlayerName,
    turn: TurnData,
)
    requires
        catalog@.len() == PRINTED_CARD_COUNT,
    ensures
        final(cards)@.len() == old(cards)@.len() + deck_cards(deck.cards@).len(),
        final(cards)@.take(old(cards)@.len() as int) == old(cards)@,
        starting_cards(
            final(cards)@.skip(old(cards)@.len() as int),
            catalog@,
            deck_cards(deck.cards@),
            old(cards)@.len(),
            owner,
            turn,
        ),
        final(library)@ == old(library)@ + numbered(old(cards)@.len(), deck_cards(deck.cards@).len()),
{
    let ghost start = cards@;
    let ghost start_library = library@;
    let mut j: usize = 0;
    proof {
        assert(deck.cards@.take(0) =~= Seq::<(PrintedCardId, u64)>::empty());
        assert(cards@.take(start.len() as int) =~= start);
        assert(library@ =~= start_library + numbered(start.len(), 0));
    }
    while j < deck.cards.len()
        invariant
            catalog@.len() == PRINTED_CARD_COUNT,
            j <= deck.cards@.len(),
            cards@.len() == start.len() + deck_cards(deck.cards@.take(j as int)).len(),
            cards@.take(start.len() as int) == start,
            starting_cards(cards@.skip(start.len() as int), catalog@, deck_cards(deck.cards@.take(j as int)), start.len(), owner, turn),
            library@ == start_library + numbered(start.len(), deck_cards(deck.cards@.take(j as int)).len()),
        decreases deck.cards@.len() - j,
    {
        let (id, quantity) = deck.cards[j];
        let ghost before = deck_cards(deck.cards@.take(j as int));
        proof {
            assert(deck.cards@.take(j + 1).drop_last() =~= deck.cards@.take(j as int));
        }
        let template = &catalog[id.catalog_index()];
        let mut r: u64 = 0;
        proof {
            assert(before + Seq::new(0, |i: int| id) =~= before);
        }
        while r < quantity
            invariant
                catalog@.len() == PRINTED_CARD_COUNT,
                r <= quantity,
                *template == catalog@[spec_catalog_index(id) as int],
                cards@.len() == start.len() + before.len() + r,
                cards@.take(start.len() as int) == start,
                starting_cards(
                    cards@.skip(start.len() as int),
                    catalog@,
                    before + Seq::new(r as nat, |i: int| id),
                    start.len(),
                    owner,
                    turn,
                ),
                library@ == start_library + numbered(start.len(), (before.len() + r) as nat),
            decreases quantity - r,
        {
            let n = cards.len() as u64;
            assert(n == cards@.len());
            let card = CardState {
                id: n,
                owner,
                controller: owner,
                zone: Zone::Library,
                tapped: false,
                damage: 0,
                face_up: false,
                is_token: false,
                card_types: template.card_types,
                land_subtypes: template.land_subtypes,
                colors: template.colors,
                mana_cost: copy_cost(&template.mana_cost),
                power: template.power,
                toughness: template.toughness,
                entered_current_zone: turn,
                last_changed_control: turn,
                revealed_to: PlayerSet { one: false, two: false, three: false, four: false },
                attached_to: None,
            };
            let ghost prev = cards@;
            cards.push(card);
            library.push(n);
            proof {
                let ids = before + Seq::new((r + 1) as nat, |i: int| id);
                assert(ids =~= (before + Seq::new(r as nat, |i: int| id)).push(id));
                assert(cards@.take(start.len() as int) =~= start) by {
                    assert(prev.take(start.len() as int) == start);
                }
                assert(cards@.skip(start.len() as int) =~= prev.skip(start.len() as int).push(card));
                assert forall|i: int| 0 <= i < ids.len() implies made_from(
                    #[trigger] cards@.skip(start.len() as int)[i],
                    catalog@[spec_catalog_index(ids[i]) as int],
                    (start.len() + i) as u64,
                    owner,
                    turn,
                ) by {
                    if i < ids.len() - 1 {
                        assert(cards@.skip(start.len() as int)[i] == prev.skip(start.len() as int)[i]);
                        assert(ids[i] == (before + Seq::new(r as nat, |i: int| id))[i]);
                    }
                }
                assert(library@ =~= start_library + numbered(start.len(), (before.len() + r + 1) as nat));
            }
            r = r + 1;
        }
        proof {
            assert(deck_cards(deck.cards@.take(j + 1)) =~= before + Seq::new(quantity as nat, |i: int| id));
        }
        j = j + 1;
    }
    proof {
        assert(deck.cards@.take(j as int) =~= deck.cards@);
    }
}

/// The turn a new game starts in.
pub open spec fn first_turn() -> TurnData {
    TurnData { active_player: PlayerName::One, turn_number: 0 }
}

/// A player as a new game starts: 20 life, no land played, and options that
/// neither hold priority nor pass it automatically, with no stops.
pub open spec fn new_player(p: PlayerState) -> bool {
    &&& p.life == 20
    &&& p.lands_played == 0
    &&& !p.options.hold_priority
    &&& !p.options.auto_pass
    &&& p.options.active_turn_stops@.len() == 0
    &&& p.options.inactive_turn_stops@.len() == 0
}

/// The game as it is set up for two players of types `p1` and `p2` with
/// decks `p1_deck` and `p2_deck`, whose cards are made from `catalog`: each
/// library holds its deck's cards, in deck order, before the untap step of
/// turn 0.
pub open spec fn set_up(
    game: &GameState,
    p1: PlayerType,
    p1_deck: DeckName,
    p2: PlayerType,
    p2_deck: DeckName,
    catalog: Seq<CardState>,
) -> bool {
    let one = deck_cards(spec_deck(p1_deck));
    let two = deck_cards(spec_deck(p2_deck));
    let n = one.len();
    &&& game.cards@.len() == n + two.len()
    &&& starting_cards(game.cards@.take(n as int), catalog, one, 0, PlayerName::One, first_turn())
    &&& starting_cards(game.cards@.skip(n as int), catalog, two, n, PlayerName::Two, first_turn())
    &&& game.libraries@.len() == 4
    &&& game.libraries@[0]@ == numbered(0, n)
    &&& game.libraries@[1]@ == numbered(n, two.len())
    &&& game.libraries@[2]@.len() == 0
    &&& game.libraries@[3]@.len() == 0
    &&& game.status == GameStatus::Setup
    &&& game.step == GamePhaseStep::Untap
    &&& game.turn == first_turn()
    &&& game.priority == PlayerName::One
    &&& game.passed == nobody()
    &&& game.all_players == (PlayerSet { one: true, two: true, three: false, four: false })
    &&& game.players@.len() == 4
    &&& forall|p: int| 0 <= p < 4 ==> new_player(#[trigger] game.players@[p])
    &&& game.players@[0].player_type == p1
    &&& game.players@[0].deck_name == Some(p1_deck)
    &&& game.players@[1].player_type == p2
    &&& game.players@[1].deck_name == Some(p2_deck)
    &&& game.players@[2].player_type == PlayerType::Nobody
    &&& game.players@[2].deck_name is None
    &&& game.players@[3].player_type == PlayerType::Nobody
    &&& game.players@[3].deck_name is None
    &&& game.stack@.len() == 0
    &&& game.combat is None
    &&& game.history@.len() == 4
    &&& forall|p: int| 0 <= p < 4 ==> (#[trigger] game.history@[p])@.len() == 0
    &&& game.state_based_events is Some
    &&& pending_events(game.state_based_events).len() == 0
    &&& !game.agent_search
    &&& game.control_changing_effects@.len() == 0
    &&& game.this_turn.control_changing_effects@.len() == 0
}

/// A player as a new game starts.
fn starting_player(player_type: PlayerType, deck_name: Option<DeckName>) -> (p: PlayerState)
    ensures
        new_player(p),
        p.player_type == player_type,
        p.deck_name == deck_name,
{
    PlayerState {
        life: 20,
        lands_played: 0,
        options: PlayerOptions {
            hold_priority: false,
            auto_pass: false,
            active_turn_stops: Vec::new(),
            inactive_turn_stops: Vec::new(),
        },
        player_type,
        deck_name,
    }
}

/// Sets up a game between player one with deck `p1_deck` and player two with
/// deck `p2_deck`, each played as its player type says, making each card
/// from its entry in `catalog`.
pub fn create_game(
    p1: PlayerType,
    p1_deck: DeckName,
    p2: PlayerType,
    p2_deck: DeckName,
    catalog: &Vec<CardState>,
) -> (game: GameState)
    requires
        catalog@.len() == PRINTED_CARD_COUNT,
    ensures
        game.wf(),
        set_up(&game, p1, p1_deck, p2, p2_deck, catalog@),
{
    let d1 = find_deck(p1_deck);
    let d2 = find_deck(p2_deck);
    let turn = TurnData { active_player: PlayerName::One, turn_number: 0 };
    let mut cards: Vec<CardState> = Vec::new();
    let mut library_one: Vec<u64> = Vec::new();
    let mut library_two: Vec<u64> = Vec::new();
    create_cards_in_deck(catalog, &mut cards, &mut library_one, &d1, PlayerName::One, turn);
    let ghost after_one = cards@;
    create_cards_in_deck(catalog, &mut cards, &mut library_two, &d2, PlayerName::Two, turn);
    let libraries = vec![library_one, library_two, Vec::new(), Vec::new()];
    let players = vec![
        starting_player(p1, Some(p1_deck)),
        starting_player(p2, Some(p2_deck)),
        starting_player(PlayerType::Nobody, None),
        starting_player(PlayerType::Nobody, None),
    ];
    let history = vec![Vec::new(), Vec::new(), Vec::new(), Vec::new()];
    let game = GameState {
        status: GameStatus::Setup,
        step: GamePhaseStep::Untap,
        turn,
        priority: PlayerName::One,
        passed: PlayerSet::empty(),
        all_players: PlayerSet { one: true, two: true, three: false, four: false },
        players,
        cards,
        libraries,
        graveyards: vec![Vec::new(), Vec::new(), Vec::new(), Vec::new()],
        stack: Vec::new(),
        combat: None,
        history,
        state_based_events: Some(Vec::new()),
        agent_search: false,
        control_changing_effects: Vec::new(),
        this_turn: ThisTurnState::new(),
    };
    proof {
        let one = deck_cards(spec_deck(p1_deck));
        let two = deck_cards(spec_deck(p2_deck));
        let n = one.len();
        assert(after_one.skip(0) =~= after_one);
        assert(game.cards@.take(n as int) == after_one);
        assert(game.passed == nobody()) by {
            assert(!game.passed.has(PlayerName::One));
            assert(!game.passed.has(PlayerName::Two));
            assert(!game.passed.has(PlayerName::Three));
            assert(!game.passed.has(PlayerName::Four));
        }
        assert(game.control_changing_effects@ =~= Seq::<crate::game_state::ControlChangingEffect>::empty());
        assert forall|i: int| 0 <= i < game.cards@.len() implies #[trigger] game.cards@[i].id == i by {
            assert(game.cards@.len() == game.cards.len());
            if i < n {
                assert(game.cards@[i] == game.cards@.take(n as int)[i]);
                assert(made_from(
                    game.cards@.take(n as int)[i],
                    catalog@[spec_catalog_index(one[i]) as int],
                    (0 + i) as u64,
                    PlayerName::One,
                    first_turn(),
                ));
            } else {
                assert(game.cards@[i] == game.cards@.skip(n as int)[i - n]);
                assert(made_from(
                    game.cards@.skip(n as int)[i - n],
                    catalog@[spec_catalog_index(two[i - n]) as int],
                    (n + (i - n)) as u64,
                    PlayerName::Two,
                    first_turn(),
                ));
            }
        }
        assert forall|i: int| 0 <= i < game.cards@.len() implies #[trigger] game.cards@[i].controller
            == controller_from(game.control_changing_effects@, i as u64, game.cards@[i].owner) by {
            assert(game.cards@.len() == game.cards.len());
            if i < n {
                assert(game.cards@[i] == game.cards@.take(n as int)[i]);
                assert(made_from(
                    game.cards@.take(n as int)[i],
                    catalog@[spec_catalog_index(one[i]) as int],
                    (0 + i) as u64,
                    PlayerName::One,
                    first_turn(),
                ));
            } else {
                assert(game.cards@[i] == game.cards@.skip(n as int)[i - n]);
                assert(made_from(
                    game.cards@.skip(n as int)[i - n],
                    catalog@[spec_catalog_index(two[i - n]) as int],
                    (n + (i - n)) as u64,
                    PlayerName::Two,
                    first_turn(),
                ));
            }
            assert(game.cards@[i].controller == game.cards@[i].owner);
        }
        assert forall|p: int, i: int|
            0 <= p < 4 && 0 <= i < game.libraries@[p]@.len() implies #[trigger] game.libraries@[p]@[i]
            < game.cards@.len() by {
            if p == 0 {
                assert(game.libraries@[0]@[i] == numbered(0, n)[i]);
            } else if p == 1 {
                assert(game.libraries@[1]@[i] == numbered(n, two.len())[i]);
            }
        }
    }
    game
}

/// Drawing keeps the step, the turn, the seats and who has priority.
proof fn lemma_drawing_keeps_turn(old: &GameState, new: &GameState, player: PlayerName, n: nat)
    requires
        drew(old, new, player, n),
    ensures
        new.step == old.step,
        new.turn == old.turn,
        new.all_players == old.all_players,
        new.priority == old.priority,
{
    let states = choose|states: Seq<GameState>|
        #![trigger draw_sequence(states, player)]
        states.len() == n + 1 && states[0] == *old && states[n as int] == *new && draw_sequence(states, player);
    lemma_sequence_keeps_turn(states, player, n as int);
}

/// Every state of a sequence of draws has the first state's step, turn,
/// seats and player with priority.
proof fn lemma_sequence_keeps_turn(states: Seq<GameState>, player: PlayerName, k: int)
    requires
        draw_sequence(states, player),
        0 <= k < states.len(),
    ensures
        states[k].step == states[0].step,
        states[k].turn == states[0].turn,
        states[k].all_players == states[0].all_players,
        states[k].priority == states[0].priority,
    decreases k,
{
    if k > 0 {
        lemma_sequence_keeps_turn(states, player, k - 1);
        assert(drew_one(&states[k - 1], &states[k], player));
    }
}

/// The game after opening hands are drawn and play begins: player one and
/// then player two draw seven cards, the game is being played, and it moves
/// on to its first step.
pub open spec fn started(old: &GameState, new: &GameState) -> bool {
    exists|one: GameState, two: GameState|
        #![trigger drew(old, &one, PlayerName::One, 7), drew(&one, &two, PlayerName::Two, 7)]
        drew(old, &one, PlayerName::One, 7) && drew(&one, &two, PlayerName::Two, 7) && advanced(
            &GameState { status: GameStatus::Playing, ..two },
            new,
        )
}

/// Draws opening hands and begins play in a game that was set up and whose
/// libraries are in the order to draw from.
#[verifier::rlimit(40)]
pub fn start_game(game: &mut GameState)
    requires
        old(game).wf(),
        players_seated(old(game)),
        old(game).step == GamePhaseStep::Untap,
    ensures
        final(game).wf(),
        players_seated(final(game)),
        started(old(game), final(game)),
{
    crate::move_card::draw_cards(game, PlayerName::One, 7);
    let ghost one = *game;
    crate::move_card::draw_cards(game, PlayerName::Two, 7);
    let ghost two = *game;
    game.status = GameStatus::Playing;
    proof {
        lemma_drawing_keeps_turn(old(game), &one, PlayerName::One, 7);
        lemma_drawing_keeps_turn(&one, &two, PlayerName::Two, 7);
        assert(*game == (GameState { status: GameStatus::Playing, ..two }));
    }
    advance(game);
    proof {
        assert(drew(old(game), &one, PlayerName::One, 7));
        assert(drew(&one, &two, PlayerName::Two, 7));
    }
}

} // verus!
