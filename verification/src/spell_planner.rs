//! Planning how to pay a card's mana cost with the basic land types of the
//! lands its controller has untapped.
use crate::card_parser::{ManaColor, ManaCostItem};
use crate::game_state::{spec_card_types, CardState, GameState};
use crate::primitives::{LandSubtypes, LandType, PlayerName, Zone};
use vstd::prelude::*;

verus! {

/// The lands to tap for mana, in order.
#[derive(Debug, Clone)]
pub struct ManaPaymentPlan {
    pub basic_land_abilities_to_activate: Vec<u64>,
}

/// Position of a color in the order white, blue, black, red, green.
pub open spec fn color_index(color: ManaColor) -> nat {
    match color {
        ManaColor::White => 0,
        ManaColor::Blue => 1,
        ManaColor::Black => 2,
        ManaColor::Red => 3,
        ManaColor::Green => 4,
    }
}

/// The basic land type that makes mana of each color, by color position.
pub open spec fn land_type_for(i: nat) -> LandType {
    if i == 0 {
        LandType::Plains
    } else if i == 1 {
        LandType::Island
    } else if i == 2 {
        LandType::Swamp
    } else if i == 3 {
        LandType::Mountain
    } else {
        LandType::Forest
    }
}

/// The land types a card has where it is: none while face down on the
/// battlefield.
pub open spec fn spec_land_subtypes(card: CardState) -> LandSubtypes {
    if card.zone == Zone::Battlefield && !card.face_up {
        LandSubtypes { plains: false, island: false, swamp: false, mountain: false, forest: false, others: 0 }
    } else {
        card.land_subtypes
    }
}

/// Untapped permanents of `player` among the first `n` cards that have land
/// type `t`, each with its number of land types, in card order.
pub open spec fn lands_with_type(cards: Seq<CardState>, player: PlayerName, t: LandType, n: nat) -> Seq<
    (u64, usize),
>
    decreases n,
{
    if n == 0 {
        Seq::empty()
    } else {
        let c = cards[n - 1];
        lands_with_type(cards, player, t, (n - 1) as nat) + (if c.zone == Zone::Battlefield
            && c.controller == player && !c.tapped && spec_land_subtypes(c).has(t) {
            seq![((n - 1) as u64, spec_land_subtypes(c).count() as usize)]
        } else {
            Seq::empty()
        })
    }
}

/// For each color, the lands of `player` that can make it.
pub open spec fn land_lists(game: &GameState, player: PlayerName) -> Seq<Seq<(u64, usize)>> {
    Seq::new(5, |i: int| lands_with_type(game.cards@, player, land_type_for(i as nat), game.cards@.len()))
}

/// Position of the first land with the fewest land types.
pub open spec fn fewest_index(list: Seq<(u64, usize)>) -> nat
    decreases list.len(),
{
    if list.len() <= 1 {
        0
    } else {
        let i = fewest_index(list.drop_last());
        if list.last().1 < list[i as int].1 {
            (list.len() - 1) as nat
        } else {
            i
        }
    }
}

/// The color with the most lands available, the later color on ties.
pub open spec fn most_index(lists: Seq<Seq<(u64, usize)>>, n: nat) -> nat
    decreases n,
{
    if n <= 1 {
        0
    } else {
        let i = most_index(lists, (n - 1) as nat);
        if lists[n - 1].len() >= lists[i as int].len() {
            (n - 1) as nat
        } else {
            i
        }
    }
}

/// The color whose lands pay for `item`, if any land can.
pub open spec fn color_for_item(lists: Seq<Seq<(u64, usize)>>, item: ManaCostItem) -> Option<nat> {
    match item {
        ManaCostItem::Colored(c) => if lists[color_index(c) as int].len() > 0 {
            Some(color_index(c))
        } else {
            None
        },
        ManaCostItem::Generic => if lists[most_index(lists, 5) as int].len() > 0 {
            Some(most_index(lists, 5))
        } else {
            None
        },
    }
}

/// `list` without the entries for land `id`.
pub open spec fn without_land(list: Seq<(u64, usize)>, id: u64) -> Seq<(u64, usize)>
    decreases list.len(),
{
    if list.len() == 0 {
        Seq::empty()
    } else {
        let rest = without_land(list.drop_last(), id);
        if list.last().0 == id {
            rest
        } else {
            rest.push(list.last())
        }
    }
}

/// Every list without the entries for land `id`.
pub open spec fn lists_without(lists: Seq<Seq<(u64, usize)>>, id: u64) -> Seq<Seq<(u64, usize)>> {
    Seq::new(lists.len(), |d: int| without_land(lists[d], id))
}

/// The lands tapped to pay `items` in order: a colored symbol takes a land of
/// its color, a generic symbol one of the color with the most lands left;
/// within a color, the land with the fewest land types goes first, and a
/// land once taken is no longer available for any color. `None` when some
/// symbol cannot be paid.
pub open spec fn payment(lists: Seq<Seq<(u64, usize)>>, items: Seq<ManaCostItem>) -> Option<Seq<u64>>
    decreases items.len(),
{
    if items.len() == 0 {
        Some(Seq::empty())
    } else {
        match color_for_item(lists, items[0]) {
            None => None,
            Some(c) => {
                let list = lists[c as int];
                let k = fewest_index(list);
                let rest = lists_without(lists, list[k as int].0);
                match payment(rest, items.drop_first()) {
                    Some(lands) => Some(seq![list[k as int].0] + lands),
                    None => None,
                }
            },
        }
    }
}

/// Number of `item` symbols in `items`.
pub open spec fn count_item(items: Seq<ManaCostItem>, item: ManaCostItem) -> nat
    decreases items.len(),
{
    if items.len() == 0 {
        0
    } else {
        count_item(items.drop_last(), item) + (if items.last() == item {
            1nat
        } else {
            0
        })
    }
}

/// `items` in sorted order: colored symbols white, blue, black, red, green,
/// then generic.
pub open spec fn sorted_cost(items: Seq<ManaCostItem>) -> Seq<ManaCostItem> {
    Seq::new(count_item(items, ManaCostItem::Colored(ManaColor::White)), |i: int| ManaCostItem::Colored(ManaColor::White))
        + Seq::new(count_item(items, ManaCostItem::Colored(ManaColor::Blue)), |i: int| ManaCostItem::Colored(ManaColor::Blue))
        + Seq::new(count_item(items, ManaCostItem::Colored(ManaColor::Black)), |i: int| ManaCostItem::Colored(ManaColor::Black))
        + Seq::new(count_item(items, ManaCostItem::Colored(ManaColor::Red)), |i: int| ManaCostItem::Colored(ManaColor::Red))
        + Seq::new(count_item(items, ManaCostItem::Colored(ManaColor::Green)), |i: int| ManaCostItem::Colored(ManaColor::Green))
        + Seq::new(count_item(items, ManaCostItem::Generic), |i: int| ManaCostItem::Generic)
}

/// The mana cost of card `id`, sorted.
pub fn mana_cost_for_casting_card(game: &GameState, id: u64) -> (cost: Option<Vec<ManaCostItem>>)
    requires
        game.wf(),
    ensures
        cost is None <==> id >= game.cards@.len(),
        cost matches Some(c) ==> c@ == sorted_cost(game.cards@[id as int].mana_cost@),
{
    let card = match game.card(id) {
        Some(c) => c,
        None => {
            return None;
        },
    };
    let items = &card.mana_cost;
    let kinds = [
        ManaCostItem::Colored(ManaColor::White),
        ManaCostItem::Colored(ManaColor::Blue),
        ManaCostItem::Colored(ManaColor::Black),
        ManaCostItem::Colored(ManaColor::Red),
        ManaCostItem::Colored(ManaColor::Green),
        ManaCostItem::Generic,
    ];
    let mut sorted: Vec<ManaCostItem> = Vec::new();
    let mut k: usize = 0;
    while k < 6
        invariant
            k <= 6,
            kinds@ == seq![
                ManaCostItem::Colored(ManaColor::White),
                ManaCostItem::Colored(ManaColor::Blue),
                ManaCostItem::Colored(ManaColor::Black),
                ManaCostItem::Colored(ManaColor::Red),
                ManaCostItem::Colored(ManaColor::Green),
                ManaCostItem::Generic,
            ],
            sorted@ == sorted_prefix(items@, kinds@, k as nat),
        decreases 6 - k,
    {
        let kind = kinds[k];
        let ghost before = sorted@;
        let mut i: usize = 0;
        while i < items.len()
            invariant
                i <= items@.len(),
                sorted@ == before + Seq::new(count_item(items@.take(i as int), kind), |j: int| kind),
            decreases items@.len() - i,
        {
            proof {
                assert(items@.take(i + 1).drop_last() =~= items@.take(i as int));
            }
            if items[i] == kind {
                sorted.push(kind);
            }
            proof {
                assert(sorted@ =~= before + Seq::new(count_item(items@.take(i + 1), kind), |j: int| kind));
            }
            i = i + 1;
        }
        proof {
            assert(items@.take(i as int) =~= items@);
            assert(sorted@ =~= sorted_prefix(items@, kinds@, (k + 1) as nat));
        }
        k = k + 1;
    }
    proof {
        reveal_with_fuel(sorted_prefix, 7);
        assert(sorted@ =~= sorted_cost(items@));
    }
    Some(sorted)
}

/// Symbols of the first `k` kinds of `kinds`, each repeated as often as it
/// occurs in `items`.
pub open spec fn sorted_prefix(items: Seq<ManaCostItem>, kinds: Seq<ManaCostItem>, k: nat) -> Seq<ManaCostItem>
    decreases k,
{
    if k == 0 {
        Seq::empty()
    } else {
        sorted_prefix(items, kinds, (k - 1) as nat) + Seq::new(count_item(items, kinds[k - 1]), |j: int| kinds[k - 1])
    }
}

/// `list` without the entries for land `id`.
fn filter_land(list: &Vec<(u64, usize)>, id: u64) -> (kept: Vec<(u64, usize)>)
    ensures
        kept@ == without_land(list@, id),
{
    let mut kept: Vec<(u64, usize)> = Vec::new();
    let mut i: usize = 0;
    proof {
        assert(list@.take(0) =~= Seq::<(u64, usize)>::empty());
    }
    while i < list.len()
        invariant
            i <= list@.len(),
            kept@ == without_land(list@.take(i as int), id),
        decreases list@.len() - i,
    {
        proof {
            assert(list@.take(i + 1).drop_last() =~= list@.take(i as int));
        }
        if list[i].0 != id {
            kept.push(list[i]);
        }
        i = i + 1;
    }
    proof {
        assert(list@.take(i as int) =~= list@);
    }
    kept
}

/// For each color, the lands that can make it, with their number of land
/// types.
pub struct LandLists {
    pub white: Vec<(u64, usize)>,
    pub blue: Vec<(u64, usize)>,
    pub black: Vec<(u64, usize)>,
    pub red: Vec<(u64, usize)>,
    pub green: Vec<(u64, usize)>,
}

impl LandLists {
    /// The lists, by color position.
    pub open spec fn view(&self) -> Seq<Seq<(u64, usize)>> {
        seq![self.white@, self.blue@, self.black@, self.red@, self.green@]
    }

    /// Number of lands of color `i`.
    fn len_of(&self, i: usize) -> (n: usize)
        requires
            i < 5,
        ensures
            n == self@[i as int].len(),
    {
        match i {
            0 => self.white.len(),
            1 => self.blue.len(),
            2 => self.black.len(),
            3 => self.red.len(),
            _ => self.green.len(),
        }
    }

    /// The land at position `k` among the lands of color `i`.
    fn land_at(&self, i: usize, k: usize) -> (land: (u64, usize))
        requires
            i < 5,
            k < self@[i as int].len(),
        ensures
            land == self@[i as int][k as int],
    {
        match i {
            0 => self.white[k],
            1 => self.blue[k],
            2 => self.black[k],
            3 => self.red[k],
            _ => self.green[k],
        }
    }

    /// Takes land `id` out of the lands of every color.
    fn remove_land(&mut self, id: u64)
        ensures
            final(self)@ == lists_without(old(self)@, id),
    {
        self.white = filter_land(&self.white, id);
        self.blue = filter_land(&self.blue, id);
        self.black = filter_land(&self.black, id);
        self.red = filter_land(&self.red, id);
        self.green = filter_land(&self.green, id);
        proof {
            assert(self@ =~= lists_without(old(self)@, id));
        }
    }

    /// Position of the first land with the fewest land types among those of
    /// color `i`.
    fn fewest(&self, i: usize) -> (k: usize)
        requires
            i < 5,
        ensures
            k == fewest_index(self@[i as int]),
            self@[i as int].len() > 0 ==> k < self@[i as int].len(),
    {
        let list = match i {
            0 => &self.white,
            1 => &self.blue,
            2 => &self.black,
            3 => &self.red,
            _ => &self.green,
        };
        assert(list@ == self@[i as int]);
        if list.len() <= 1 {
            return 0;
        }
        let mut best: usize = 0;
        let mut j: usize = 1;
        while j < list.len()
            invariant
                1 <= j <= list@.len(),
                best == fewest_index(list@.take(j as int)),
                best < j,
            decreases list@.len() - j,
        {
            proof {
                assert(list@.take(j + 1).drop_last() =~= list@.take(j as int));
                assert(list@.take(j + 1)[best as int] == list@[best as int]);
            }
            if list[j].1 < list[best].1 {
                best = j;
            }
            j = j + 1;
        }
        proof {
            assert(list@.take(j as int) =~= list@);
        }
        best
    }

    /// The color with the most lands, the later color on ties.
    fn most(&self) -> (i: usize)
        ensures
            i == most_index(self@, 5),
            i < 5,
    {
        let mut best: usize = 0;
        let mut j: usize = 1;
        while j < 5
            invariant
                1 <= j <= 5,
                best == most_index(self@, j as nat),
                best < j,
            decreases 5 - j,
        {
            if self.len_of(j) >= self.len_of(best) {
                best = j;
            }
            j = j + 1;
        }
        best
    }
}

/// Collects the untapped lands of `player` having land type `t`.
fn collect_lands(game: &GameState, player: PlayerName, t: LandType) -> (lands: Vec<(u64, usize)>)
    requires
        game.wf(),
    ensures
        lands@ == lands_with_type(game.cards@, player, t, game.cards@.len()),
{
    let mut lands: Vec<(u64, usize)> = Vec::new();
    let mut i: usize = 0;
    while i < game.cards.len()
        invariant
            game.wf(),
            i <= game.cards@.len(),
            lands@ == lands_with_type(game.cards@, player, t, i as nat),
        decreases game.cards@.len() - i,
    {
        let card = &game.cards[i];
        if card.zone == Zone::Battlefield && card.controller == player && !card.tapped {
            let subtypes = if !card.face_up {
                LandSubtypes { plains: false, island: false, swamp: false, mountain: false, forest: false, others: 0 }
            } else {
                card.land_subtypes
            };
            if subtypes.contains(t) {
                lands.push((i as u64, subtypes.len()));
            }
        }
        i = i + 1;
    }
    lands
}

/// The lands of `player` that can make each color.
fn land_map(game: &GameState, player: PlayerName) -> (lists: LandLists)
    requires
        game.wf(),
    ensures
        lists@ == land_lists(game, player),
{
    let lists = LandLists {
        white: collect_lands(game, player, LandType::Plains),
        blue: collect_lands(game, player, LandType::Island),
        black: collect_lands(game, player, LandType::Swamp),
        red: collect_lands(game, player, LandType::Mountain),
        green: collect_lands(game, player, LandType::Forest),
    };
    proof {
        assert(lists@ =~= land_lists(game, player));
    }
    lists
}

/// Color position of `color`.
fn color_position(color: ManaColor) -> (i: usize)
    ensures
        i == color_index(color),
{
    match color {
        ManaColor::White => 0,
        ManaColor::Blue => 1,
        ManaColor::Black => 2,
        ManaColor::Red => 3,
        ManaColor::Green => 4,
    }
}

/// Takes a land of the color that pays for `item` and adds it to `result`;
/// `None`, with nothing changed, when no land can pay for it.
fn add_land_for_item(result: &mut Vec<u64>, lands: &mut LandLists, item: ManaCostItem) -> (ok: Option<()>)
    ensures
        match color_for_item(old(lands)@, item) {
            None => ok is None && final(lands)@ == old(lands)@ && final(result)@ == old(result)@,
            Some(c) => {
                let list = old(lands)@[c as int];
                let k = fewest_index(list);
                &&& ok is Some
                &&& final(result)@ == old(result)@.push(list[k as int].0)
                &&& final(lands)@ == lists_without(old(lands)@, list[k as int].0)
            },
        },
{
    let color = match item {
        ManaCostItem::Colored(c) => color_position(c),
        ManaCostItem::Generic => lands.most(),
    };
    if lands.len_of(color) == 0 {
        return None;
    }
    let k = lands.fewest(color);
    let land = lands.land_at(color, k);
    lands.remove_land(land.0);
    result.push(land.0);
    Some(())
}

/// The spec of a mana payment plan for card `card_id`.
pub open spec fn spec_mana_payment(game: &GameState, card_id: u64) -> Option<Seq<u64>> {
    if card_id < game.cards@.len() {
        payment(
            land_lists(game, game.cards@[card_id as int].controller),
            sorted_cost(game.cards@[card_id as int].mana_cost@),
        )
    } else {
        None
    }
}

/// Plans which basic lands the controller of card `card_id` taps to pay its
/// mana cost, or `None` if the card does not exist or the cost cannot be
/// paid. A plan taps one land per symbol of the sorted cost, each an
/// untapped land of the controller that makes the mana its symbol needs, and
/// never the same land twice.
pub fn mana_payment(game: &GameState, card_id: u64) -> (plan: Option<ManaPaymentPlan>)
    requires
        game.wf(),
    ensures
        match plan {
            Some(p) => spec_mana_payment(game, card_id) == Some(p.basic_land_abilities_to_activate@),
            None => spec_mana_payment(game, card_id) is None,
        },
        plan matches Some(p) ==> ({
            let card = game.cards@[card_id as int];
            let items = sorted_cost(card.mana_cost@);
            let lands = p.basic_land_abilities_to_activate@;
            &&& lands.len() == items.len()
            &&& forall|i: int| 0 <= i < items.len() ==> pays_for(game.cards@, card.controller, #[trigger] lands[i], items[i])
            &&& lands.no_duplicates()
        }),
{
    let controller = match game.card(card_id) {
        Some(c) => c.controller,
        None => {
            return None;
        },
    };
    let mut lists = land_map(game, controller);
    let cost = match mana_cost_for_casting_card(game, card_id) {
        Some(c) => c,
        None => {
            return None;
        },
    };
    let ghost initial = lists@;
    let ghost target = spec_mana_payment(game, card_id);
    assert(target == payment(initial, cost@));
    let mut lands: Vec<u64> = Vec::new();
    let mut i: usize = 0;
    proof {
        assert(cost@.skip(0) =~= cost@);
        assert(lands@ + Seq::<u64>::empty() =~= lands@);
    }
    while i < cost.len()
        invariant
            i <= cost@.len(),
            lists@.len() == 5,
            target == payment(initial, cost@),
            target == spec_mana_payment(game, card_id),
            payment(initial, cost@) == match payment(lists@, cost@.skip(i as int)) {
                Some(rest) => Some(lands@ + rest),
                None => None,
            },
        decreases cost@.len() - i,
    {
        let item = cost[i];
        let ghost items = cost@.skip(i as int);
        let ghost before = lands@;
        let ghost lists_before = lists@;
        proof {
            assert(items[0] == item);
            assert(items.drop_first() =~= cost@.skip(i + 1));
        }
        if add_land_for_item(&mut lands, &mut lists, item).is_none() {
            proof {
                assert(payment(lists_before, items) is None);
            }
            return None;
        }
        proof {
            let c = color_for_item(lists_before, item)->0;
            let land = lists_before[c as int][fewest_index(lists_before[c as int]) as int].0;
            match payment(lists@, cost@.skip(i + 1)) {
                Some(rest) => {
                    assert(lands@ + rest =~= before + (seq![land] + rest));
                },
                None => {},
            }
        }
        i = i + 1;
    }
    proof {
        assert(cost@.skip(i as int) =~= Seq::<ManaCostItem>::empty());
        assert(lands@ + Seq::<u64>::empty() =~= lands@);
        law_payment_matches_cost(game, card_id);
    }
    Some(ManaPaymentPlan { basic_land_abilities_to_activate: lands })
}

/// Whether card `id` is an untapped land that `player` controls on the
/// battlefield with land type `t`.
pub open spec fn usable_land(cards: Seq<CardState>, player: PlayerName, id: u64, t: LandType) -> bool {
    &&& id < cards.len()
    &&& cards[id as int].zone == Zone::Battlefield
    &&& cards[id as int].controller == player
    &&& !cards[id as int].tapped
    &&& spec_land_subtypes(cards[id as int]).has(t)
}

/// Whether tapping land `land` pays for `item`: a colored symbol needs a
/// land of its color's basic type, a generic symbol any basic type.
pub open spec fn pays_for(cards: Seq<CardState>, player: PlayerName, land: u64, item: ManaCostItem) -> bool {
    match item {
        ManaCostItem::Colored(c) => usable_land(cards, player, land, land_type_for(color_index(c))),
        ManaCostItem::Generic => exists|i: nat| i < 5 && #[trigger] usable_land(cards, player, land, land_type_for(i)),
    }
}

/// Every land listed under a color can make that color.
pub open spec fn lists_usable(cards: Seq<CardState>, player: PlayerName, lists: Seq<Seq<(u64, usize)>>) -> bool {
    &&& lists.len() == 5
    &&& forall|c: int, j: int|
        0 <= c < 5 && 0 <= j < lists[c].len() ==> usable_land(cards, player, #[trigger] lists[c][j].0, land_type_for(c as nat))
}

/// The land with the fewest types is one of the lands.
proof fn lemma_fewest_index(list: Seq<(u64, usize)>)
    requires
        list.len() > 0,
    ensures
        fewest_index(list) < list.len(),
    decreases list.len(),
{
    if list.len() > 1 {
        lemma_fewest_index(list.drop_last());
    }
}

/// The color with the most lands is one of the first `n` colors.
proof fn lemma_most_index(lists: Seq<Seq<(u64, usize)>>, n: nat)
    requires
        n > 0,
    ensures
        most_index(lists, n) < n,
    decreases n,
{
    if n > 1 {
        lemma_most_index(lists, (n - 1) as nat);
    }
}

/// Listed lands of `player` are usable lands of their color.
proof fn lemma_lands_with_type_usable(cards: Seq<CardState>, player: PlayerName, t: LandType, n: nat, j: int)
    requires
        n <= cards.len(),
        cards.len() <= u64::MAX,
        0 <= j < lands_with_type(cards, player, t, n).len(),
    ensures
        usable_land(cards, player, lands_with_type(cards, player, t, n)[j].0, t),
    decreases n,
{
    if n > 0 {
        let prefix = lands_with_type(cards, player, t, (n - 1) as nat);
        if j < prefix.len() {
            lemma_lands_with_type_usable(cards, player, t, (n - 1) as nat, j);
        } else {
            assert(((n - 1) as u64) as int == n - 1);
        }
    }
}

/// Every entry left after taking out land `id` was in the list, and is for
/// another land.
proof fn lemma_without_land_from(list: Seq<(u64, usize)>, id: u64, j: int)
    requires
        0 <= j < without_land(list, id).len(),
    ensures
        exists|m: int| 0 <= m < list.len() && list[m] == without_land(list, id)[j],
        without_land(list, id)[j].0 != id,
    decreases list.len(),
{
    let rest = without_land(list.drop_last(), id);
    if j < rest.len() {
        lemma_without_land_from(list.drop_last(), id, j);
        let m = choose|m: int| 0 <= m < list.drop_last().len() && list.drop_last()[m] == rest[j];
        assert(list[m] == without_land(list, id)[j]);
    } else {
        assert(list[list.len() - 1] == without_land(list, id)[j]);
    }
}

/// Whether land `id` is listed under some color of `lists`.
pub open spec fn listed(lists: Seq<Seq<(u64, usize)>>, id: u64) -> bool {
    exists|d: int, j: int| 0 <= d < lists.len() && 0 <= j < lists[d].len() && #[trigger] lists[d][j].0 == id
}

/// The lands of a payment are listed, and none is tapped twice.
proof fn lemma_payment_distinct(lists: Seq<Seq<(u64, usize)>>, items: Seq<ManaCostItem>)
    requires
        lists.len() == 5,
        payment(lists, items) is Some,
    ensures
        payment(lists, items).unwrap().no_duplicates(),
        forall|i: int| 0 <= i < payment(lists, items).unwrap().len() ==> listed(lists, #[trigger] payment(lists, items).unwrap()[i]),
    decreases items.len(),
{
    if items.len() > 0 {
        let c = color_for_item(lists, items[0]).unwrap();
        lemma_most_index(lists, 5);
        let list = lists[c as int];
        lemma_fewest_index(list);
        let k = fewest_index(list);
        let land = list[k as int].0;
        let rest = lists_without(lists, land);
        lemma_payment_distinct(rest, items.drop_first());
        let tail = payment(rest, items.drop_first()).unwrap();
        let lands = payment(lists, items).unwrap();
        assert(lands == seq![land] + tail);
        assert forall|i: int| 0 <= i < tail.len() implies #[trigger] tail[i] != land && listed(lists, tail[i]) by {
            assert(listed(rest, tail[i]));
            let (d, j) = choose|d: int, j: int| 0 <= d < rest.len() && 0 <= j < rest[d].len() && #[trigger] rest[d][j].0 == tail[i];
            lemma_without_land_from(lists[d], land, j);
            let m = choose|m: int| 0 <= m < lists[d].len() && lists[d][m] == rest[d][j];
            assert(lists[d][m].0 == tail[i]);
        }
        assert forall|i: int| 0 <= i < lands.len() implies listed(lists, #[trigger] lands[i]) by {
            if i == 0 {
                assert(lists[c as int][k as int].0 == lands[0]);
            } else {
                assert(lands[i] == tail[i - 1]);
            }
        }
        assert forall|i: int, j: int| 0 <= i < lands.len() && 0 <= j < lands.len() && i != j implies lands[i]
            != lands[j] by {
            if i == 0 {
                assert(lands[j] == tail[j - 1]);
            } else if j == 0 {
                assert(lands[i] == tail[i - 1]);
            } else {
                assert(lands[i] == tail[i - 1]);
                assert(lands[j] == tail[j - 1]);
            }
        }
    }
}

/// Paying `items` from lands that can make their colors taps one land per
/// symbol, each of which pays for its symbol.
proof fn lemma_payment_pays(cards: Seq<CardState>, player: PlayerName, lists: Seq<Seq<(u64, usize)>>, items: Seq<ManaCostItem>)
    requires
        lists_usable(cards, player, lists),
        payment(lists, items) is Some,
    ensures
        payment(lists, items).unwrap().len() == items.len(),
        forall|i: int|
            0 <= i < items.len() ==> pays_for(cards, player, #[trigger] payment(lists, items).unwrap()[i], items[i]),
    decreases items.len(),
{
    if items.len() > 0 {
        let c = color_for_item(lists, items[0]).unwrap();
        lemma_most_index(lists, 5);
        assert(c < 5);
        let list = lists[c as int];
        assert(list.len() > 0);
        lemma_fewest_index(list);
        let k = fewest_index(list);
        let land = list[k as int].0;
        let rest = lists_without(lists, land);
        assert forall|d: int, j: int| 0 <= d < 5 && 0 <= j < rest[d].len() implies usable_land(
            cards,
            player,
            #[trigger] rest[d][j].0,
            land_type_for(d as nat),
        ) by {
            lemma_without_land_from(lists[d], land, j);
            let m = choose|m: int| 0 <= m < lists[d].len() && lists[d][m] == rest[d][j];
            assert(usable_land(cards, player, lists[d][m].0, land_type_for(d as nat)));
        }
        lemma_payment_pays(cards, player, rest, items.drop_first());
        let lands = payment(lists, items).unwrap();
        let tail = payment(rest, items.drop_first()).unwrap();
        assert(lands == seq![list[k as int].0] + tail);
        assert(usable_land(cards, player, list[k as int].0, land_type_for(c)));
        assert forall|i: int| 0 <= i < items.len() implies pays_for(cards, player, #[trigger] lands[i], items[i]) by {
            if i == 0 {
                match items[0] {
                    ManaCostItem::Colored(col) => {},
                    ManaCostItem::Generic => {
                        assert(usable_land(cards, player, lands[0], land_type_for(c)));
                    },
                }
            } else {
                assert(lands[i] == tail[i - 1]);
                assert(items[i] == items.drop_first()[i - 1]);
            }
        }
    }
}

/// A card's mana is paid with one land per symbol of its sorted cost, each
/// an untapped land its controller controls that makes the mana its symbol
/// needs, and no land is tapped twice.
pub proof fn law_payment_matches_cost(game: &GameState, card_id: u64)
    requires
        spec_mana_payment(game, card_id) is Some,
    ensures
        ({
            let card = game.cards@[card_id as int];
            let items = sorted_cost(card.mana_cost@);
            let lands = spec_mana_payment(game, card_id).unwrap();
            &&& lands.len() == items.len()
            &&& forall|i: int| 0 <= i < items.len() ==> pays_for(game.cards@, card.controller, #[trigger] lands[i], items[i])
            &&& lands.no_duplicates()
        }),
{
    let card = game.cards@[card_id as int];
    let lists = land_lists(game, card.controller);
    assert(game.cards@.len() == game.cards.len());
    assert forall|c: int, j: int| 0 <= c < 5 && 0 <= j < lists[c].len() implies usable_land(
        game.cards@,
        card.controller,
        #[trigger] lists[c][j].0,
        land_type_for(c as nat),
    ) by {
        lemma_lands_with_type_usable(game.cards@, card.controller, land_type_for(c as nat), game.cards@.len(), j);
    }
    lemma_payment_pays(game.cards@, card.controller, lists, sorted_cost(card.mana_cost@));
    lemma_payment_distinct(lists, sorted_cost(card.mana_cost@));
}

/// No land is listed twice in `list`.
pub open spec fn ids_distinct(list: Seq<(u64, usize)>) -> bool {
    forall|i: int, j: int| 0 <= i < j < list.len() ==> #[trigger] list[i].0 != #[trigger] list[j].0
}

/// The untapped lands of one basic land type are listed once each, with
/// identifiers below the number of cards looked at.
proof fn lemma_lands_with_type_distinct(cards: Seq<CardState>, player: PlayerName, t: LandType, n: nat)
    requires
        n <= cards.len(),
        cards.len() <= u64::MAX,
    ensures
        ids_distinct(lands_with_type(cards, player, t, n)),
        forall|i: int|
            0 <= i < lands_with_type(cards, player, t, n).len() ==> #[trigger] lands_with_type(cards, player, t, n)[i].0
                < n,
    decreases n,
{
    if n > 0 {
        lemma_lands_with_type_distinct(cards, player, t, (n - 1) as nat);
        let prev = lands_with_type(cards, player, t, (n - 1) as nat);
        let all = lands_with_type(cards, player, t, n);
        assert forall|i: int| 0 <= i < all.len() implies #[trigger] all[i].0 < n by {
            if i < prev.len() {
                assert(all[i] == prev[i]);
            } else {
                assert(((n - 1) as u64) as int == n - 1);
            }
        }
        assert forall|i: int, j: int| 0 <= i < j < all.len() implies #[trigger] all[i].0 != #[trigger] all[j].0 by {
            if j < prev.len() {
                assert(all[i] == prev[i] && all[j] == prev[j]);
            } else {
                assert(all[i] == prev[i]);
                assert(((n - 1) as u64) as int == n - 1);
            }
        }
    }
}

/// Taking out a land that is not listed changes nothing.
proof fn lemma_without_absent(list: Seq<(u64, usize)>, id: u64)
    requires
        forall|k: int| 0 <= k < list.len() ==> #[trigger] list[k].0 != id,
    ensures
        without_land(list, id) == list,
    decreases list.len(),
{
    if list.len() > 0 {
        assert(forall|k: int| 0 <= k < list.drop_last().len() ==> list.drop_last()[k] == list[k]);
        lemma_without_absent(list.drop_last(), id);
        assert(list[list.len() - 1] == list.last());
        assert(list.drop_last().push(list.last()) =~= list);
    }
}

/// Taking out a land listed once shortens the list by one, and keeps every
/// land listed once.
proof fn lemma_without_once(list: Seq<(u64, usize)>, id: u64)
    requires
        ids_distinct(list),
    ensures
        ids_distinct(without_land(list, id)),
        (exists|k: int| 0 <= k < list.len() && list[k].0 == id) ==> without_land(list, id).len() == list.len() - 1,
    decreases list.len(),
{
    if list.len() > 0 {
        let d = list.drop_last();
        let last = list.last();
        assert(list[list.len() - 1] == last);
        assert(forall|k: int| 0 <= k < d.len() ==> d[k] == list[k]);
        lemma_without_once(d, id);
        let w = without_land(d, id);
        if last.0 != id {
            assert forall|i: int, j: int| 0 <= i < j < w.push(last).len() implies #[trigger] w.push(last)[i].0
                != #[trigger] w.push(last)[j].0 by {
                if j == w.len() {
                    lemma_without_land_from(d, id, i);
                    let m = choose|m: int| 0 <= m < d.len() && d[m] == w[i];
                    assert(list[m].0 != list[list.len() - 1].0);
                } else {
                    assert(w.push(last)[i] == w[i] && w.push(last)[j] == w[j]);
                }
            }
            if exists|k: int| 0 <= k < list.len() && list[k].0 == id {
                let k = choose|k: int| 0 <= k < list.len() && list[k].0 == id;
                assert(k < d.len());
            }
        } else {
            if exists|k: int| 0 <= k < list.len() && list[k].0 == id {
                assert forall|k: int| 0 <= k < d.len() implies #[trigger] d[k].0 != id by {
                    assert(list[k].0 != list[list.len() - 1].0);
                }
                lemma_without_absent(d, id);
            }
        }
    }
}

/// The color `most_index` finds has at least as many lands as any of the
/// first `n` colors.
proof fn lemma_most_is_largest(lists: Seq<Seq<(u64, usize)>>, n: nat)
    requires
        n > 0,
    ensures
        forall|d: int| 0 <= d < n ==> lists[most_index(lists, n) as int].len() >= #[trigger] lists[d].len(),
    decreases n,
{
    if n > 1 {
        lemma_most_is_largest(lists, (n - 1) as nat);
    }
}

/// Generic symbols are paid one land each as long as some color still has
/// as many lands as symbols are left.
proof fn lemma_generic_payment(lists: Seq<Seq<(u64, usize)>>, n: nat, d: int)
    requires
        lists.len() == 5,
        0 <= d < 5,
        lists[d].len() >= n,
        forall|c: int| 0 <= c < 5 ==> ids_distinct(#[trigger] lists[c]),
    ensures
        payment(lists, Seq::new(n, |i: int| ManaCostItem::Generic)) is Some,
    decreases n,
{
    let items = Seq::new(n, |i: int| ManaCostItem::Generic);
    if n > 0 {
        lemma_most_is_largest(lists, 5);
        lemma_most_index(lists, 5);
        let c = most_index(lists, 5) as int;
        assert(lists[c].len() >= lists[d].len());
        assert(items[0] == ManaCostItem::Generic);
        assert(color_for_item(lists, items[0]) == Some(c as nat));
        let list = lists[c];
        lemma_fewest_index(list);
        let k = fewest_index(list) as int;
        let land = list[k].0;
        let rest = lists_without(lists, land);
        lemma_without_once(list, land);
        assert forall|e: int| 0 <= e < 5 implies ids_distinct(#[trigger] rest[e]) by {
            lemma_without_once(lists[e], land);
        }
        assert(rest[c].len() == list.len() - 1);
        assert(items.drop_first() =~= Seq::new((n - 1) as nat, |i: int| ManaCostItem::Generic));
        lemma_generic_payment(rest, (n - 1) as nat, c);
    }
}

/// A cost of generic symbols only is sorted as it is.
proof fn lemma_generic_counts(items: Seq<ManaCostItem>)
    requires
        forall|i: int| 0 <= i < items.len() ==> #[trigger] items[i] == ManaCostItem::Generic,
    ensures
        count_item(items, ManaCostItem::Generic) == items.len(),
        forall|c: ManaColor| #[trigger] count_item(items, ManaCostItem::Colored(c)) == 0,
    decreases items.len(),
{
    if items.len() > 0 {
        assert(forall|i: int| 0 <= i < items.drop_last().len() ==> items.drop_last()[i] == items[i]);
        lemma_generic_counts(items.drop_last());
        assert(items[items.len() - 1] == items.last());
        assert forall|c: ManaColor| #[trigger] count_item(items, ManaCostItem::Colored(c)) == 0 by {
            assert(count_item(items.drop_last(), ManaCostItem::Colored(c)) == 0);
            assert(items.last() != ManaCostItem::Colored(c));
        }
    }
}

/// A cost made only of generic symbols can be paid whenever the card's
/// controller has, of some one basic land type, at least as many untapped
/// lands on the battlefield as the cost has symbols.
pub proof fn law_generic_cost_paid_when_lands_suffice(game: &GameState, card_id: u64, t: nat)
    requires
        game.wf(),
        card_id < game.cards@.len(),
        t < 5,
        forall|i: int|
            0 <= i < game.cards@[card_id as int].mana_cost@.len() ==> #[trigger] game.cards@[card_id as int].mana_cost@[i]
                == ManaCostItem::Generic,
        lands_with_type(
            game.cards@,
            game.cards@[card_id as int].controller,
            land_type_for(t),
            game.cards@.len(),
        ).len() >= game.cards@[card_id as int].mana_cost@.len(),
    ensures
        spec_mana_payment(game, card_id) is Some,
{
    let card = game.cards@[card_id as int];
    let items = card.mana_cost@;
    let n = items.len();
    let lists = land_lists(game, card.controller);
    assert(game.cards@.len() == game.cards.len());
    lemma_generic_counts(items);
    assert(sorted_cost(items) =~= Seq::new(n, |i: int| ManaCostItem::Generic));
    assert forall|c: int| 0 <= c < 5 implies ids_distinct(#[trigger] lists[c]) by {
        lemma_lands_with_type_distinct(game.cards@, card.controller, land_type_for(c as nat), game.cards@.len());
    }
    lemma_generic_payment(lists, n, t as int);
}

/// A generic symbol is paid whenever any untapped basic land is left: from
/// the basic land type with the most lands left.
pub proof fn law_generic_symbol_paid_when_a_land_remains(lists: Seq<Seq<(u64, usize)>>, d: int)
    requires
        lists.len() == 5,
        0 <= d < 5,
        lists[d].len() > 0,
    ensures
        color_for_item(lists, ManaCostItem::Generic) matches Some(c) && c < 5 && lists[c as int].len() > 0
            && forall|e: int| 0 <= e < 5 ==> lists[c as int].len() >= #[trigger] lists[e].len(),
{
    lemma_most_is_largest(lists, 5);
    lemma_most_index(lists, 5);
}

/// The position `fewest_index` finds holds a land with no more land types
/// than any other.
proof fn lemma_fewest_is_least(list: Seq<(u64, usize)>)
    requires
        list.len() > 0,
    ensures
        forall|j: int| 0 <= j < list.len() ==> list[fewest_index(list) as int].1 <= #[trigger] list[j].1,
    decreases list.len(),
{
    if list.len() > 1 {
        lemma_fewest_is_least(list.drop_last());
        lemma_fewest_index(list.drop_last());
        assert(forall|j: int| 0 <= j < list.drop_last().len() ==> list.drop_last()[j] == list[j]);
    }
}

/// A colored symbol is paid, when it can be, with a land of its color that
/// has no more land types than any other land of that color, and a payment
/// fails at a colored symbol only when no land of its color is left.
pub proof fn law_colored_symbol_takes_land_with_fewest_types(
    lists: Seq<Seq<(u64, usize)>>,
    items: Seq<ManaCostItem>,
    color: ManaColor,
)
    requires
        lists.len() == 5,
        items.len() > 0,
        items[0] == ManaCostItem::Colored(color),
    ensures
        lists[color_index(color) as int].len() == 0 ==> payment(lists, items) is None,
        payment(lists, items) matches Some(lands) ==> exists|k: int|
            0 <= k < lists[color_index(color) as int].len() && lists[color_index(color) as int][k].0 == lands[0]
                && forall|j: int|
                0 <= j < lists[color_index(color) as int].len() ==> lists[color_index(color) as int][k].1
                    <= #[trigger] lists[color_index(color) as int][j].1,
{
    let list = lists[color_index(color) as int];
    if list.len() > 0 {
        lemma_fewest_index(list);
        lemma_fewest_is_least(list);
        let k = fewest_index(list) as int;
        if payment(lists, items) is Some {
            assert(payment(lists, items).unwrap()[0] == list[k].0);
        }
    }
}

} // verus!
