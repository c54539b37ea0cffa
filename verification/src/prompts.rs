//! Prompts asking a player for a decision, the actions that answer them, and
//! how an answer changes a prompt or completes it.
use crate::id_collections::IdSet;
use crate::legality::LegalActions;
use crate::primitives::PlayerName;
use vstd::prelude::*;

verus! {

/// Labels shown with a prompt.
#[derive(Debug, Clone, Copy, PartialEq, Eq, Structural)]
pub enum Text {
    SelectNumber,
    SelectMode,
    SelectTarget,
    SelectNewTargets,
}

/// Where a card can be placed when ordering cards.
#[derive(Debug, Clone, Copy, PartialEq, Eq, Hash, Structural)]
pub enum CardOrderLocation {
    Unordered,
    TopOfLibrary,
    BottomOfLibrary,
    Graveyard,
}

/// How many cards must be ordered.
#[derive(Debug, Clone, Copy, PartialEq, Eq, Structural)]
pub enum Quantity {
    AnyNumber,
    Ordered(usize),
}

/// Ask to move cards between locations and order them.
#[derive(Debug)]
pub struct SelectOrderPrompt {
    /// Each location with its cards in order; no location appears twice.
    pub cards: Vec<(CardOrderLocation, Vec<u64>)>,
    /// Cards which were already moved.
    pub moved: IdSet,
    pub quantity: Quantity,
}

/// Ask to pick a number in a range.
#[derive(Debug, Clone, Copy, PartialEq, Eq, Structural)]
pub struct PickNumberPrompt {
    pub minimum: u32,
    pub maximum: u32,
}

/// Ask to choose one of several entities.
#[derive(Debug, Clone)]
pub struct ChoicePrompt {
    pub optional: bool,
    pub choices: Vec<u64>,
}

/// Ask to choose one of several labelled options.
#[derive(Debug, Clone)]
pub struct MultipleChoicePrompt {
    pub choices: Vec<Text>,
}

/// The kinds of prompts.
#[derive(Debug)]
pub enum PromptType {
    EntityChoice(ChoicePrompt),
    PlayCards,
    PickNumber(PickNumberPrompt),
    SelectOrder(SelectOrderPrompt),
    MultipleChoice(MultipleChoicePrompt),
}

/// A decision that `player` must make.
#[derive(Debug)]
pub struct Prompt {
    pub player: PlayerName,
    pub label: Option<Text>,
    pub prompt_type: PromptType,
}

/// Actions answering or changing a prompt.
#[derive(Debug, Clone, Copy, PartialEq, Eq, Structural)]
pub enum PromptAction {
    PickNumber(u32),
    SelectOrder(u64, CardOrderLocation, usize),
    SelectEntity(u64),
    SubmitCardSelection,
    SelectChoice(usize),
}

/// The final answer to a prompt.
#[derive(Debug)]
pub enum PromptResponse {
    PickNumber(u32),
    EntityChoice(u64),
    SelectOrder(Vec<(CardOrderLocation, Vec<u64>)>),
    MultipleChoice(usize),
}

/// After an action, either the prompt continues in a new state or it has
/// been answered.
#[derive(Debug)]
pub enum PromptExecutionResult {
    Prompt(Prompt),
    PromptResponse(PromptResponse),
}

/// The contents of location lists.
pub open spec fn order_view(cards: Seq<(CardOrderLocation, Vec<u64>)>) -> Seq<
    (CardOrderLocation, Seq<u64>),
> {
    cards.map_values(|e: (CardOrderLocation, Vec<u64>)| (e.0, e.1@))
}

/// Position of the first entry for `location`, if any.
pub open spec fn location_position(cards: Seq<(CardOrderLocation, Seq<u64>)>, location: CardOrderLocation) -> Option<
    nat,
>
    decreases cards.len(),
{
    if cards.len() == 0 {
        None
    } else if cards[0].0 == location {
        Some(0)
    } else {
        match location_position(cards.drop_first(), location) {
            Some(p) => Some(p + 1),
            None => None,
        }
    }
}

/// Cards in `location`, none if it is not listed.
pub open spec fn cards_at(cards: Seq<(CardOrderLocation, Seq<u64>)>, location: CardOrderLocation) -> Seq<
    u64,
> {
    match location_position(cards, location) {
        Some(p) => cards[p as int].1,
        None => Seq::empty(),
    }
}

/// The position found holds `location`, and no earlier one does.
pub proof fn lemma_location_position(cards: Seq<(CardOrderLocation, Seq<u64>)>, location: CardOrderLocation)
    ensures
        location_position(cards, location) matches Some(p) ==> p < cards.len() && cards[p as int].0
            == location && forall|q: int| 0 <= q < p ==> #[trigger] cards[q].0 != location,
        location_position(cards, location) is None ==> forall|q: int|
            0 <= q < cards.len() ==> #[trigger] cards[q].0 != location,
    decreases cards.len(),
{
    if cards.len() > 0 {
        lemma_location_position(cards.drop_first(), location);
        if cards[0].0 != location {
            assert forall|q: int| 0 < q < cards.len() implies cards[q] == cards.drop_first()[q - 1] by {}
        }
    }
}

/// `n`, or `usize::MAX` if it is larger.
pub open spec fn capped(n: nat) -> nat {
    if n <= usize::MAX {
        n
    } else {
        usize::MAX as nat
    }
}

/// Number of cards in locations other than `Unordered`.
pub open spec fn ordered_count(cards: Seq<(CardOrderLocation, Seq<u64>)>) -> nat
    decreases cards.len(),
{
    if cards.len() == 0 {
        0
    } else {
        ordered_count(cards.drop_last()) + (if cards.last().0 == CardOrderLocation::Unordered {
            0
        } else {
            cards.last().1.len()
        })
    }
}

impl SelectOrderPrompt {
    /// The locations and their cards.
    pub open spec fn view(&self) -> Seq<(CardOrderLocation, Seq<u64>)> {
        order_view(self.cards@)
    }

    /// Number of cards placed in a location other than `Unordered`, or
    /// `usize::MAX` if there are more.
    pub fn count_ordered_cards(&self) -> (n: usize)
        ensures
            n == capped(ordered_count(self@)),
    {
        let mut n: usize = 0;
        let mut i: usize = 0;
        while i < self.cards.len()
            invariant
                i <= self.cards@.len(),
                n == capped(ordered_count(self@.take(i as int))),
            decreases self.cards@.len() - i,
        {
            proof {
                assert(self@.take(i + 1).drop_last() =~= self@.take(i as int));
            }
            if self.cards[i].0 != CardOrderLocation::Unordered {
                n = n.saturating_add(self.cards[i].1.len());
            }
            i = i + 1;
        }
        proof {
            assert(self@.take(self.cards@.len() as int) =~= self@);
        }
        n
    }
}

} // verus!

verus! {

impl SelectOrderPrompt {
    /// The cards in `location`, in order; none if it is not listed.
    pub fn cards_in_location(&self, location: CardOrderLocation) -> (ids: Vec<u64>)
        ensures
            ids@ == cards_at(self@, location),
    {
        proof {
            lemma_location_position(self@, location);
        }
        let mut i: usize = 0;
        while i < self.cards.len()
            invariant
                i <= self.cards@.len(),
                forall|q: int| 0 <= q < i ==> #[trigger] self@[q].0 != location,
            decreases self.cards@.len() - i,
        {
            if self.cards[i].0 == location {
                proof {
                    lemma_location_position(self@, location);
                    assert(self@[i as int].0 == location);
                    match location_position(self@, location) {
                        Some(p) => {
                            if p < i {
                                assert(self@[p as int].0 != location);
                            } else if p > i {
                                assert(self@[i as int].0 != location);
                            }
                        },
                        None => {
                            assert(self@[i as int].0 != location);
                        },
                    }
                    assert(location_position(self@, location) == Some(i as nat));
                }
                let ids = self.cards[i].1.clone();
                proof {
                    assert(ids@ =~= self@[i as int].1);
                }
                return ids;
            }
            i = i + 1;
        }
        Vec::new()
    }
}

} // verus!

verus! {

/// Moves of card `id` to positions `0..n` of `location`, leaving out position
/// `skip`.
pub open spec fn location_moves(id: u64, location: CardOrderLocation, n: nat, skip: Option<nat>) -> Seq<
    PromptAction,
>
    decreases n,
{
    if n == 0 {
        Seq::empty()
    } else {
        location_moves(id, location, (n - 1) as nat, skip) + (if skip == Some((n - 1) as nat) {
            Seq::empty()
        } else {
            seq![PromptAction::SelectOrder(id, location, (n - 1) as usize)]
        })
    }
}

/// Moves of card `id`, now at position `index` of `current`, into the first
/// `k` locations; an agent may not move cards back to `Unordered`.
pub open spec fn card_moves_prefix(
    cards: Seq<(CardOrderLocation, Seq<u64>)>,
    human: bool,
    id: u64,
    current: CardOrderLocation,
    index: nat,
    k: nat,
) -> Seq<PromptAction>
    decreases k,
{
    if k == 0 {
        Seq::empty()
    } else {
        let location = cards[k - 1].0;
        card_moves_prefix(cards, human, id, current, index, (k - 1) as nat) + (if location
            == CardOrderLocation::Unordered && !human {
            Seq::empty()
        } else {
            location_moves(
                id,
                location,
                cards[k - 1].1.len() + 1,
                if location == current {
                    Some(index)
                } else {
                    None
                },
            )
        })
    }
}

/// Moves of card `id` at position `index` of `current`: every other position
/// of every location, except that an agent never moves a card twice.
pub open spec fn card_moves(
    cards: Seq<(CardOrderLocation, Seq<u64>)>,
    moved: Seq<u64>,
    human: bool,
    id: u64,
    current: CardOrderLocation,
    index: nat,
) -> Seq<PromptAction> {
    if moved.contains(id) && !human {
        Seq::empty()
    } else {
        card_moves_prefix(cards, human, id, current, index, cards.len())
    }
}

/// Moves of the first `i` cards of the location at position `e`.
pub open spec fn entry_moves(
    cards: Seq<(CardOrderLocation, Seq<u64>)>,
    moved: Seq<u64>,
    human: bool,
    e: nat,
    i: nat,
) -> Seq<PromptAction>
    decreases i,
{
    if i == 0 {
        Seq::empty()
    } else {
        entry_moves(cards, moved, human, e, (i - 1) as nat) + card_moves(
            cards,
            moved,
            human,
            cards[e as int].1[i - 1],
            cards[e as int].0,
            (i - 1) as nat,
        )
    }
}

/// Moves of every card of the first `k` locations.
pub open spec fn all_moves(
    cards: Seq<(CardOrderLocation, Seq<u64>)>,
    moved: Seq<u64>,
    human: bool,
    k: nat,
) -> Seq<PromptAction>
    decreases k,
{
    if k == 0 {
        Seq::empty()
    } else {
        all_moves(cards, moved, human, (k - 1) as nat) + entry_moves(
            cards,
            moved,
            human,
            (k - 1) as nat,
            cards[k - 1].1.len(),
        )
    }
}

/// Whether the required number of cards is already ordered, so the selection
/// can be submitted.
pub open spec fn at_maximum(prompt: &SelectOrderPrompt) -> bool {
    match prompt.quantity {
        Quantity::AnyNumber => true,
        Quantity::Ordered(n) => capped(ordered_count(prompt@)) == n || cards_at(
            prompt@,
            CardOrderLocation::Unordered,
        ).len() == 0,
    }
}

/// Legal actions for a card ordering prompt: submitting once enough cards are
/// ordered, then moving cards; agents only move cards below the maximum.
pub open spec fn spec_select_order_actions(prompt: &SelectOrderPrompt, human: bool) -> Seq<
    PromptAction,
> {
    let submit = if at_maximum(prompt) {
        seq![PromptAction::SubmitCardSelection]
    } else {
        Seq::empty()
    };
    submit + (if human || !at_maximum(prompt) {
        all_moves(prompt@, prompt.moved@, human, prompt@.len())
    } else {
        Seq::empty()
    })
}

/// Agents are only offered card orderings with a legal move for every card
/// considered so far.
pub open spec fn agent_moves_available(prompt: &SelectOrderPrompt, human: bool) -> bool {
    !human && !at_maximum(prompt) ==> forall|e: nat, j: nat|
        e < prompt@.len() && 1 <= j <= prompt@[e as int].1.len() ==> (all_moves(
            prompt@,
            prompt.moved@,
            human,
            e,
        ) + #[trigger] entry_moves(prompt@, prompt.moved@, human, e, j)).len() > 0
}

/// Appends the moves of card `id` to every position `0..=len` of `location`
/// other than `skip`.
fn push_location_moves(
    result: &mut Vec<PromptAction>,
    id: u64,
    location: CardOrderLocation,
    len: usize,
    skip: Option<usize>,
)
    ensures
        final(result)@ == old(result)@ + location_moves(
            id,
            location,
            len as nat + 1,
            match skip {
                Some(s) => Some(s as nat),
                None => None,
            },
        ),
{
    let ghost before = result@;
    let ghost sk = match skip {
        Some(s) => Some(s as nat),
        None => None::<nat>,
    };
    let mut i: usize = 0;
    proof {
        assert(result@ =~= before + location_moves(id, location, 0, sk));
    }
    while i < len
        invariant
            i <= len,
            sk == (match skip {
                Some(s) => Some(s as nat),
                None => None::<nat>,
            }),
            result@ == before + location_moves(id, location, i as nat, sk),
        decreases len - i,
    {
        if skip != Some(i) {
            result.push(PromptAction::SelectOrder(id, location, i));
        }
        proof {
            assert(result@ =~= before + location_moves(id, location, (i + 1) as nat, sk));
        }
        i = i + 1;
    }
    if skip != Some(len) {
        result.push(PromptAction::SelectOrder(id, location, len));
    }
    proof {
        assert(result@ =~= before + location_moves(id, location, (len + 1) as nat, sk));
    }
}

/// Appends the moves of card `id` at position `index` of `current`.
fn add_select_order_actions_for_card(
    result: &mut Vec<PromptAction>,
    prompt: &SelectOrderPrompt,
    options: LegalActions,
    current: CardOrderLocation,
    index: usize,
    id: u64,
)
    requires
        prompt.moved.wf(),
    ensures
        final(result)@ == old(result)@ + card_moves(
            prompt@,
            prompt.moved@,
            options.for_human_player,
            id,
            current,
            index as nat,
        ),
{
    if prompt.moved.contains(id) && !options.for_human_player {
        proof {
            assert(old(result)@ + Seq::<PromptAction>::empty() =~= old(result)@);
        }
        return ;
    }
    let ghost start = result@;
    let ghost cards = prompt@;
    let ghost human = options.for_human_player;
    let mut k: usize = 0;
    proof {
        assert(start + card_moves_prefix(cards, human, id, current, index as nat, 0) =~= start);
    }
    while k < prompt.cards.len()
        invariant
            cards == prompt@,
            human == options.for_human_player,
            k <= cards.len(),
            result@ == start + card_moves_prefix(cards, human, id, current, index as nat, k as nat),
        decreases cards.len() - k,
    {
        let location = prompt.cards[k].0;
        let len = prompt.cards[k].1.len();
        let ghost before = result@;
        if location == CardOrderLocation::Unordered && !options.for_human_player {
            proof {
                assert(result@ =~= before + Seq::<PromptAction>::empty());
            }
        } else {
            let skip = if location == current {
                Some(index)
            } else {
                None
            };
            push_location_moves(result, id, location, len, skip);
        }
        proof {
            assert(result@ =~= start + card_moves_prefix(cards, human, id, current, index as nat, (k + 1) as nat));
        }
        k = k + 1;
    }
}

/// Legal actions for a card ordering prompt.
fn select_order_prompt_actions(prompt: &SelectOrderPrompt, options: LegalActions) -> (result: Vec<
    PromptAction,
>)
    requires
        prompt.moved.wf(),
    ensures
        result@ == spec_select_order_actions(prompt, options.for_human_player),
{
    let mut result: Vec<PromptAction> = Vec::new();
    let at_max = match prompt.quantity {
        Quantity::AnyNumber => {
            result.push(PromptAction::SubmitCardSelection);
            true
        },
        Quantity::Ordered(n) => {
            if prompt.count_ordered_cards() == n || prompt.cards_in_location(
                CardOrderLocation::Unordered,
            ).len() == 0 {
                result.push(PromptAction::SubmitCardSelection);
                true
            } else {
                false
            }
        },
    };
    assert(at_max == at_maximum(prompt));
    let ghost submit = result@;
    let ghost cards = prompt@;
    let ghost human = options.for_human_player;
    if options.for_human_player || !at_max {
        let mut e: usize = 0;
        proof {
            assert(result@ =~= submit + all_moves(cards, prompt.moved@, human, 0));
        }
        while e < prompt.cards.len()
            invariant
                cards == prompt@,
                human == options.for_human_player,
                prompt.moved.wf(),
                e <= cards.len(),
                result@ == submit + all_moves(cards, prompt.moved@, human, e as nat),
            decreases cards.len() - e,
        {
            let location = prompt.cards[e].0;
            let n = prompt.cards[e].1.len();
            let ghost at_entry = result@;
            let mut i: usize = 0;
            proof {
                assert(result@ =~= at_entry + entry_moves(cards, prompt.moved@, human, e as nat, 0));
            }
            while i < n
                invariant
                    cards == prompt@,
                    human == options.for_human_player,
                    prompt.moved.wf(),
                    e < cards.len(),
                    i <= n,
                    n == cards[e as int].1.len(),
                    location == cards[e as int].0,
                    result@ == at_entry + entry_moves(cards, prompt.moved@, human, e as nat, i as nat),
                decreases n - i,
            {
                let id = prompt.cards[e].1[i];
                add_select_order_actions_for_card(&mut result, prompt, options, location, i, id);
                proof {
                    assert(result@ =~= at_entry + entry_moves(
                        cards,
                        prompt.moved@,
                        human,
                        e as nat,
                        (i + 1) as nat,
                    ));
                }
                i = i + 1;
            }
            proof {
                assert(result@ =~= submit + all_moves(cards, prompt.moved@, human, (e + 1) as nat));
            }
            e = e + 1;
        }
        proof {
            assert(result@ =~= spec_select_order_actions(prompt, options.for_human_player));
        }
    } else {
        proof {
            assert(result@ =~= spec_select_order_actions(prompt, options.for_human_player));
        }
    }
    result
}

/// Legal actions for a prompt shown to `player`.
pub open spec fn spec_prompt_actions(prompt: &Prompt, player: PlayerName, human: bool) -> Seq<
    PromptAction,
> {
    if prompt.player != player {
        Seq::empty()
    } else {
        match &prompt.prompt_type {
            PromptType::PickNumber(p) => Seq::new(
                if p.minimum <= p.maximum {
                    (p.maximum - p.minimum + 1) as nat
                } else {
                    0
                },
                |i: int| PromptAction::PickNumber((p.minimum + i) as u32),
            ),
            PromptType::SelectOrder(s) => spec_select_order_actions(s, human),
            PromptType::EntityChoice(c) => c.choices@.map_values(
                |e: u64| PromptAction::SelectEntity(e),
            ),
            PromptType::PlayCards => Seq::empty(),
            PromptType::MultipleChoice(m) => Seq::new(
                m.choices@.len(),
                |i: int| PromptAction::SelectChoice(i as usize),
            ),
        }
    }
}

/// Prompts for which legal actions can be listed: not a card playing
/// prompt, and, for card ordering, one where an agent always has a move.
pub open spec fn prompt_actions_listable(prompt: &Prompt, player: PlayerName, human: bool) -> bool {
    prompt.player == player ==> match &prompt.prompt_type {
        PromptType::PlayCards => false,
        PromptType::SelectOrder(s) => s.moved.wf() && agent_moves_available(s, human),
        _ => true,
    }
}

/// The actions `player` may take in response to `prompt`.
pub fn compute(prompt: &Prompt, player: PlayerName, options: LegalActions) -> (actions: Vec<
    PromptAction,
>)
    requires
        prompt_actions_listable(prompt, player, options.for_human_player),
    ensures
        actions@ == spec_prompt_actions(prompt, player, options.for_human_player),
{
    if prompt.player != player {
        return Vec::new();
    }
    match &prompt.prompt_type {
        PromptType::PickNumber(p) => {
            let mut actions: Vec<PromptAction> = Vec::new();
            if p.minimum <= p.maximum {
                let count: u64 = (p.maximum - p.minimum) as u64 + 1;
                let mut k: u64 = 0;
                while k < count
                    invariant
                        k <= count,
                        count == p.maximum - p.minimum + 1,
                        p.minimum <= p.maximum,
                        actions@ =~= Seq::new(
                            k as nat,
                            |i: int| PromptAction::PickNumber((p.minimum + i) as u32),
                        ),
                    decreases count - k,
                {
                    actions.push(PromptAction::PickNumber(p.minimum + k as u32));
                    k = k + 1;
                }
            }
            actions
        },
        PromptType::SelectOrder(select_order) => select_order_prompt_actions(select_order, options),
        PromptType::EntityChoice(data) => {
            let mut actions: Vec<PromptAction> = Vec::new();
            let mut i: usize = 0;
            while i < data.choices.len()
                invariant
                    i <= data.choices@.len(),
                    actions@ =~= data.choices@.take(i as int).map_values(
                        |e: u64| PromptAction::SelectEntity(e),
                    ),
                decreases data.choices@.len() - i,
            {
                actions.push(PromptAction::SelectEntity(data.choices[i]));
                proof {
                    assert(data.choices@.take(i + 1) =~= data.choices@.take(i as int).push(
                        data.choices@[i as int],
                    ));
                }
                i = i + 1;
            }
            proof {
                assert(data.choices@.take(i as int) =~= data.choices@);
            }
            actions
        },
        PromptType::PlayCards => Vec::new(),
        PromptType::MultipleChoice(data) => {
            let mut actions: Vec<PromptAction> = Vec::new();
            let mut i: usize = 0;
            while i < data.choices.len()
                invariant
                    i <= data.choices@.len(),
                    actions@ =~= Seq::new(i as nat, |j: int| PromptAction::SelectChoice(j as usize)),
                decreases data.choices@.len() - i,
            {
                actions.push(PromptAction::SelectChoice(i));
                i = i + 1;
            }
            actions
        },
    }
}

/// Whether `player` may take `action` in response to `prompt`.
pub fn can_take_action(prompt: &Prompt, player: PlayerName, action: PromptAction) -> (b: bool)
    requires
        prompt_actions_listable(prompt, player, true),
    ensures
        b == spec_prompt_actions(prompt, player, true).contains(action),
{
    let actions = compute(prompt, player, LegalActions { for_human_player: true });
    let mut i: usize = 0;
    while i < actions.len()
        invariant
            actions@ == spec_prompt_actions(prompt, player, true),
            i <= actions@.len(),
            forall|j: int| 0 <= j < i ==> actions@[j] != action,
        decreases actions@.len() - i,
    {
        if actions[i] == action {
            proof {
                assert(actions@[i as int] == action);
            }
            return true;
        }
        i = i + 1;
    }
    false
}

/// `s` without any occurrence of `id`.
pub open spec fn remove_id(s: Seq<u64>, id: u64) -> Seq<u64>
    decreases s.len(),
{
    if s.len() == 0 {
        Seq::empty()
    } else {
        remove_id(s.drop_last(), id) + (if s.last() != id {
            seq![s.last()]
        } else {
            Seq::empty()
        })
    }
}

/// Taking `id` out keeps exactly the other values.
pub proof fn lemma_remove_id_contains(s: Seq<u64>, id: u64, x: u64)
    ensures
        remove_id(s, id).contains(x) <==> (s.contains(x) && x != id),
    decreases s.len(),
{
    if s.len() > 0 {
        let t = s.drop_last();
        lemma_remove_id_contains(t, id, x);
        let tail = if s.last() != id {
            seq![s.last()]
        } else {
            Seq::<u64>::empty()
        };
        let r = remove_id(t, id) + tail;
        if r.contains(x) {
            let j = choose|j: int| 0 <= j < r.len() && r[j] == x;
            if j < remove_id(t, id).len() {
                assert(remove_id(t, id)[j] == x);
                let k = choose|k: int| 0 <= k < t.len() && t[k] == x;
                assert(s[k] == x);
            } else {
                assert(s[s.len() - 1] == x);
            }
        }
        if s.contains(x) && x != id {
            let k = choose|k: int| 0 <= k < s.len() && s[k] == x;
            if k < t.len() {
                assert(t[k] == x);
                let j = choose|j: int| 0 <= j < remove_id(t, id).len() && remove_id(t, id)[j] == x;
                assert(r[j] == x);
            } else {
                assert(r[r.len() - 1] == x);
            }
        }
    }
}

/// Every location with `id` taken out of it.
pub open spec fn without_card(cards: Seq<(CardOrderLocation, Seq<u64>)>, id: u64) -> Seq<
    (CardOrderLocation, Seq<u64>),
> {
    Seq::new(cards.len(), |i: int| (cards[i].0, remove_id(cards[i].1, id)))
}

/// The locations after card `id` moved to position `index` of `location`: it
/// leaves wherever it was, and `location` is added at the end if it was not
/// listed.
pub open spec fn placed_cards(
    cards: Seq<(CardOrderLocation, Seq<u64>)>,
    id: u64,
    location: CardOrderLocation,
    index: nat,
) -> Seq<(CardOrderLocation, Seq<u64>)> {
    let w = without_card(cards, id);
    match location_position(w, location) {
        Some(p) => w.update(p as int, (location, w[p as int].1.insert(index as int, id))),
        None => w.push((location, seq![id])),
    }
}

/// No location is listed twice.
pub open spec fn locations_distinct(cards: Seq<(CardOrderLocation, Seq<u64>)>) -> bool {
    forall|i: int, j: int| 0 <= i < j < cards.len() ==> #[trigger] cards[i].0 != #[trigger] cards[j].0
}

impl SelectOrderPrompt {
    /// The prompt's lists are well formed: the moved cards form a valid set
    /// and no location is listed twice.
    pub open spec fn wf(&self) -> bool {
        &&& self.moved.wf()
        &&& locations_distinct(order_view(self.cards@))
    }
}

/// Moving a card to a place keeps every location listed once.
pub proof fn law_placing_keeps_locations_distinct(
    cards: Seq<(CardOrderLocation, Seq<u64>)>,
    id: u64,
    location: CardOrderLocation,
    index: nat,
)
    requires
        locations_distinct(cards),
    ensures
        locations_distinct(placed_cards(cards, id, location, index)),
{
    let w = without_card(cards, id);
    assert forall|i: int| 0 <= i < w.len() implies #[trigger] w[i].0 == cards[i].0 by {}
    lemma_location_position(w, location);
    let r = placed_cards(cards, id, location, index);
    match location_position(w, location) {
        Some(p) => {
            assert forall|i: int| 0 <= i < r.len() implies #[trigger] r[i].0 == cards[i].0 by {}
        },
        None => {
            assert forall|i: int, j: int| 0 <= i < j < r.len() implies #[trigger] r[i].0 != #[trigger] r[j].0 by {
                if j == r.len() - 1 {
                    assert(r[j].0 == location);
                    assert(r[i].0 == w[i].0);
                } else {
                    assert(r[i].0 == cards[i].0 && r[j].0 == cards[j].0);
                }
            }
        },
    }
}

/// A card can be moved to position `index` of `location` when the position
/// exists once the card has left its old place.
pub open spec fn can_place(
    cards: Seq<(CardOrderLocation, Seq<u64>)>,
    id: u64,
    location: CardOrderLocation,
    index: nat,
) -> bool {
    index <= cards_at(without_card(cards, id), location).len()
}

/// A copy of `ids` without `id`.
pub fn copy_without(ids: &Vec<u64>, id: u64) -> (result: Vec<u64>)
    ensures
        result@ == remove_id(ids@, id),
{
    let mut result: Vec<u64> = Vec::new();
    let mut i: usize = 0;
    while i < ids.len()
        invariant
            i <= ids@.len(),
            result@ == remove_id(ids@.take(i as int), id),
        decreases ids@.len() - i,
    {
        proof {
            assert(ids@.take(i + 1).drop_last() =~= ids@.take(i as int));
        }
        if ids[i] != id {
            result.push(ids[i]);
        }
        proof {
            assert(result@ =~= remove_id(ids@.take(i + 1), id));
        }
        i = i + 1;
    }
    proof {
        assert(ids@.take(i as int) =~= ids@);
    }
    result
}

/// Moves card `id` to position `index` of `location` in a card ordering
/// prompt and marks it as moved.
fn select_order(prompt: Prompt, id: u64, location: CardOrderLocation, index: usize) -> (result:
    PromptExecutionResult)
    requires
        prompt.prompt_type matches PromptType::SelectOrder(s) && s.moved.wf() && can_place(
            s@,
            id,
            location,
            index as nat,
        ),
    ensures
        result matches PromptExecutionResult::Prompt(p) && p.player == prompt.player && p.label
            == prompt.label && (p.prompt_type matches PromptType::SelectOrder(s) && (prompt.prompt_type matches PromptType::SelectOrder(old_s)
            && s@ == placed_cards(old_s@, id, location, index as nat) && s.moved.wf()
            && s.moved@.to_set() == old_s.moved@.to_set().insert(id) && s.quantity
            == old_s.quantity)),
{
    let Prompt { player, label, prompt_type } = prompt;
    let PromptType::SelectOrder(data) = prompt_type else {
        return PromptExecutionResult::Prompt(Prompt { player, label, prompt_type });
    };
    let SelectOrderPrompt { cards, mut moved, quantity } = data;
    let ghost old_view = order_view(cards@);
    let ghost w = without_card(old_view, id);
    moved.insert(id);
    let mut new_cards: Vec<(CardOrderLocation, Vec<u64>)> = Vec::new();
    let mut found = false;
    let mut e: usize = 0;
    proof {
        lemma_location_position(w, location);
    }
    while e < cards.len()
        invariant
            old_view == order_view(cards@),
            w == without_card(old_view, id),
            e <= cards@.len(),
            index <= cards_at(w, location).len(),
            found <==> exists|q: int| 0 <= q < e && #[trigger] w[q].0 == location,
            location_position(w, location) matches Some(p) ==> p < w.len() && w[p as int].0
                == location && forall|q: int| 0 <= q < p ==> #[trigger] w[q].0 != location,
            location_position(w, location) is None ==> forall|q: int|
                0 <= q < w.len() ==> #[trigger] w[q].0 != location,
            order_view(new_cards@) == (match location_position(w, location) {
                Some(p) => if p < e {
                    w.take(e as int).update(p as int, (location, w[p as int].1.insert(index as int, id)))
                } else {
                    w.take(e as int)
                },
                None => w.take(e as int),
            }),
        decreases cards@.len() - e,
    {
        let entry_location = cards[e].0;
        let mut ids = copy_without(&cards[e].1, id);
        let ghost before = new_cards@;
        proof {
            assert(w[e as int] == (old_view[e as int].0, remove_id(old_view[e as int].1, id)));
            assert(old_view[e as int].1 == cards@[e as int].1@);
        }
        if entry_location == location && !found {
            proof {
                assert(w[e as int].0 == location);
                match location_position(w, location) {
                    Some(p) => {
                        if p < e {
                            assert(w[p as int].0 == location);
                        } else if p > e {
                            assert(w[e as int].0 != location);
                        }
                    },
                    None => {
                        assert(w[e as int].0 != location);
                    },
                }
                assert(location_position(w, location) == Some(e as nat));
                assert(cards_at(w, location) == w[e as int].1);
            }
            ids.insert(index, id);
            found = true;
        }
        let ghost ids_view = ids@;
        new_cards.push((entry_location, ids));
        proof {
            assert(order_view(new_cards@) =~= order_view(before).push((entry_location, ids_view)));
            assert(w.take(e + 1) =~= w.take(e as int).push(w[e as int]));
            if let Some(p) = location_position(w, location) {
                if p < e {
                    assert(w[p as int].0 == location);
                    assert(found);
                    assert(ids_view == w[e as int].1);
                }
            }
            match location_position(w, location) {
                Some(p) => {
                    if p < e {
                        assert(order_view(new_cards@) =~= w.take(e + 1).update(
                            p as int,
                            (location, w[p as int].1.insert(index as int, id)),
                        ));
                    } else if p == e {
                        assert(order_view(new_cards@) =~= w.take(e + 1).update(
                            p as int,
                            (location, w[p as int].1.insert(index as int, id)),
                        ));
                    } else {
                        assert(w[e as int].0 != location);
                        assert(order_view(new_cards@) =~= w.take(e + 1));
                    }
                },
                None => {
                    assert(w[e as int].0 != location);
                    assert(order_view(new_cards@) =~= w.take(e + 1));
                },
            }
        }
        e = e + 1;
    }
    proof {
        assert(w.take(e as int) =~= w);
    }
    if !found {
        proof {
            assert(location_position(w, location) is None) by {
                if let Some(p) = location_position(w, location) {
                    assert(w[p as int].0 == location);
                }
            }
            assert(cards_at(w, location) =~= Seq::<u64>::empty());
        }
        let single = vec![id];
        assert(single@ =~= seq![id]);
        new_cards.push((location, single));
        proof {
            assert(order_view(new_cards@) =~= w.push((location, seq![id])));
        }
    }
    PromptExecutionResult::Prompt(
        Prompt {
            player,
            label,
            prompt_type: PromptType::SelectOrder(SelectOrderPrompt { cards: new_cards, moved, quantity }),
        },
    )
}

/// Actions which can be executed on `prompt`: submitting and moving cards
/// only for card ordering prompts, and moving a card only to a position that
/// exists.
pub open spec fn action_applies(prompt: &Prompt, action: PromptAction) -> bool {
    match action {
        PromptAction::SelectOrder(id, location, index) => prompt.prompt_type matches PromptType::SelectOrder(
            s,
        ) && s.moved.wf() && can_place(s@, id, location, index as nat),
        PromptAction::SubmitCardSelection => prompt.prompt_type is SelectOrder,
        _ => true,
    }
}

/// Applies `action` to `prompt`: moving a card keeps the prompt open in its
/// new state; every other action answers it.
pub fn execute(prompt: Prompt, action: PromptAction) -> (result: PromptExecutionResult)
    requires
        action_applies(&prompt, action),
    ensures
        match action {
            PromptAction::PickNumber(n) => result matches PromptExecutionResult::PromptResponse(
                r,
            ) && r == PromptResponse::PickNumber(n),
            PromptAction::SelectEntity(e) => result matches PromptExecutionResult::PromptResponse(
                r,
            ) && r == PromptResponse::EntityChoice(e),
            PromptAction::SelectChoice(i) => result matches PromptExecutionResult::PromptResponse(
                r,
            ) && r == PromptResponse::MultipleChoice(i),
            PromptAction::SubmitCardSelection => result matches PromptExecutionResult::PromptResponse(
                PromptResponse::SelectOrder(cards),
            ) && (prompt.prompt_type matches PromptType::SelectOrder(s) && order_view(cards@)
                == s@),
            PromptAction::SelectOrder(id, location, index) => result matches PromptExecutionResult::Prompt(
                p,
            ) && p.player == prompt.player && p.label == prompt.label && (p.prompt_type matches PromptType::SelectOrder(
                s,
            ) && (prompt.prompt_type matches PromptType::SelectOrder(old_s) && s@ == placed_cards(
                old_s@,
                id,
                location,
                index as nat,
            ) && s.moved.wf() && s.moved@.to_set() == old_s.moved@.to_set().insert(id)
                && s.quantity == old_s.quantity)),
        },
{
    match action {
        PromptAction::PickNumber(n) => PromptExecutionResult::PromptResponse(
            PromptResponse::PickNumber(n),
        ),
        PromptAction::SelectOrder(id, location, index) => select_order(prompt, id, location, index),
        PromptAction::SelectEntity(entity_id) => PromptExecutionResult::PromptResponse(
            PromptResponse::EntityChoice(entity_id),
        ),
        PromptAction::SubmitCardSelection => {
            let Prompt { player, label, prompt_type } = prompt;
            match prompt_type {
                PromptType::SelectOrder(data) => PromptExecutionResult::PromptResponse(
                    PromptResponse::SelectOrder(data.cards),
                ),
                other => PromptExecutionResult::Prompt(Prompt { player, label, prompt_type: other }),
            }
        },
        PromptAction::SelectChoice(index) => PromptExecutionResult::PromptResponse(
            PromptResponse::MultipleChoice(index),
        ),
    }
}

/// Where locations are listed depends only on the locations.
proof fn lemma_location_position_same_locations(
    a: Seq<(CardOrderLocation, Seq<u64>)>,
    b: Seq<(CardOrderLocation, Seq<u64>)>,
    location: CardOrderLocation,
)
    requires
        a.len() == b.len(),
        forall|i: int| 0 <= i < a.len() ==> #[trigger] a[i].0 == b[i].0,
    ensures
        location_position(a, location) == location_position(b, location),
    decreases a.len(),
{
    if a.len() > 0 {
        assert forall|i: int| 0 <= i < a.drop_first().len() implies #[trigger] a.drop_first()[i].0
            == b.drop_first()[i].0 by {
            assert(a[i + 1].0 == b[i + 1].0);
        }
        lemma_location_position_same_locations(a.drop_first(), b.drop_first(), location);
    }
}

/// A card placed at position `index` of `location` is found there, and in
/// no other location.
pub proof fn law_placed_card_is_where_it_was_put(
    cards: Seq<(CardOrderLocation, Seq<u64>)>,
    id: u64,
    location: CardOrderLocation,
    index: nat,
)
    requires
        can_place(cards, id, location, index),
    ensures
        location_position(placed_cards(cards, id, location, index), location) matches Some(p) && ({
            let placed = placed_cards(cards, id, location, index);
            &&& placed[p as int].1[index as int] == id
            &&& forall|q: int| 0 <= q < placed.len() && q != p ==> !(#[trigger] placed[q]).1.contains(id)
        }),
{
    let w = without_card(cards, id);
    let placed = placed_cards(cards, id, location, index);
    lemma_location_position(w, location);
    assert forall|q: int| 0 <= q < w.len() implies !(#[trigger] w[q]).1.contains(id) by {
        lemma_remove_id_contains(cards[q].1, id, id);
    }
    match location_position(w, location) {
        Some(p) => {
            assert(forall|i: int| 0 <= i < w.len() ==> #[trigger] placed[i].0 == w[i].0);
            lemma_location_position_same_locations(placed, w, location);
            assert(placed[p as int].1 == w[p as int].1.insert(index as int, id));
            assert forall|q: int| 0 <= q < placed.len() && q != p implies !(#[trigger] placed[q]).1.contains(id) by {
                assert(placed[q] == w[q]);
            }
        },
        None => {
            lemma_location_position(placed, location);
            assert(placed[w.len() as int].0 == location);
            match location_position(placed, location) {
                Some(p) => {
                    if p < w.len() {
                        assert(placed[p as int] == w[p as int]);
                    }
                    assert(p == w.len());
                },
                None => {
                    assert(placed[w.len() as int].0 != location);
                },
            }
            assert forall|q: int| 0 <= q < placed.len() && q != w.len() implies !(#[trigger] placed[q]).1.contains(id) by {
                assert(placed[q] == w[q]);
            }
        },
    }
}

/// An action an agent may take on a card ordering prompt: it never moves a
/// card that was already moved, nor moves a card back to `Unordered`.
pub open spec fn agent_move_allowed(moved: Seq<u64>, action: PromptAction) -> bool {
    match action {
        PromptAction::SelectOrder(id, location, _) => !moved.contains(id) && location
            != CardOrderLocation::Unordered,
        _ => true,
    }
}

/// Every element of `s` satisfies `agent_move_allowed`.
pub open spec fn all_allowed(moved: Seq<u64>, s: Seq<PromptAction>) -> bool {
    forall|i: int| 0 <= i < s.len() ==> agent_move_allowed(moved, #[trigger] s[i])
}

/// Joining sequences of allowed actions gives allowed actions.
proof fn lemma_all_allowed_concat(moved: Seq<u64>, a: Seq<PromptAction>, b: Seq<PromptAction>)
    requires
        all_allowed(moved, a),
        all_allowed(moved, b),
    ensures
        all_allowed(moved, a + b),
{
    assert forall|i: int| 0 <= i < (a + b).len() implies agent_move_allowed(moved, #[trigger] (a + b)[i]) by {
        if i < a.len() {
            assert((a + b)[i] == a[i]);
        } else {
            assert((a + b)[i] == b[i - a.len()]);
        }
    }
}

/// Whether `action` moves card `id` into `location`.
pub open spec fn is_move_of(action: PromptAction, id: u64, location: CardOrderLocation) -> bool {
    match action {
        PromptAction::SelectOrder(x, l, _) => x == id && l == location,
        _ => false,
    }
}

/// Moves of a card all name that card and that location.
proof fn lemma_location_moves_shape(id: u64, location: CardOrderLocation, n: nat, skip: Option<nat>)
    ensures
        forall|i: int|
            0 <= i < location_moves(id, location, n, skip).len() ==> is_move_of(
                #[trigger] location_moves(id, location, n, skip)[i],
                id,
                location,
            ),
    decreases n,
{
    if n > 0 {
        lemma_location_moves_shape(id, location, (n - 1) as nat, skip);
        let a = location_moves(id, location, (n - 1) as nat, skip);
        let all = location_moves(id, location, n, skip);
        assert forall|i: int| 0 <= i < all.len() implies is_move_of(#[trigger] all[i], id, location) by {
            if i < a.len() {
                assert(all[i] == a[i]);
            }
        }
    }
}

/// An agent's moves of a card that was not moved never go to `Unordered`.
proof fn lemma_agent_card_moves_prefix(
    cards: Seq<(CardOrderLocation, Seq<u64>)>,
    moved: Seq<u64>,
    id: u64,
    current: CardOrderLocation,
    index: nat,
    k: nat,
)
    requires
        !moved.contains(id),
        k <= cards.len(),
    ensures
        all_allowed(moved, card_moves_prefix(cards, false, id, current, index, k)),
    decreases k,
{
    if k > 0 {
        lemma_agent_card_moves_prefix(cards, moved, id, current, index, (k - 1) as nat);
        let location = cards[k - 1].0;
        if !(location == CardOrderLocation::Unordered) {
            let skip = if location == current {
                Some(index)
            } else {
                None
            };
            let m = location_moves(id, location, cards[k - 1].1.len() + 1, skip);
            lemma_location_moves_shape(id, location, cards[k - 1].1.len() + 1, skip);
            assert forall|i: int| 0 <= i < m.len() implies agent_move_allowed(moved, #[trigger] m[i]) by {}
            lemma_all_allowed_concat(
                moved,
                card_moves_prefix(cards, false, id, current, index, (k - 1) as nat),
                m,
            );
        } else {
            assert(card_moves_prefix(cards, false, id, current, index, (k - 1) as nat) + Seq::empty()
                =~= card_moves_prefix(cards, false, id, current, index, (k - 1) as nat));
        }
    }
}

/// An agent's moves of the cards of one location are allowed.
proof fn lemma_agent_entry_moves(cards: Seq<(CardOrderLocation, Seq<u64>)>, moved: Seq<u64>, e: nat, i: nat)
    requires
        e < cards.len(),
        i <= cards[e as int].1.len(),
    ensures
        all_allowed(moved, entry_moves(cards, moved, false, e, i)),
    decreases i,
{
    if i > 0 {
        lemma_agent_entry_moves(cards, moved, e, (i - 1) as nat);
        let id = cards[e as int].1[i - 1];
        if !moved.contains(id) {
            lemma_agent_card_moves_prefix(cards, moved, id, cards[e as int].0, (i - 1) as nat, cards.len());
        }
        lemma_all_allowed_concat(
            moved,
            entry_moves(cards, moved, false, e, (i - 1) as nat),
            card_moves(cards, moved, false, id, cards[e as int].0, (i - 1) as nat),
        );
    }
}

/// An agent's moves of the cards of the first `k` locations are allowed.
proof fn lemma_agent_all_moves(cards: Seq<(CardOrderLocation, Seq<u64>)>, moved: Seq<u64>, k: nat)
    requires
        k <= cards.len(),
    ensures
        all_allowed(moved, all_moves(cards, moved, false, k)),
    decreases k,
{
    if k > 0 {
        lemma_agent_all_moves(cards, moved, (k - 1) as nat);
        lemma_agent_entry_moves(cards, moved, (k - 1) as nat, cards[k - 1].1.len());
        lemma_all_allowed_concat(
            moved,
            all_moves(cards, moved, false, (k - 1) as nat),
            entry_moves(cards, moved, false, (k - 1) as nat, cards[k - 1].1.len()),
        );
    }
}

/// An agent answering a card ordering prompt is never offered to move a
/// card twice, nor to move a card back to `Unordered`.
pub proof fn law_agent_ordering_moves_are_new(prompt: &SelectOrderPrompt, action: PromptAction)
    requires
        spec_select_order_actions(prompt, false).contains(action),
    ensures
        agent_move_allowed(prompt.moved@, action),
{
    let submit = if at_maximum(prompt) {
        seq![PromptAction::SubmitCardSelection]
    } else {
        Seq::empty()
    };
    let moves = if !at_maximum(prompt) {
        all_moves(prompt@, prompt.moved@, false, prompt@.len())
    } else {
        Seq::empty()
    };
    if !at_maximum(prompt) {
        lemma_agent_all_moves(prompt@, prompt.moved@, prompt@.len());
    }
    assert(all_allowed(prompt.moved@, submit));
    assert(all_allowed(prompt.moved@, moves));
    lemma_all_allowed_concat(prompt.moved@, submit, moves);
    let all = spec_select_order_actions(prompt, false);
    assert(all == submit + moves);
    let i = choose|i: int| 0 <= i < all.len() && all[i] == action;
    assert(agent_move_allowed(prompt.moved@, all[i]));
}

} // verus!
