//! The game of Nim, used to exercise game-playing agents: three piles of
//! counters, players alternate removing any positive number of counters from a
//! single pile, and the player who cannot move loses.
use vstd::prelude::*;

verus! {

/// One of the two players of a game of Nim.
#[derive(Debug, Clone, Copy, PartialEq, Eq, Hash, Structural)]
pub enum NimPlayer {
    One,
    Two,
}

/// One of the three piles of a game of Nim.
#[derive(Debug, Clone, Copy, PartialEq, Eq, Hash, Structural)]
pub enum NimPile {
    PileA,
    PileB,
    PileC,
}

/// Removes `amount` counters from `pile`.
#[derive(Debug, Clone, Copy, PartialEq, Eq, Hash, Structural)]
pub struct NimAction {
    pub pile: NimPile,
    pub amount: u32,
}

/// Number of counters left in each pile.
#[derive(Debug, Clone, Copy, PartialEq, Eq, Hash, Structural)]
pub struct NimPiles {
    pub pile_a: u32,
    pub pile_b: u32,
    pub pile_c: u32,
}

/// Whether a game of Nim is still being played, and who won it otherwise.
#[derive(Debug, Clone, Copy, PartialEq, Eq, Structural)]
pub enum NimStatus {
    InProgress { current_turn: NimPlayer },
    Completed { winner: NimPlayer },
}

/// State of a game of Nim: the piles and the player whose turn it is.
#[derive(Debug)]
pub struct NimState {
    pub piles: NimPiles,
    pub turn: NimPlayer,
}

/// Evaluator which returns 1 if the given game state is a winning state for
/// the player and -1 otherwise.
#[derive(Debug, Clone)]
pub struct NimPerfectEvaluator {}

/// The player who is not `player`.
pub open spec fn opponent(player: NimPlayer) -> NimPlayer {
    match player {
        NimPlayer::One => NimPlayer::Two,
        NimPlayer::Two => NimPlayer::One,
    }
}

/// Size of `pile` in `piles`.
pub open spec fn pile_size(piles: NimPiles, pile: NimPile) -> u32 {
    match pile {
        NimPile::PileA => piles.pile_a,
        NimPile::PileB => piles.pile_b,
        NimPile::PileC => piles.pile_c,
    }
}

/// The piles with `pile` set to `value`.
pub open spec fn with_pile(piles: NimPiles, pile: NimPile, value: u32) -> NimPiles {
    match pile {
        NimPile::PileA => NimPiles { pile_a: value, ..piles },
        NimPile::PileB => NimPiles { pile_b: value, ..piles },
        NimPile::PileC => NimPiles { pile_c: value, ..piles },
    }
}

/// Exclusive or of the three pile sizes.
pub open spec fn spec_nim_sum(piles: NimPiles) -> u32 {
    piles.pile_a ^ piles.pile_b ^ piles.pile_c
}

/// Total number of counters on the table.
pub open spec fn total_counters(piles: NimPiles) -> int {
    piles.pile_a + piles.pile_b + piles.pile_c
}

/// An action is legal when it removes between one counter and the whole pile.
pub open spec fn is_legal_action(piles: NimPiles, action: NimAction) -> bool {
    1 <= action.amount <= pile_size(piles, action.pile)
}

/// The piles after `action` removed its counters.
pub open spec fn piles_after(piles: NimPiles, action: NimAction) -> NimPiles {
    with_pile(piles, action.pile, (pile_size(piles, action.pile) - action.amount) as u32)
}

/// All actions that take from `pile`, by increasing amount.
pub open spec fn actions_for_pile(pile: NimPile, size: u32) -> Seq<NimAction> {
    Seq::new(size as nat, |i: int| NimAction { pile, amount: (i + 1) as u32 })
}

/// All legal actions: those for pile A, then pile B, then pile C.
pub open spec fn spec_legal_actions(piles: NimPiles) -> Seq<NimAction> {
    actions_for_pile(NimPile::PileA, piles.pile_a) + actions_for_pile(NimPile::PileB, piles.pile_b)
        + actions_for_pile(NimPile::PileC, piles.pile_c)
}

/// Value of a state for `player`: a state is winning for the player to move
/// exactly when the nim-sum is not zero.
pub open spec fn spec_evaluate(piles: NimPiles, turn: NimPlayer, player: NimPlayer) -> int {
    let count = spec_nim_sum(piles);
    if player == turn {
        if count == 0 {
            -1
        } else {
            1
        }
    } else if count == 0 {
        1
    } else {
        -1
    }
}

/// Legal actions for the first `n` piles of `all_piles`.
pub open spec fn legal_actions_prefix(piles: NimPiles, n: int) -> Seq<NimAction>
    decreases n,
{
    if n <= 0 {
        Seq::empty()
    } else {
        let pile = seq![NimPile::PileA, NimPile::PileB, NimPile::PileC][n - 1];
        legal_actions_prefix(piles, n - 1) + actions_for_pile(pile, pile_size(piles, pile))
    }
}

/// The status of a game with these piles and player to move.
pub open spec fn spec_status(piles: NimPiles, turn: NimPlayer) -> NimStatus {
    if piles.pile_a == 0 && piles.pile_b == 0 && piles.pile_c == 0 {
        NimStatus::Completed { winner: opponent(turn) }
    } else {
        NimStatus::InProgress { current_turn: turn }
    }
}

impl NimPile {
    /// Display name of the pile.
    pub fn display_name(&self) -> (name: String)
        ensures
            name@ == (match *self {
                NimPile::PileA => "Pile A"@,
                NimPile::PileB => "Pile B"@,
                NimPile::PileC => "Pile C"@,
            }),
    {
        match self {
            NimPile::PileA => String::from_str("Pile A"),
            NimPile::PileB => String::from_str("Pile B"),
            NimPile::PileC => String::from_str("Pile C"),
        }
    }
}

impl NimPiles {
    /// Number of counters in `pile`.
    pub fn get(&self, pile: NimPile) -> (size: u32)
        ensures
            size == pile_size(*self, pile),
    {
        match pile {
            NimPile::PileA => self.pile_a,
            NimPile::PileB => self.pile_b,
            NimPile::PileC => self.pile_c,
        }
    }
}

/// The three piles, in order.
pub fn all_piles() -> (piles: Vec<NimPile>)
    ensures
        piles@ == seq![NimPile::PileA, NimPile::PileB, NimPile::PileC],
{
    vec![NimPile::PileA, NimPile::PileB, NimPile::PileC]
}

/// Exclusive or of the sizes of the three piles.
pub fn nim_sum(state: &NimState) -> (sum: u32)
    ensures
        sum == spec_nim_sum(state.piles),
{
    state.piles.pile_a ^ state.piles.pile_b ^ state.piles.pile_c
}

impl NimPerfectEvaluator {
    /// Returns 1 if the state is winning for `player` under perfect play and
    /// -1 otherwise.
    pub fn evaluate(&self, state: &NimState, player: NimPlayer) -> (value: i32)
        ensures
            value == spec_evaluate(state.piles, state.turn, player),
    {
        let count = nim_sum(state);
        if player == state.turn {
            if count == 0 {
                -1
            } else {
                1
            }
        } else if count == 0 {
            1
        } else {
            -1
        }
    }
}

/// Appends every action taking from `pile`, which holds `size` counters.
fn append_pile_actions(actions: &mut Vec<NimAction>, pile: NimPile, size: u32)
    ensures
        final(actions)@ == old(actions)@ + actions_for_pile(pile, size),
{
    let ghost start = actions@;
    let mut k: u32 = 0;
    while k < size
        invariant
            0 <= k <= size,
            actions@ == start + actions_for_pile(pile, size).take(k as int),
        decreases size - k,
    {
        actions.push(NimAction { pile, amount: k + 1 });
        proof {
            assert(actions_for_pile(pile, size).take(k + 1) =~= actions_for_pile(pile, size).take(
                k as int,
            ).push(NimAction { pile, amount: (k + 1) as u32 }));
        }
        k = k + 1;
    }
    proof {
        assert(actions_for_pile(pile, size).take(size as int) =~= actions_for_pile(pile, size));
    }
}

impl NimState {
    /// A game with `pile_size` counters in each pile, player one to move.
    pub fn new(pile_size: u32) -> (state: NimState)
        ensures
            state.piles == (NimPiles { pile_a: pile_size, pile_b: pile_size, pile_c: pile_size }),
            state.turn == NimPlayer::One,
    {
        Self::new_with_piles(pile_size, pile_size, pile_size)
    }

    /// A game with the given pile sizes, player one to move.
    pub fn new_with_piles(a: u32, b: u32, c: u32) -> (state: NimState)
        ensures
            state.piles == (NimPiles { pile_a: a, pile_b: b, pile_c: c }),
            state.turn == NimPlayer::One,
    {
        NimState { piles: NimPiles { pile_a: a, pile_b: b, pile_c: c }, turn: NimPlayer::One }
    }

    /// A copy of this state.
    pub fn make_copy(&self) -> (copy: NimState)
        ensures
            copy.piles == self.piles,
            copy.turn == self.turn,
    {
        NimState { piles: self.piles, turn: self.turn }
    }

    /// Every legal action: for each pile in order, remove 1 up to all of its
    /// counters.
    pub fn legal_actions(&self, _player: NimPlayer) -> (actions: Vec<NimAction>)
        ensures
            actions@ == spec_legal_actions(self.piles),
    {
        let piles = all_piles();
        let mut actions: Vec<NimAction> = Vec::new();
        let mut i: usize = 0;
        while i < piles.len()
            invariant
                piles@ == seq![NimPile::PileA, NimPile::PileB, NimPile::PileC],
                0 <= i <= 3,
                actions@ == legal_actions_prefix(self.piles, i as int),
            decreases 3 - i,
        {
            let pile = piles[i];
            append_pile_actions(&mut actions, pile, self.piles.get(pile));
            i = i + 1;
        }
        proof {
            reveal_with_fuel(legal_actions_prefix, 4);
            assert(actions@ =~= spec_legal_actions(self.piles));
        }
        actions
    }

    /// `player` takes `action.amount` counters from `action.pile`; the turn
    /// passes to the other player.
    pub fn execute_action(&mut self, player: NimPlayer, action: NimAction)
        requires
            action.amount <= pile_size(old(self).piles, action.pile),
        ensures
            final(self).piles == piles_after(old(self).piles, action),
            final(self).turn == opponent(player),
    {
        let size = self.piles.get(action.pile);
        let remaining = size - action.amount;
        match action.pile {
            NimPile::PileA => self.piles.pile_a = remaining,
            NimPile::PileB => self.piles.pile_b = remaining,
            NimPile::PileC => self.piles.pile_c = remaining,
        }
        self.turn = match player {
            NimPlayer::One => NimPlayer::Two,
            NimPlayer::Two => NimPlayer::One,
        };
    }

    /// The game is over when every pile is empty; the player who took the
    /// last counter, i.e. the one not to move, wins.
    pub fn status(&self) -> (status: NimStatus)
        ensures
            status == spec_status(self.piles, self.turn),
    {
        let piles = all_piles();
        let mut all_empty = true;
        let mut i: usize = 0;
        while i < piles.len()
            invariant
                piles@ == seq![NimPile::PileA, NimPile::PileB, NimPile::PileC],
                0 <= i <= 3,
                all_empty <==> (forall|j: int|
                    0 <= j < i ==> pile_size(self.piles, #[trigger] piles@[j]) == 0),
            decreases 3 - i,
        {
            if self.piles.get(piles[i]) != 0 {
                all_empty = false;
            }
            i = i + 1;
        }
        proof {
            assert(pile_size(self.piles, piles@[0]) == self.piles.pile_a);
            assert(pile_size(self.piles, piles@[1]) == self.piles.pile_b);
            assert(pile_size(self.piles, piles@[2]) == self.piles.pile_c);
        }
        if all_empty {
            NimStatus::Completed {
                winner: match self.turn {
                    NimPlayer::One => NimPlayer::Two,
                    NimPlayer::Two => NimPlayer::One,
                },
            }
        } else {
            NimStatus::InProgress { current_turn: self.turn }
        }
    }
}

} // verus!

verus! {

/// From a state whose nim-sum is zero, every legal action leads to a state
/// whose nim-sum is not zero.
pub proof fn law_balanced_state_every_move_unbalances(piles: NimPiles, action: NimAction)
    requires
        spec_nim_sum(piles) == 0,
        is_legal_action(piles, action),
    ensures
        spec_nim_sum(piles_after(piles, action)) != 0,
{
    let a = piles.pile_a;
    let b = piles.pile_b;
    let c = piles.pile_c;
    let x = (pile_size(piles, action.pile) - action.amount) as u32;
    match action.pile {
        NimPile::PileA => {
            assert(a ^ b ^ c == 0 && x != a ==> x ^ b ^ c != 0) by (bit_vector);
        },
        NimPile::PileB => {
            assert(a ^ b ^ c == 0 && x != b ==> a ^ x ^ c != 0) by (bit_vector);
        },
        NimPile::PileC => {
            assert(a ^ b ^ c == 0 && x != c ==> a ^ b ^ x != 0) by (bit_vector);
        },
    }
}

/// From a state whose nim-sum is not zero, some legal action leads to a state
/// whose nim-sum is zero.
pub proof fn law_unbalanced_state_has_balancing_move(piles: NimPiles)
    requires
        spec_nim_sum(piles) != 0,
    ensures
        exists|action: NimAction|
            is_legal_action(piles, action) && spec_nim_sum(#[trigger] piles_after(piles, action))
                == 0,
{
    let a = piles.pile_a;
    let b = piles.pile_b;
    let c = piles.pile_c;
    assert(a ^ b ^ c != 0 ==> ((a ^ (a ^ b ^ c)) < a || (b ^ (a ^ b ^ c)) < b || (c ^ (a ^ b
        ^ c)) < c)) by (bit_vector);
    assert((a ^ (a ^ b ^ c)) ^ b ^ c == 0) by (bit_vector);
    assert(a ^ (b ^ (a ^ b ^ c)) ^ c == 0) by (bit_vector);
    assert(a ^ b ^ (c ^ (a ^ b ^ c)) == 0) by (bit_vector);
    let s = a ^ b ^ c;
    if (a ^ s) < a {
        let action = NimAction { pile: NimPile::PileA, amount: (a - (a ^ s)) as u32 };
        assert(piles_after(piles, action).pile_a == a ^ s);
        assert(is_legal_action(piles, action) && spec_nim_sum(piles_after(piles, action)) == 0);
    } else if (b ^ s) < b {
        let action = NimAction { pile: NimPile::PileB, amount: (b - (b ^ s)) as u32 };
        assert(piles_after(piles, action).pile_b == b ^ s);
        assert(is_legal_action(piles, action) && spec_nim_sum(piles_after(piles, action)) == 0);
    } else {
        let action = NimAction { pile: NimPile::PileC, amount: (c - (c ^ s)) as u32 };
        assert(piles_after(piles, action).pile_c == c ^ s);
        assert(is_legal_action(piles, action) && spec_nim_sum(piles_after(piles, action)) == 0);
    }
}

/// The perfect evaluator rates a state as winning (1) for the player to move
/// exactly when that player has a legal action after which the evaluator
/// still rates the game as winning for them; a state it rates as losing
/// (-1) stays losing after every legal action.
pub proof fn law_evaluator_is_perfect(piles: NimPiles, turn: NimPlayer)
    ensures
        spec_evaluate(piles, turn, turn) == 1 <==> exists|action: NimAction|
            is_legal_action(piles, action) && spec_evaluate(
                #[trigger] piles_after(piles, action),
                opponent(turn),
                turn,
            ) == 1,
        spec_evaluate(piles, turn, turn) == -1 ==> forall|action: NimAction|
            is_legal_action(piles, action) ==> spec_evaluate(
                #[trigger] piles_after(piles, action),
                opponent(turn),
                turn,
            ) == -1,
{
    if spec_nim_sum(piles) != 0 {
        law_unbalanced_state_has_balancing_move(piles);
    } else {
        assert forall|action: NimAction| is_legal_action(piles, action) implies spec_evaluate(
            #[trigger] piles_after(piles, action),
            opponent(turn),
            turn,
        ) == -1 by {
            law_balanced_state_every_move_unbalances(piles, action);
        }
    }
}

/// When the game is over, the perfect evaluator rates the winner's position
/// 1 and the loser's -1.
pub proof fn law_completed_game_rated_for_winner(piles: NimPiles, turn: NimPlayer)
    requires
        spec_status(piles, turn) is Completed,
    ensures
        spec_evaluate(piles, turn, spec_status(piles, turn)->winner) == 1,
        spec_evaluate(piles, turn, turn) == -1,
{
    let a = piles.pile_a;
    let b = piles.pile_b;
    let c = piles.pile_c;
    assert(a == 0 && b == 0 && c == 0 ==> a ^ b ^ c == 0) by (bit_vector);
}

/// The legal actions listed are exactly those removing between one counter
/// and a whole pile, and every legal action removes at least one counter
/// from the table.
pub proof fn law_legal_actions_are_exactly_legal(piles: NimPiles, action: NimAction)
    ensures
        spec_legal_actions(piles).contains(action) <==> is_legal_action(piles, action),
        is_legal_action(piles, action) ==> total_counters(piles_after(piles, action))
            < total_counters(piles),
{
    let sa = actions_for_pile(NimPile::PileA, piles.pile_a);
    let sb = actions_for_pile(NimPile::PileB, piles.pile_b);
    let sc = actions_for_pile(NimPile::PileC, piles.pile_c);
    let all = spec_legal_actions(piles);
    assert(all == sa + sb + sc);
    if is_legal_action(piles, action) {
        let k = action.amount - 1;
        match action.pile {
            NimPile::PileA => {
                assert(all[k] == sa[k]);
            },
            NimPile::PileB => {
                assert(all[sa.len() + k] == sb[k]);
            },
            NimPile::PileC => {
                assert(all[sa.len() + sb.len() + k] == sc[k]);
            },
        }
        assert(all.contains(action));
    }
    if all.contains(action) {
        let i = choose|i: int| 0 <= i < all.len() && all[i] == action;
        if i < sa.len() {
            assert(all[i] == sa[i]);
        } else if i < sa.len() + sb.len() {
            assert(all[i] == sb[i - sa.len()]);
        } else {
            assert(all[i] == sc[i - sa.len() - sb.len()]);
        }
    }
}

} // verus!

verus! {

/// The character of decimal digit `d`.
pub open spec fn digit_char(d: nat) -> char {
    if d == 0 {
        '0'
    } else if d == 1 {
        '1'
    } else if d == 2 {
        '2'
    } else if d == 3 {
        '3'
    } else if d == 4 {
        '4'
    } else if d == 5 {
        '5'
    } else if d == 6 {
        '6'
    } else if d == 7 {
        '7'
    } else if d == 8 {
        '8'
    } else {
        '9'
    }
}

/// `n` written in decimal, without leading zeros.
pub open spec fn decimal(n: nat) -> Seq<char>
    decreases n,
{
    if n < 10 {
        seq![digit_char(n)]
    } else {
        decimal(n / 10).push(digit_char(n % 10))
    }
}

/// The text of decimal digit `d`.
fn digit_str(d: u32) -> (s: &'static str)
    requires
        d < 10,
    ensures
        s@ == seq![digit_char(d as nat)],
{
    proof {
        reveal_strlit("0");
        reveal_strlit("1");
        reveal_strlit("2");
        reveal_strlit("3");
        reveal_strlit("4");
        reveal_strlit("5");
        reveal_strlit("6");
        reveal_strlit("7");
        reveal_strlit("8");
        reveal_strlit("9");
    }
    match d {
        0 => "0",
        1 => "1",
        2 => "2",
        3 => "3",
        4 => "4",
        5 => "5",
        6 => "6",
        7 => "7",
        8 => "8",
        _ => "9",
    }
}

/// Appends `n` written in decimal to `text`.
fn append_decimal(text: &mut String, n: u32)
    ensures
        final(text)@ == old(text)@ + decimal(n as nat),
    decreases n,
{
    if n >= 10 {
        append_decimal(text, n / 10);
    }
    text.append(digit_str(n % 10));
    proof {
        if n >= 10 {
            assert(decimal(n as nat) == decimal((n / 10) as nat).push(digit_char((n % 10) as nat)));
        }
    }
}

impl NimState {
    /// The piles as shown to players, e.g. "Piles: A[1] B[2] C[3]".
    pub fn to_display_string(&self) -> (text: String)
        ensures
            text@ == "Piles: A["@ + decimal(self.piles.pile_a as nat) + "] B["@ + decimal(
                self.piles.pile_b as nat,
            ) + "] C["@ + decimal(self.piles.pile_c as nat) + "]"@,
    {
        let mut text = String::from_str("Piles: A[");
        append_decimal(&mut text, self.piles.pile_a);
        text.append("] B[");
        append_decimal(&mut text, self.piles.pile_b);
        text.append("] C[");
        append_decimal(&mut text, self.piles.pile_c);
        text.append("]");
        text
    }
}

/// How good `action` is for the player to move, judged by the perfect
/// evaluator on the state it leads to.
pub open spec fn action_value(piles: NimPiles, turn: NimPlayer, action: NimAction) -> int {
    spec_evaluate(piles_after(piles, action), opponent(turn), turn)
}

/// The best move for the player to move, found by looking one move ahead
/// with the perfect evaluator: the first legal action of the highest value;
/// `None` when no action is legal.
pub fn best_action(state: &NimState) -> (best: Option<NimAction>)
    ensures
        best is None <==> spec_legal_actions(state.piles).len() == 0,
        best matches Some(a) ==> exists|i: int|
            0 <= i < spec_legal_actions(state.piles).len() && spec_legal_actions(state.piles)[i] == a
                && (forall|j: int|
                0 <= j < spec_legal_actions(state.piles).len() ==> action_value(
                    state.piles,
                    state.turn,
                    #[trigger] spec_legal_actions(state.piles)[j],
                ) <= action_value(state.piles, state.turn, a)) && (forall|j: int|
                0 <= j < i ==> action_value(
                    state.piles,
                    state.turn,
                    #[trigger] spec_legal_actions(state.piles)[j],
                ) < action_value(state.piles, state.turn, a)),
{
    let actions = state.legal_actions(state.turn);
    let ghost legal = spec_legal_actions(state.piles);
    if actions.len() == 0 {
        return None;
    }
    let evaluator = NimPerfectEvaluator {};
    let mut best_index: usize = 0;
    let mut best_value: i32 = -2;
    let mut i: usize = 0;
    while i < actions.len()
        invariant
            actions@ == legal,
            legal == spec_legal_actions(state.piles),
            0 < actions@.len(),
            i <= actions@.len(),
            best_index < actions@.len(),
            i == 0 ==> best_value == -2,
            i > 0 ==> best_index < i && best_value == action_value(state.piles, state.turn, legal[best_index as int]),
            forall|j: int| 0 <= j < i ==> action_value(state.piles, state.turn, #[trigger] legal[j]) <= best_value,
            forall|j: int| 0 <= j < best_index ==> action_value(state.piles, state.turn, #[trigger] legal[j]) < best_value,
            best_value >= -2,
        decreases actions@.len() - i,
    {
        let action = actions[i];
        proof {
            assert(legal[i as int] == action);
            law_legal_actions_are_exactly_legal(state.piles, action);
        }
        let mut next = state.make_copy();
        let mover = state.turn;
        next.execute_action(mover, action);
        let value = evaluator.evaluate(&next, mover);
        if value > best_value {
            best_value = value;
            best_index = i;
        }
        i = i + 1;
    }
    Some(actions[best_index])
}

/// Agents which can be chosen to play a game of Nim from the command line.
#[derive(Debug, Clone, Copy, PartialEq, Eq, PartialOrd, Ord, Structural)]
pub enum NimAgentName {
    Human,
    Perfect,
    Minimax,
    AlphaBeta,
    UCT1,
}

/// Command line arguments of the Nim program.
#[derive(Debug, Clone, Copy, PartialEq, Eq)]
pub struct Args {
    pub player_one: NimAgentName,
    pub player_two: NimAgentName,
    pub stack_size: u32,
    pub move_time: u64,
}

/// The pile named by a lower-case letter of a human player's input.
pub open spec fn pile_for_letter(c: char) -> Option<NimPile> {
    if c == 'a' {
        Some(NimPile::PileA)
    } else if c == 'b' {
        Some(NimPile::PileB)
    } else if c == 'c' {
        Some(NimPile::PileC)
    } else {
        None
    }
}

/// The action typed by a human player, e.g. "a2" takes two counters from
/// pile A: a pile letter then a digit from 1 to 9 no larger than the pile.
pub open spec fn spec_human_action(input: Seq<char>, piles: NimPiles) -> Option<NimAction> {
    if input.len() == 2 && pile_for_letter(input[0]) is Some && '1' <= input[1] <= '9' {
        let pile = pile_for_letter(input[0])->0;
        let amount = (input[1] as u32 - '0' as u32) as u32;
        if amount <= pile_size(piles, pile) {
            Some(NimAction { pile, amount })
        } else {
            None
        }
    } else {
        None
    }
}

/// Reads the action typed by a human player from their trimmed input line,
/// or `None` when the line does not name a legal action.
pub fn parse_human_action(input: &str, state: &NimState) -> (action: Option<NimAction>)
    ensures
        action == spec_human_action(input@, state.piles),
        action matches Some(a) ==> is_legal_action(state.piles, a),
{
    if input.unicode_len() != 2 {
        return None;
    }
    let first = input.get_char(0);
    let second = input.get_char(1);
    let pile = if first == 'a' {
        NimPile::PileA
    } else if first == 'b' {
        NimPile::PileB
    } else if first == 'c' {
        NimPile::PileC
    } else {
        return None;
    };
    if second < '1' || second > '9' {
        return None;
    }
    let amount: u32 = (second as u32) - ('0' as u32);
    if amount <= state.piles.get(pile) {
        Some(NimAction { pile, amount })
    } else {
        None
    }
}

/// A game is over exactly when no counter is left on the table, and then the
/// player who took the last counter, the one not to move, has won; while
/// counters are left, and so whenever a legal move exists, the player to
/// move is to play.
pub proof fn law_game_over_exactly_when_table_is_empty(piles: NimPiles, turn: NimPlayer, action: NimAction)
    ensures
        (spec_status(piles, turn) is Completed) <==> total_counters(piles) == 0,
        total_counters(piles) == 0 ==> spec_status(piles, turn) == (NimStatus::Completed { winner: opponent(turn) }),
        total_counters(piles) != 0 ==> spec_status(piles, turn) == (NimStatus::InProgress { current_turn: turn }),
        is_legal_action(piles, action) ==> spec_status(piles, turn) == (NimStatus::InProgress { current_turn: turn }),
{
}

} // verus!
