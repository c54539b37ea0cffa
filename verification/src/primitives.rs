//! Basic values of the game rules: players, sets of players, turn steps,
//! zones and card types.
use vstd::prelude::*;

verus! {

/// A seat at the table.
#[derive(Debug, Clone, Copy, PartialEq, Eq, Hash, Structural)]
pub enum PlayerName {
    One,
    Two,
    Three,
    Four,
}

/// Position of a player at the table, from 0.
pub open spec fn player_index(player: PlayerName) -> nat {
    match player {
        PlayerName::One => 0,
        PlayerName::Two => 1,
        PlayerName::Three => 2,
        PlayerName::Four => 3,
    }
}

/// The player seated at position `i`, from 0 to 3.
pub open spec fn player_at(i: nat) -> PlayerName {
    if i == 0 {
        PlayerName::One
    } else if i == 1 {
        PlayerName::Two
    } else if i == 2 {
        PlayerName::Three
    } else {
        PlayerName::Four
    }
}

impl PlayerName {
    /// Position of the player at the table, from 0.
    pub fn index(&self) -> (i: usize)
        ensures
            i == player_index(*self),
    {
        match self {
            PlayerName::One => 0,
            PlayerName::Two => 1,
            PlayerName::Three => 2,
            PlayerName::Four => 3,
        }
    }
}

/// A set of players.
#[derive(Debug, Clone, Copy, PartialEq, Eq, Hash, Structural)]
pub struct PlayerSet {
    pub one: bool,
    pub two: bool,
    pub three: bool,
    pub four: bool,
}

impl PlayerSet {
    /// Whether `player` is in the set.
    pub open spec fn has(&self, player: PlayerName) -> bool {
        match player {
            PlayerName::One => self.one,
            PlayerName::Two => self.two,
            PlayerName::Three => self.three,
            PlayerName::Four => self.four,
        }
    }

    /// The players in the set.
    pub open spec fn view(&self) -> Set<PlayerName> {
        Set::new(|p: PlayerName| self.has(p))
    }

    /// Number of players in the set.
    pub open spec fn count(&self) -> nat {
        (if self.one {
            1nat
        } else {
            0
        }) + (if self.two {
            1nat
        } else {
            0
        }) + (if self.three {
            1nat
        } else {
            0
        }) + (if self.four {
            1nat
        } else {
            0
        })
    }

    /// The empty set.
    pub fn empty() -> (s: PlayerSet)
        ensures
            forall|p: PlayerName| !s.has(p),
            s.count() == 0,
    {
        PlayerSet { one: false, two: false, three: false, four: false }
    }

    /// The set holding only `player`.
    pub fn only(player: PlayerName) -> (s: PlayerSet)
        ensures
            forall|p: PlayerName| s.has(p) <==> p == player,
            s.count() == 1,
    {
        let mut s = PlayerSet::empty();
        s.insert(player);
        s
    }

    /// Whether `player` is in the set.
    pub fn contains(&self, player: PlayerName) -> (b: bool)
        ensures
            b == self.has(player),
    {
        match player {
            PlayerName::One => self.one,
            PlayerName::Two => self.two,
            PlayerName::Three => self.three,
            PlayerName::Four => self.four,
        }
    }

    /// Adds `player`.
    pub fn insert(&mut self, player: PlayerName)
        ensures
            forall|p: PlayerName| final(self).has(p) <==> (old(self).has(p) || p == player),
            final(self).count() == old(self).count() + (if old(self).has(player) {
                0int
            } else {
                1int
            }),
    {
        match player {
            PlayerName::One => self.one = true,
            PlayerName::Two => self.two = true,
            PlayerName::Three => self.three = true,
            PlayerName::Four => self.four = true,
        }
    }

    /// Removes every player.
    pub fn clear(&mut self)
        ensures
            forall|p: PlayerName| !final(self).has(p),
            final(self).count() == 0,
    {
        *self = PlayerSet::empty();
    }

    /// Number of players in the set.
    pub fn len(&self) -> (n: usize)
        ensures
            n == self.count(),
    {
        let mut n: usize = 0;
        if self.one {
            n = n + 1;
        }
        if self.two {
            n = n + 1;
        }
        if self.three {
            n = n + 1;
        }
        if self.four {
            n = n + 1;
        }
        n
    }

    /// Whether the set is empty.
    pub fn is_empty(&self) -> (b: bool)
        ensures
            b == (self.count() == 0),
            b == (forall|p: PlayerName| !self.has(p)),
    {
        proof {
            assert(self.has(PlayerName::One) == self.one);
            assert(self.has(PlayerName::Two) == self.two);
            assert(self.has(PlayerName::Three) == self.three);
            assert(self.has(PlayerName::Four) == self.four);
        }
        !(self.one || self.two || self.three || self.four)
    }

    /// The players of this set that are not in `other`.
    pub fn difference(&self, other: &PlayerSet) -> (s: PlayerSet)
        ensures
            forall|p: PlayerName| s.has(p) <==> (self.has(p) && !other.has(p)),
    {
        PlayerSet {
            one: self.one && !other.one,
            two: self.two && !other.two,
            three: self.three && !other.three,
            four: self.four && !other.four,
        }
    }
}

/// Steps of a turn, in order.
#[derive(Debug, Clone, Copy, PartialEq, Eq, Hash, Structural)]
pub enum GamePhaseStep {
    Untap,
    Upkeep,
    Draw,
    PreCombatMain,
    BeginCombat,
    DeclareAttackers,
    DeclareBlockers,
    FirstStrikeDamage,
    CombatDamage,
    EndCombat,
    PostCombatMain,
    EndStep,
    Cleanup,
}

/// The step after `step`; after the cleanup step the next turn begins with
/// its untap step.
pub open spec fn spec_following_step(step: GamePhaseStep) -> GamePhaseStep {
    match step {
        GamePhaseStep::Untap => GamePhaseStep::Upkeep,
        GamePhaseStep::Upkeep => GamePhaseStep::Draw,
        GamePhaseStep::Draw => GamePhaseStep::PreCombatMain,
        GamePhaseStep::PreCombatMain => GamePhaseStep::BeginCombat,
        GamePhaseStep::BeginCombat => GamePhaseStep::DeclareAttackers,
        GamePhaseStep::DeclareAttackers => GamePhaseStep::DeclareBlockers,
        GamePhaseStep::DeclareBlockers => GamePhaseStep::FirstStrikeDamage,
        GamePhaseStep::FirstStrikeDamage => GamePhaseStep::CombatDamage,
        GamePhaseStep::CombatDamage => GamePhaseStep::EndCombat,
        GamePhaseStep::EndCombat => GamePhaseStep::PostCombatMain,
        GamePhaseStep::PostCombatMain => GamePhaseStep::EndStep,
        GamePhaseStep::EndStep => GamePhaseStep::Cleanup,
        GamePhaseStep::Cleanup => GamePhaseStep::Untap,
    }
}

impl GamePhaseStep {
    /// Whether the step is one of the two main phases.
    pub open spec fn spec_is_main_phase(self) -> bool {
        self == GamePhaseStep::PreCombatMain || self == GamePhaseStep::PostCombatMain
    }

    /// Whether the step is one of the two main phases.
    pub fn is_main_phase(&self) -> (b: bool)
        ensures
            b == self.spec_is_main_phase(),
    {
        match self {
            GamePhaseStep::PreCombatMain | GamePhaseStep::PostCombatMain => true,
            _ => false,
        }
    }

    /// The step after this one, wrapping around to the untap step.
    pub fn following(&self) -> (next: GamePhaseStep)
        ensures
            next == spec_following_step(*self),
    {
        match self {
            GamePhaseStep::Untap => GamePhaseStep::Upkeep,
            GamePhaseStep::Upkeep => GamePhaseStep::Draw,
            GamePhaseStep::Draw => GamePhaseStep::PreCombatMain,
            GamePhaseStep::PreCombatMain => GamePhaseStep::BeginCombat,
            GamePhaseStep::BeginCombat => GamePhaseStep::DeclareAttackers,
            GamePhaseStep::DeclareAttackers => GamePhaseStep::DeclareBlockers,
            GamePhaseStep::DeclareBlockers => GamePhaseStep::FirstStrikeDamage,
            GamePhaseStep::FirstStrikeDamage => GamePhaseStep::CombatDamage,
            GamePhaseStep::CombatDamage => GamePhaseStep::EndCombat,
            GamePhaseStep::EndCombat => GamePhaseStep::PostCombatMain,
            GamePhaseStep::PostCombatMain => GamePhaseStep::EndStep,
            GamePhaseStep::EndStep => GamePhaseStep::Cleanup,
            GamePhaseStep::Cleanup => GamePhaseStep::Untap,
        }
    }
}

/// Whose turn it is and how many turns have begun.
#[derive(Debug, Clone, Copy, PartialEq, Eq, Hash, Structural)]
pub struct TurnData {
    pub active_player: PlayerName,
    pub turn_number: u64,
}

/// Places a card can be.
#[derive(Debug, Clone, Copy, PartialEq, Eq, Hash, Structural)]
pub enum Zone {
    Hand,
    Graveyard,
    Library,
    Battlefield,
    Stack,
    Exiled,
    Command,
    OutsideTheGame,
}

/// The card types a card has.
#[derive(Debug, Clone, Copy, PartialEq, Eq, Hash, Structural)]
pub struct CardTypes {
    pub artifact: bool,
    pub battle: bool,
    pub creature: bool,
    pub enchantment: bool,
    pub instant: bool,
    pub land: bool,
    pub planeswalker: bool,
    pub sorcery: bool,
}

impl CardTypes {
    /// Whether a card with these types is a permanent once it resolves.
    pub open spec fn spec_is_permanent(self) -> bool {
        self.artifact || self.battle || self.creature || self.enchantment || self.land
            || self.planeswalker
    }

    /// Whether a card with these types is a permanent once it resolves.
    pub fn is_permanent(&self) -> (b: bool)
        ensures
            b == self.spec_is_permanent(),
    {
        self.artifact || self.battle || self.creature || self.enchantment || self.land
            || self.planeswalker
    }
}

/// The colors a card has.
#[derive(Debug, Clone, Copy, PartialEq, Eq, Hash, Structural)]
pub struct Colors {
    pub white: bool,
    pub blue: bool,
    pub black: bool,
    pub red: bool,
    pub green: bool,
}

/// Every player.
pub open spec fn everyone() -> PlayerSet {
    PlayerSet { one: true, two: true, three: true, four: true }
}

/// The colors.
#[derive(Debug, Clone, Copy, PartialEq, Eq, Hash, Structural)]
pub enum Color {
    White,
    Blue,
    Black,
    Red,
    Green,
}

impl Colors {
    /// Whether `color` is among the colors.
    pub open spec fn has(&self, color: Color) -> bool {
        match color {
            Color::White => self.white,
            Color::Blue => self.blue,
            Color::Black => self.black,
            Color::Red => self.red,
            Color::Green => self.green,
        }
    }

    /// Whether `color` is among the colors.
    pub fn contains(&self, color: Color) -> (b: bool)
        ensures
            b == self.has(color),
    {
        match color {
            Color::White => self.white,
            Color::Blue => self.blue,
            Color::Black => self.black,
            Color::Red => self.red,
            Color::Green => self.green,
        }
    }
}

/// The basic land types a land has, and how many other land types.
#[derive(Debug, Clone, Copy, PartialEq, Eq, Hash, Structural)]
pub struct LandSubtypes {
    pub plains: bool,
    pub island: bool,
    pub swamp: bool,
    pub mountain: bool,
    pub forest: bool,
    pub others: u8,
}

/// The basic land types.
#[derive(Debug, Clone, Copy, PartialEq, Eq, Hash, Structural)]
pub enum LandType {
    Plains,
    Island,
    Swamp,
    Mountain,
    Forest,
}

impl LandSubtypes {
    /// Whether the land has basic land type `t`.
    pub open spec fn has(&self, t: LandType) -> bool {
        match t {
            LandType::Plains => self.plains,
            LandType::Island => self.island,
            LandType::Swamp => self.swamp,
            LandType::Mountain => self.mountain,
            LandType::Forest => self.forest,
        }
    }

    /// Number of land types.
    pub open spec fn count(&self) -> nat {
        (if self.plains {
            1nat
        } else {
            0
        }) + (if self.island {
            1nat
        } else {
            0
        }) + (if self.swamp {
            1nat
        } else {
            0
        }) + (if self.mountain {
            1nat
        } else {
            0
        }) + (if self.forest {
            1nat
        } else {
            0
        }) + self.others as nat
    }

    /// Whether the land has basic land type `t`.
    pub fn contains(&self, t: LandType) -> (b: bool)
        ensures
            b == self.has(t),
    {
        match t {
            LandType::Plains => self.plains,
            LandType::Island => self.island,
            LandType::Swamp => self.swamp,
            LandType::Mountain => self.mountain,
            LandType::Forest => self.forest,
        }
    }

    /// Number of land types.
    pub fn len(&self) -> (n: usize)
        ensures
            n == self.count(),
    {
        let mut n: usize = self.others as usize;
        if self.plains {
            n = n + 1;
        }
        if self.island {
            n = n + 1;
        }
        if self.swamp {
            n = n + 1;
        }
        if self.mountain {
            n = n + 1;
        }
        if self.forest {
            n = n + 1;
        }
        n
    }
}

} // verus!
