//! The card model: ranks, suits, and cards.
//!
//! A `Rank` is one of the thirteen ordinary ranks (Two..Ace) plus the two
//! special ranks Wizard and Jester. A `Suit` is one of the four ordinary
//! suits plus the `Suitless` sentinel carried by special cards (and used for
//! "no trump" / "no lead yet" states). A `Card` is an immutable rank/suit
//! pair.

use vstd::prelude::*;

verus! {

#[derive(Clone, Copy, Debug, Eq, PartialEq, Structural)]
pub enum Suit {
    Club,
    Diamond,
    Heart,
    Spade,
    Suitless,
}

impl Suit {
    /// The one-character display symbol of the suit; a space for `Suitless`.
    pub fn symbol(self) -> (c: char)
        ensures
            c == self.symbol_spec(),
    {
        match self {
            Suit::Club => '\u{2663}',
            Suit::Diamond => '\u{2666}',
            Suit::Heart => '\u{2665}',
            Suit::Spade => '\u{2660}',
            Suit::Suitless => ' ',
        }
    }

    pub open spec fn symbol_spec(self) -> char {
        match self {
            Suit::Club => '\u{2663}',
            Suit::Diamond => '\u{2666}',
            Suit::Heart => '\u{2665}',
            Suit::Spade => '\u{2660}',
            Suit::Suitless => ' ',
        }
    }

    /// Whether the suit is one of the four ordinary suits (not the sentinel).
    pub open spec fn is_ordinary(self) -> bool {
        self != Suit::Suitless
    }
}

#[derive(Clone, Copy, Debug, Eq, PartialEq, Structural)]
pub enum Rank {
    Two,
    Three,
    Four,
    Five,
    Six,
    Seven,
    Eight,
    Nine,
    Ten,
    Jack,
    Queen,
    King,
    Ace,
    Wizard,
    Jester,
}

impl Rank {
    /// The display symbol of the rank.
    pub fn symbol(self) -> (s: &'static str)
        ensures
            s@ == self.symbol_spec(),
    {
        match self {
            Rank::Two => "2",
            Rank::Three => "3",
            Rank::Four => "4",
            Rank::Five => "5",
            Rank::Six => "6",
            Rank::Seven => "7",
            Rank::Eight => "8",
            Rank::Nine => "9",
            Rank::Ten => "10",
            Rank::Jack => "J",
            Rank::Queen => "Q",
            Rank::King => "K",
            Rank::Ace => "A",
            Rank::Wizard => "W",
            Rank::Jester => "Je",
        }
    }

    pub open spec fn symbol_spec(self) -> Seq<char> {
        match self {
            Rank::Two => "2"@,
            Rank::Three => "3"@,
            Rank::Four => "4"@,
            Rank::Five => "5"@,
            Rank::Six => "6"@,
            Rank::Seven => "7"@,
            Rank::Eight => "8"@,
            Rank::Nine => "9"@,
            Rank::Ten => "10"@,
            Rank::Jack => "J"@,
            Rank::Queen => "Q"@,
            Rank::King => "K"@,
            Rank::Ace => "A"@,
            Rank::Wizard => "W"@,
            Rank::Jester => "Je"@,
        }
    }

    /// The integer strength of the rank: Two=2 .. Ace=14, Wizard=15,
    /// Jester=0. Used only to compare cards of matching relevance; the
    /// Wizard/Jester rules apply before any value comparison.
    pub fn value(self) -> (v: u8)
        ensures
            v == self.value_spec(),
    {
        match self {
            Rank::Two => 2,
            Rank::Three => 3,
            Rank::Four => 4,
            Rank::Five => 5,
            Rank::Six => 6,
            Rank::Seven => 7,
            Rank::Eight => 8,
            Rank::Nine => 9,
            Rank::Ten => 10,
            Rank::Jack => 11,
            Rank::Queen => 12,
            Rank::King => 13,
            Rank::Ace => 14,
            Rank::Wizard => 15,
            Rank::Jester => 0,
        }
    }

    pub open spec fn value_spec(self) -> u8 {
        match self {
            Rank::Two => 2,
            Rank::Three => 3,
            Rank::Four => 4,
            Rank::Five => 5,
            Rank::Six => 6,
            Rank::Seven => 7,
            Rank::Eight => 8,
            Rank::Nine => 9,
            Rank::Ten => 10,
            Rank::Jack => 11,
            Rank::Queen => 12,
            Rank::King => 13,
            Rank::Ace => 14,
            Rank::Wizard => 15,
            Rank::Jester => 0,
        }
    }
}

#[derive(Clone, Copy, Debug, Eq, PartialEq, Structural)]
pub struct Card {
    pub rank: Rank,
    pub suit: Suit,
}

/// The Wizard card as it sits in the deck: rank Wizard, no suit.
pub open spec fn wizard_card() -> Card {
    Card { rank: Rank::Wizard, suit: Suit::Suitless }
}

/// The Jester card as it sits in the deck: rank Jester, no suit.
pub open spec fn jester_card() -> Card {
    Card { rank: Rank::Jester, suit: Suit::Suitless }
}

impl Card {
    /// The placeholder card: a suitless Wizard (also the "no trump" marker).
    pub fn new() -> (c: Card)
        ensures
            c == wizard_card(),
    {
        Card { rank: Rank::Wizard, suit: Suit::Suitless }
    }

    /// A well-formed card: special ranks carry no suit, ordinary ranks always
    /// carry one of the four ordinary suits. (The lone exception in the game,
    /// a flipped trump Wizard that was assigned a suit, never enters a hand
    /// or a trick.)
    pub open spec fn well_formed(self) -> bool {
        match self.rank {
            Rank::Wizard => self.suit == Suit::Suitless,
            Rank::Jester => self.suit == Suit::Suitless,
            _ => self.suit.is_ordinary(),
        }
    }
}

} // verus!
