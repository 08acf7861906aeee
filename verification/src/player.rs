//! Player state: identity, score, current bet, tricks won, hand, operator
//! kind, and the fixed seat assigned at match start.

use vstd::prelude::*;
use crate::card::{Card, Rank, Suit, wizard_card};
use crate::deck::Deck;
use crate::util::Util;

verus! {

/// Who decides for the player: a human at the console, or the computer.
#[derive(Clone, Copy, Debug, Eq, PartialEq, Structural)]
pub enum Operator {
    Human,
    Computer,
}

#[derive(Clone, Debug)]
pub struct Player {
    pub name: String,
    pub score: i16,
    pub bet: u8,
    pub tricks: u8,
    pub card_played: Card,
    pub hand: Deck,
    pub operator: Operator,
    pub original_position: usize,
}

impl Player {
    /// A fresh computer player with an empty name and hand, no score, and
    /// seat 0; `card_played` starts as the placeholder Wizard.
    pub fn new() -> (p: Player)
        ensures
            p.name@ == Seq::<char>::empty(),
            p.score == 0,
            p.bet == 0,
            p.tricks == 0,
            p.card_played == wizard_card(),
            p.hand.0@ == Seq::<Card>::empty(),
            p.operator == Operator::Computer,
            p.original_position == 0,
    {
        Player {
            name: String::new(),
            score: 0,
            bet: 0,
            tricks: 0,
            card_played: Card { rank: Rank::Wizard, suit: Suit::Suitless },
            hand: Deck(Vec::new()),
            operator: Operator::Computer,
            original_position: 0,
        }
    }

    /// Return a random permutation of the given players: the same multiset,
    /// generally in a different order. Used once, for the seating at match
    /// start.
    pub fn shuffle(players: Vec<Player>) -> (r: Vec<Player>)
        ensures
            r@.to_multiset() == players@.to_multiset(),
            r@.len() == players@.len(),
    {
        Util::shuffle_vec(players)
    }
}

} // verus!
