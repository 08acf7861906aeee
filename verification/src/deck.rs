//! Deck construction and shuffling.
//!
//! A fresh deck is the canonical ordered sequence of 60 cards: the 52
//! standard cards in suit-major, rank-minor order, followed by 4 Wizards and
//! 4 Jesters (alternating). Dealing pops cards from the end of the vector,
//! which is treated as the top of the deck.

use vstd::prelude::*;
use vstd::arithmetic::div_mod::lemma_fundamental_div_mod_converse;
use crate::card::{Card, Rank, Suit, wizard_card, jester_card};
use crate::util::Util;

verus! {

/// The suit of the `s`-th block of thirteen cards in a fresh deck.
pub open spec fn suit_from(s: int) -> Suit {
    if s == 0 {
        Suit::Club
    } else if s == 1 {
        Suit::Diamond
    } else if s == 2 {
        Suit::Heart
    } else {
        Suit::Spade
    }
}

/// The rank of the `r`-th card within one suit's block of a fresh deck.
pub open spec fn rank_from(r: int) -> Rank {
    if r == 0 {
        Rank::Two
    } else if r == 1 {
        Rank::Three
    } else if r == 2 {
        Rank::Four
    } else if r == 3 {
        Rank::Five
    } else if r == 4 {
        Rank::Six
    } else if r == 5 {
        Rank::Seven
    } else if r == 6 {
        Rank::Eight
    } else if r == 7 {
        Rank::Nine
    } else if r == 8 {
        Rank::Ten
    } else if r == 9 {
        Rank::Jack
    } else if r == 10 {
        Rank::Queen
    } else if r == 11 {
        Rank::King
    } else {
        Rank::Ace
    }
}

/// The card at position `i` of a fresh deck: the 52 suited cards first, then
/// Wizards and Jesters alternating.
pub open spec fn deck_card_at(i: int) -> Card
    recommends
        0 <= i < 60,
{
    if i < 52 {
        Card { rank: rank_from(i % 13), suit: suit_from(i / 13) }
    } else if (i - 52) % 2 == 0 {
        wizard_card()
    } else {
        jester_card()
    }
}

/// The canonical fresh deck as a sequence.
pub open spec fn full_deck() -> Seq<Card> {
    Seq::new(60, |i: int| deck_card_at(i))
}

/// How many entries of `s` equal the card `c`.
pub open spec fn count_card(s: Seq<Card>, c: Card) -> int
    decreases s.len(),
{
    if s.len() == 0 {
        0
    } else {
        count_card(s.drop_last(), c) + if s.last() == c {
            1int
        } else {
            0int
        }
    }
}

#[derive(Clone, Eq, PartialEq, Debug)]
pub struct Deck(pub Vec<Card>);

fn suit_of_index(s: usize) -> (r: Suit)
    requires
        s < 4,
    ensures
        r == suit_from(s as int),
{
    if s == 0 {
        Suit::Club
    } else if s == 1 {
        Suit::Diamond
    } else if s == 2 {
        Suit::Heart
    } else {
        Suit::Spade
    }
}

fn rank_of_index(r: usize) -> (res: Rank)
    requires
        r < 13,
    ensures
        res == rank_from(r as int),
{
    if r == 0 {
        Rank::Two
    } else if r == 1 {
        Rank::Three
    } else if r == 2 {
        Rank::Four
    } else if r == 3 {
        Rank::Five
    } else if r == 4 {
        Rank::Six
    } else if r == 5 {
        Rank::Seven
    } else if r == 6 {
        Rank::Eight
    } else if r == 7 {
        Rank::Nine
    } else if r == 8 {
        Rank::Ten
    } else if r == 9 {
        Rank::Jack
    } else if r == 10 {
        Rank::Queen
    } else if r == 11 {
        Rank::King
    } else {
        Rank::Ace
    }
}

impl Deck {
    /// Construct the canonical 60-card deck: 13 ranks in each of the 4 suits,
    /// then 4 Wizards and 4 Jesters.
    pub fn build() -> (d: Deck)
        ensures
            d.0@ == full_deck(),
    {
        let mut cards: Vec<Card> = Vec::new();

        for s in 0..4usize
            invariant
                cards@.len() == s * 13,
                forall|k: int| 0 <= k < cards@.len() ==> cards@[k] == deck_card_at(k),
        {
            for r in 0..13usize
                invariant
                    s < 4,
                    cards@.len() == s * 13 + r,
                    forall|k: int| 0 <= k < cards@.len() ==> cards@[k] == deck_card_at(k),
            {
                let card = Card { rank: rank_of_index(r), suit: suit_of_index(s) };
                proof {
                    let i = s * 13 + r;
                    lemma_fundamental_div_mod_converse(i as int, 13, s as int, r as int);
                    assert(deck_card_at(i as int) == card);
                }
                cards.push(card);
            }
        }

        for k in 0..4usize
            invariant
                cards@.len() == 52 + 2 * k,
                forall|j: int| 0 <= j < cards@.len() ==> cards@[j] == deck_card_at(j),
        {
            cards.push(Card { rank: Rank::Wizard, suit: Suit::Suitless });
            cards.push(Card { rank: Rank::Jester, suit: Suit::Suitless });
        }

        proof {
            assert(cards@ =~= full_deck());
        }
        Deck(cards)
    }

    /// The canonical deck as a bare vector of cards.
    pub fn new() -> (v: Vec<Card>)
        ensures
            v@ == full_deck(),
    {
        Deck::build().0
    }

    /// Return a random permutation of the given cards: the same multiset,
    /// generally in a different order.
    pub fn shuffle(deck: Vec<Card>) -> (r: Vec<Card>)
        ensures
            r@.to_multiset() == deck@.to_multiset(),
            r@.len() == deck@.len(),
    {
        Util::shuffle_vec(deck)
    }

    pub fn len(&self) -> (n: usize)
        ensures
            n == self.0@.len(),
    {
        self.0.len()
    }
}

/// The fresh deck holds exactly 60 cards and no duplicates among its 52
/// suited cards; the first 52 cards are suited, the last 8 are suitless,
/// namely 4 Wizards and 4 Jesters.
pub proof fn lemma_full_deck_valid()
    ensures
        full_deck().len() == 60,
        forall|i: int, j: int| 0 <= i < j < 52 ==> full_deck()[i] != full_deck()[j],
        forall|i: int| 0 <= i < 52 ==> (#[trigger] full_deck()[i]).suit.is_ordinary(),
        forall|i: int| 52 <= i < 60 ==> (#[trigger] full_deck()[i]).suit == Suit::Suitless,
        forall|i: int| 0 <= i < 60 ==> (#[trigger] full_deck()[i]).well_formed(),
        count_card(full_deck(), wizard_card()) == 4,
        count_card(full_deck(), jester_card()) == 4,
{
    assert forall|i: int, j: int| 0 <= i < j < 52 implies full_deck()[i] != full_deck()[j] by {
        lemma_fundamental_div_mod_converse(i, 13, i / 13, i % 13);
        lemma_fundamental_div_mod_converse(j, 13, j / 13, j % 13);
        if i / 13 == j / 13 && i % 13 == j % 13 {
            assert(i == (i / 13) * 13 + i % 13);
            assert(j == (j / 13) * 13 + j % 13);
            assert(false);
        }
    }
    assert forall|i: int| 0 <= i < 52 implies (#[trigger] full_deck()[i]).suit.is_ordinary() by {
        assert(0 <= i / 13 < 4 && 0 <= i % 13 < 13);
    }
    lemma_count_specials(60);
    assert(full_deck().take(60) =~= full_deck());
}

/// How many Wizards and Jesters stand among the first `n` cards of the fresh
/// deck: none in the suited prefix, then one more of each per pair.
proof fn lemma_count_specials(n: int)
    requires
        0 <= n <= 60,
    ensures
        count_card(full_deck().take(n), wizard_card()) == if n <= 52 {
            0int
        } else {
            (n - 51) / 2
        },
        count_card(full_deck().take(n), jester_card()) == if n <= 52 {
            0int
        } else {
            (n - 52) / 2
        },
    decreases n,
{
    if n == 0 {
        assert(full_deck().take(0).len() == 0);
    } else {
        lemma_count_specials(n - 1);
        assert(full_deck().take(n).drop_last() =~= full_deck().take(n - 1));
        assert(full_deck().take(n).last() == deck_card_at(n - 1));
        if n - 1 < 52 {
            assert(0 <= (n - 1) / 13 < 4);
            assert(deck_card_at(n - 1).suit.is_ordinary());
            assert(deck_card_at(n - 1) != wizard_card());
            assert(deck_card_at(n - 1) != jester_card());
        }
    }
}

} // verus!
