//! Core engine for the trick-taking card game Wizard: the card model, deck
//! construction and shuffling, dealing, trump determination, bet validation,
//! trick-winner resolution under Wizard/Jester rules, scoring, and player
//! rotation across rounds.

pub mod card;
pub mod deck;
pub mod player;
pub mod util;

use vstd::prelude::*;
use crate::card::{Card, Rank, Suit, wizard_card, jester_card};
use crate::player::{Operator, Player};
use crate::util::Util;
use vstd::arithmetic::mul::{lemma_mul_inequality, lemma_mul_is_distributive_add_other_way};

verus! {

/// The cards of a trick in play order, read off the players' `card_played`
/// fields in seating order.
pub open spec fn plays_of(players: Seq<Player>) -> Seq<Card> {
    players.map_values(|p: Player| p.card_played)
}

/// One step of the trick scan: the state is the index of the play that is
/// winning so far and the running lead suit; the result is the index of the
/// play that wins the trick. Per play, in this precedence: a Wizard wins
/// immediately; a Jester is skipped; a non-Jester unseats a winning Jester
/// and sets the lead suit; on a trump winner only a higher trump wins; a
/// trump play unseats any non-trump winner; otherwise only a higher card of
/// the lead suit wins.
pub open spec fn trick_scan(trump_suit: Suit, plays: Seq<Card>, i: int, win: int, lead: Suit) -> int
    recommends
        0 <= win < plays.len(),
        0 <= i <= plays.len(),
    decreases plays.len() - i,
{
    if i < 0 || i >= plays.len() {
        win
    } else {
        let c = plays[i];
        if c == wizard_card() {
            i
        } else if c == jester_card() {
            trick_scan(trump_suit, plays, i + 1, win, lead)
        } else if plays[win] == jester_card() {
            trick_scan(trump_suit, plays, i + 1, i, c.suit)
        } else if plays[win].suit == trump_suit {
            if c.suit == trump_suit && c.rank.value_spec() > plays[win].rank.value_spec() {
                trick_scan(trump_suit, plays, i + 1, i, lead)
            } else {
                trick_scan(trump_suit, plays, i + 1, win, lead)
            }
        } else if c.suit == trump_suit {
            trick_scan(trump_suit, plays, i + 1, i, lead)
        } else if c.suit == lead && c.rank.value_spec() > plays[win].rank.value_spec() {
            trick_scan(trump_suit, plays, i + 1, i, lead)
        } else {
            trick_scan(trump_suit, plays, i + 1, win, lead)
        }
    }
}

/// The index of the play that wins a trick, given the trump suit and the
/// cards in play order (first entry = trick leader). The scan starts on the
/// leader's play, with the lead suit taken from it (suitless if the leader
/// played a Wizard or Jester).
pub open spec fn trick_winner(trump_suit: Suit, plays: Seq<Card>) -> int
    recommends
        plays.len() > 0,
{
    trick_scan(trump_suit, plays, 0, 0, plays[0].suit)
}

/// Resolve a trick: return the index of the winning play.
pub fn trick_winner_index(trump_suit: Suit, plays: &Vec<Card>) -> (w: usize)
    requires
        plays@.len() > 0,
    ensures
        w == trick_winner(trump_suit, plays@),
        w < plays@.len(),
{
    let wiz = Card { rank: Rank::Wizard, suit: Suit::Suitless };
    let jes = Card { rank: Rank::Jester, suit: Suit::Suitless };

    let mut win: usize = 0;
    let mut lead: Suit = plays[0].suit;
    let mut i: usize = 0;

    while i < plays.len()
        invariant_except_break
            wiz == wizard_card(),
            jes == jester_card(),
            win < plays@.len(),
            i <= plays@.len(),
            trick_scan(trump_suit, plays@, i as int, win as int, lead) == trick_winner(
                trump_suit,
                plays@,
            ),
        ensures
            win < plays@.len(),
            win == trick_winner(trump_suit, plays@),
        decreases plays@.len() - i,
    {
        let c = plays[i];
        if c == wiz {
            win = i;
            break ;
        }
        if c == jes {
            i = i + 1;
            continue ;
        }
        if plays[win] == jes {
            win = i;
            lead = c.suit;
            i = i + 1;
            continue ;
        }
        if plays[win].suit == trump_suit {
            if c.suit == trump_suit && c.rank.value() > plays[win].rank.value() {
                win = i;
            }
            i = i + 1;
            continue ;
        }
        if c.suit == trump_suit {
            win = i;
            i = i + 1;
            continue ;
        }
        if c.suit == lead && c.rank.value() > plays[win].rank.value() {
            win = i;
        }
        i = i + 1;
    }
    win
}

proof fn lemma_scan_reaches_wizard(
    trump_suit: Suit,
    plays: Seq<Card>,
    i: int,
    win: int,
    lead: Suit,
    k: int,
)
    requires
        0 <= i <= k < plays.len(),
        0 <= win < plays.len(),
        plays[k] == wizard_card(),
        forall|j: int| i <= j < k ==> plays[j] != wizard_card(),
    ensures
        trick_scan(trump_suit, plays, i, win, lead) == k,
    decreases k - i,
{
    if i < k {
        let c = plays[i];
        if c == jester_card() {
            lemma_scan_reaches_wizard(trump_suit, plays, i + 1, win, lead, k);
        } else if plays[win] == jester_card() {
            lemma_scan_reaches_wizard(trump_suit, plays, i + 1, i, c.suit, k);
        } else if plays[win].suit == trump_suit {
            if c.suit == trump_suit && c.rank.value_spec() > plays[win].rank.value_spec() {
                lemma_scan_reaches_wizard(trump_suit, plays, i + 1, i, lead, k);
            } else {
                lemma_scan_reaches_wizard(trump_suit, plays, i + 1, win, lead, k);
            }
        } else if c.suit == trump_suit {
            lemma_scan_reaches_wizard(trump_suit, plays, i + 1, i, lead, k);
        } else if c.suit == lead && c.rank.value_spec() > plays[win].rank.value_spec() {
            lemma_scan_reaches_wizard(trump_suit, plays, i + 1, i, lead, k);
        } else {
            lemma_scan_reaches_wizard(trump_suit, plays, i + 1, win, lead, k);
        }
    }
}

/// The first Wizard played always wins its trick, immediately and
/// unconditionally, regardless of its position.
pub proof fn lemma_first_wizard_wins(trump_suit: Suit, plays: Seq<Card>, k: int)
    requires
        0 <= k < plays.len(),
        plays[k] == wizard_card(),
        forall|j: int| 0 <= j < k ==> plays[j] != wizard_card(),
    ensures
        trick_winner(trump_suit, plays) == k,
{
    lemma_scan_reaches_wizard(trump_suit, plays, 0, 0, plays[0].suit, k);
}

proof fn lemma_scan_all_jesters(trump_suit: Suit, plays: Seq<Card>, i: int, win: int, lead: Suit)
    requires
        0 <= i <= plays.len(),
        0 <= win < plays.len(),
        forall|j: int| i <= j < plays.len() ==> plays[j] == jester_card(),
    ensures
        trick_scan(trump_suit, plays, i, win, lead) == win,
    decreases plays.len() - i,
{
    if i < plays.len() {
        lemma_scan_all_jesters(trump_suit, plays, i + 1, win, lead);
    }
}

/// When every card in the trick is a Jester, the trick's leader wins it.
pub proof fn lemma_all_jesters_leader_wins(trump_suit: Suit, plays: Seq<Card>)
    requires
        plays.len() > 0,
        forall|j: int| 0 <= j < plays.len() ==> plays[j] == jester_card(),
    ensures
        trick_winner(trump_suit, plays) == 0,
{
    lemma_scan_all_jesters(trump_suit, plays, 0, 0, plays[0].suit);
}

proof fn lemma_scan_non_jester(trump_suit: Suit, plays: Seq<Card>, i: int, win: int, lead: Suit)
    requires
        0 <= i <= plays.len(),
        0 <= win < plays.len(),
        plays[win] != jester_card() || exists|j: int|
            i <= j < plays.len() && plays[j] != jester_card(),
    ensures
        0 <= trick_scan(trump_suit, plays, i, win, lead) < plays.len(),
        plays[trick_scan(trump_suit, plays, i, win, lead)] != jester_card(),
    decreases plays.len() - i,
{
    if i >= plays.len() {
        assert(plays[win] != jester_card());
    } else {
        let c = plays[i];
        if c == wizard_card() {
        } else if c == jester_card() {
            if plays[win] == jester_card() {
                let j = choose|j: int| i <= j < plays.len() && plays[j] != jester_card();
                assert(i + 1 <= j < plays.len() && plays[j] != jester_card());
            }
            lemma_scan_non_jester(trump_suit, plays, i + 1, win, lead);
        } else if plays[win] == jester_card() {
            lemma_scan_non_jester(trump_suit, plays, i + 1, i, c.suit);
        } else if plays[win].suit == trump_suit {
            if c.suit == trump_suit && c.rank.value_spec() > plays[win].rank.value_spec() {
                lemma_scan_non_jester(trump_suit, plays, i + 1, i, lead);
            } else {
                lemma_scan_non_jester(trump_suit, plays, i + 1, win, lead);
            }
        } else if c.suit == trump_suit {
            lemma_scan_non_jester(trump_suit, plays, i + 1, i, lead);
        } else if c.suit == lead && c.rank.value_spec() > plays[win].rank.value_spec() {
            lemma_scan_non_jester(trump_suit, plays, i + 1, i, lead);
        } else {
            lemma_scan_non_jester(trump_suit, plays, i + 1, win, lead);
        }
    }
}

/// A Jester can never win a trick in which any other card was played.
pub proof fn lemma_jester_never_wins(trump_suit: Suit, plays: Seq<Card>, k: int)
    requires
        0 <= k < plays.len(),
        plays[k] != jester_card(),
    ensures
        0 <= trick_winner(trump_suit, plays) < plays.len(),
        plays[trick_winner(trump_suit, plays)] != jester_card(),
{
    lemma_scan_non_jester(trump_suit, plays, 0, 0, plays[0].suit);
}

proof fn lemma_scan_trump(trump_suit: Suit, plays: Seq<Card>, i: int, win: int, lead: Suit)
    requires
        trump_suit.is_ordinary(),
        0 <= i <= plays.len(),
        0 <= win < plays.len(),
        forall|j: int| i <= j < plays.len() ==> plays[j] != wizard_card(),
        plays[win].suit == trump_suit || exists|j: int|
            i <= j < plays.len() && (#[trigger] plays[j]).suit == trump_suit,
    ensures
        0 <= trick_scan(trump_suit, plays, i, win, lead) < plays.len(),
        plays[trick_scan(trump_suit, plays, i, win, lead)].suit == trump_suit,
    decreases plays.len() - i,
{
    if i >= plays.len() {
        assert(plays[win].suit == trump_suit);
    } else {
        let c = plays[i];
        if plays[win].suit != trump_suit && c.suit != trump_suit {
            let j = choose|j: int| i <= j < plays.len() && (#[trigger] plays[j]).suit == trump_suit;
            assert(i + 1 <= j < plays.len() && plays[j].suit == trump_suit);
        }
        if c == wizard_card() {
            assert(false);
        } else if c == jester_card() {
            lemma_scan_trump(trump_suit, plays, i + 1, win, lead);
        } else if plays[win] == jester_card() {
            lemma_scan_trump(trump_suit, plays, i + 1, i, c.suit);
        } else if plays[win].suit == trump_suit {
            if c.suit == trump_suit && c.rank.value_spec() > plays[win].rank.value_spec() {
                lemma_scan_trump(trump_suit, plays, i + 1, i, lead);
            } else {
                lemma_scan_trump(trump_suit, plays, i + 1, win, lead);
            }
        } else if c.suit == trump_suit {
            lemma_scan_trump(trump_suit, plays, i + 1, i, lead);
        } else if c.suit == lead && c.rank.value_spec() > plays[win].rank.value_spec() {
            lemma_scan_trump(trump_suit, plays, i + 1, i, lead);
        } else {
            lemma_scan_trump(trump_suit, plays, i + 1, win, lead);
        }
    }
}

/// In a round with a trump suit, any trump card beats every non-trump,
/// non-Wizard play: when a trick without Wizards holds at least one trump
/// card, the winning play is on trump.
pub proof fn lemma_trump_wins(trump_suit: Suit, plays: Seq<Card>, k: int)
    requires
        trump_suit.is_ordinary(),
        0 <= k < plays.len(),
        plays[k].suit == trump_suit,
        forall|j: int| 0 <= j < plays.len() ==> plays[j] != wizard_card(),
    ensures
        0 <= trick_winner(trump_suit, plays) < plays.len(),
        plays[trick_winner(trump_suit, plays)].suit == trump_suit,
{
    lemma_scan_trump(trump_suit, plays, 0, 0, plays[0].suit);
}

/// The sequence rotated left by `k` places: the first `k` entries move to
/// the back, everything else slides forward.
pub open spec fn rotate_left_seq<T>(s: Seq<T>, k: int) -> Seq<T>
    recommends
        0 <= k <= s.len(),
{
    s.subrange(k, s.len() as int) + s.subrange(0, k)
}

/// Rotate the seating left by `k` places, one seat at a time.
fn rotate_left_players(players: &mut Vec<Player>, k: usize)
    requires
        k <= old(players)@.len(),
    ensures
        final(players)@ == rotate_left_seq(old(players)@, k as int),
{
    proof {
        assert(players@ =~= rotate_left_seq(players@, 0));
    }
    let mut j: usize = 0;
    while j < k
        invariant
            j <= k <= old(players)@.len(),
            players@ == rotate_left_seq(old(players)@, j as int),
            players@.len() == old(players)@.len(),
        decreases k - j,
    {
        let p = players.remove(0);
        players.push(p);
        j = j + 1;
        proof {
            assert(players@ =~= rotate_left_seq(old(players)@, j as int));
        }
    }
}

/// Resolve the trick recorded in the players' `card_played` fields (in
/// seating order, first entry = trick leader): the winner's trick counter
/// goes up by one, and the seating is rotated left by the winner's position
/// within the pre-trick seating, so that the winner leads the next trick.
pub fn calc_winner_of_trick(players: &mut Vec<Player>, trump_suit: Suit)
    requires
        old(players)@.len() > 0,
        forall|i: int|
            0 <= i < old(players)@.len() ==> (#[trigger] old(players)@[i]).tricks < u8::MAX,
    ensures
        ({
            let w = trick_winner(trump_suit, plays_of(old(players)@));
            let bumped = (Player {
                tricks: (old(players)@[w].tricks + 1) as u8,
                ..old(players)@[w]
            });
            final(players)@ == rotate_left_seq(old(players)@.update(w, bumped), w)
                && final(players)@[0] == bumped
        }),
{
    let ghost orig = players@;
    let mut plays: Vec<Card> = Vec::new();
    let n = players.len();
    let mut idx: usize = 0;
    while idx < n
        invariant
            players@ == orig,
            n == players@.len(),
            idx <= n,
            plays@.len() == idx,
            forall|k: int| 0 <= k < idx ==> plays@[k] == players@[k].card_played,
        decreases n - idx,
    {
        let c = players[idx].card_played;
        plays.push(c);
        idx = idx + 1;
    }
    proof {
        assert(plays@ =~= plays_of(players@));
    }

    let w = trick_winner_index(trump_suit, &plays);
    let mut winner = players.remove(w);
    winner.tricks = winner.tricks + 1;
    players.insert(w, winner);
    proof {
        let w_i = w as int;
        let bumped = (Player { tricks: (orig[w_i].tricks + 1) as u8, ..orig[w_i] });
        assert(players@ =~= orig.update(w_i, bumped));
    }
    let ghost before = players@;
    rotate_left_players(players, w);
    proof {
        assert(players@[0] == before[w as int]);
    }
}

/// What a round adds to a player's score: `2 + bet` for an exact bet, minus
/// the absolute difference between bet and tricks otherwise.
pub open spec fn score_delta(bet: u8, tricks: u8) -> int {
    if bet == tricks {
        2 + bet
    } else if bet > tricks {
        -(bet - tricks)
    } else {
        -(tricks - bet)
    }
}

/// Score a finished round: every player's score moves by exactly
/// `score_delta` of their bet and tricks; nothing else changes.
pub fn calc_score(players: &mut Vec<Player>)
    requires
        forall|i: int|
            0 <= i < old(players)@.len() ==> i16::MIN <= (#[trigger] old(players)@[i]).score
                + score_delta(old(players)@[i].bet, old(players)@[i].tricks) <= i16::MAX,
    ensures
        final(players)@.len() == old(players)@.len(),
        forall|i: int|
            0 <= i < old(players)@.len() ==> final(players)@[i] == (Player {
                score: (old(players)@[i].score + score_delta(
                    old(players)@[i].bet,
                    old(players)@[i].tricks,
                )) as i16,
                ..old(players)@[i]
            }),
{
    let ghost orig = players@;
    let n = players.len();
    let mut i: usize = 0;
    while i < n
        invariant
            i <= n,
            n == players@.len(),
            orig.len() == n,
            forall|k: int|
                0 <= k < n ==> i16::MIN <= (#[trigger] orig[k]).score + score_delta(
                    orig[k].bet,
                    orig[k].tricks,
                ) <= i16::MAX,
            forall|k: int|
                0 <= k < i ==> players@[k] == (Player {
                    score: (orig[k].score + score_delta(orig[k].bet, orig[k].tricks)) as i16,
                    ..orig[k]
                }),
            forall|k: int| i <= k < n ==> players@[k] == orig[k],
        decreases n - i,
    {
        let mut p = players.remove(i);
        if p.tricks == p.bet {
            p.score = ((p.score as i32) + 2 + (p.bet as i32)) as i16;
        } else {
            let diff = if p.bet > p.tricks {
                p.bet - p.tricks
            } else {
                p.tricks - p.bet
            };
            p.score = ((p.score as i32) - (diff as i32)) as i16;
        }
        players.insert(i, p);
        i = i + 1;
    }
}

/// The scan that picks the match winner: the running candidate is replaced
/// only by a strictly higher score.
pub open spec fn final_winner_from(players: Seq<Player>, i: int, win: Player) -> Player
    decreases players.len() - i,
{
    if i < 0 || i >= players.len() {
        win
    } else if players[i].score > win.score {
        final_winner_from(players, i + 1, players[i])
    } else {
        final_winner_from(players, i + 1, win)
    }
}

/// The match winner: the last player is the initial candidate, the others
/// are scanned in seating order, and only a strictly higher score replaces
/// the candidate — so among tied players the one encountered first wins.
pub open spec fn final_winner(players: Seq<Player>) -> Player
    recommends
        players.len() > 0,
{
    final_winner_from(players.drop_last(), 0, players.last())
}

/// Pick the match winner: a player of strictly highest score, ties resolved
/// in favour of the player encountered first in the scan.
pub fn calc_winner(players: Vec<Player>) -> (w: Player)
    requires
        players@.len() > 0,
    ensures
        w == final_winner(players@),
        exists|i: int| 0 <= i < players@.len() && w == players@[i],
        forall|i: int| 0 <= i < players@.len() ==> (#[trigger] players@[i]).score <= w.score,
{
    let mut ps = players;
    let n = ps.len();
    let mut best: usize = n - 1;
    let mut i: usize = 0;
    while i < n - 1
        invariant
            n == ps@.len(),
            n > 0,
            ps@ == players@,
            i <= n - 1,
            best == n - 1 || best < i,
            ps@[n - 1].score <= ps@[best as int].score,
            forall|k: int| 0 <= k < i ==> (#[trigger] ps@[k]).score <= ps@[best as int].score,
            final_winner_from(players@.drop_last(), i as int, players@[best as int])
                == final_winner(players@),
        decreases n - 1 - i,
    {
        if ps[i].score > ps[best].score {
            best = i;
        }
        i = i + 1;
    }
    ps.remove(best)
}

/// The index of the first card at or after `i` whose suit is `lead_suit`,
/// or 0 when none matches.
pub open spec fn first_match_from(hand: Seq<Card>, lead_suit: Suit, i: int) -> int
    decreases hand.len() - i,
{
    if i < 0 || i >= hand.len() {
        0
    } else if hand[i].suit == lead_suit {
        i
    } else {
        first_match_from(hand, lead_suit, i + 1)
    }
}

/// The card a computer player picks: the first card in hand whose suit is
/// the lead suit, or the first card in hand when none matches.
pub open spec fn comp_choice(hand: Seq<Card>, lead_suit: Suit) -> int {
    first_match_from(hand, lead_suit, 0)
}

/// A computer play: take the first card in hand that follows the lead suit
/// (the first card outright when none does) out of the hand and record it as
/// the card played. Nothing else about the player changes.
pub fn get_play_from_comp(player: &mut Player, lead_suit: Suit)
    requires
        old(player).hand.0@.len() > 0,
    ensures
        ({
            let k = comp_choice(old(player).hand.0@, lead_suit);
            final(player).card_played == old(player).hand.0@[k] && final(player).hand.0@ == old(
                player,
            ).hand.0@.remove(k)
        }),
        final(player).name == old(player).name,
        final(player).score == old(player).score,
        final(player).bet == old(player).bet,
        final(player).tricks == old(player).tricks,
        final(player).operator == old(player).operator,
        final(player).original_position == old(player).original_position,
{
    let n = player.hand.0.len();
    let mut selected: usize = 0;
    let mut i: usize = 0;
    while i < n
        invariant_except_break
            i <= n,
            n == player.hand.0@.len(),
            n > 0,
            *player == *old(player),
            selected == 0,
            first_match_from(player.hand.0@, lead_suit, i as int) == comp_choice(
                player.hand.0@,
                lead_suit,
            ),
            forall|k: int| 0 <= k < i ==> (#[trigger] player.hand.0@[k]).suit != lead_suit,
        ensures
            *player == *old(player),
            n == player.hand.0@.len(),
            selected < n || (selected == 0 && n > 0),
            selected as int == comp_choice(player.hand.0@, lead_suit),
        decreases n - i,
    {
        if player.hand.0[i].suit == lead_suit {
            selected = i;
            break ;
        }
        i = i + 1;
    }
    let card = player.hand.0.remove(selected);
    player.card_played = card;
}

/// The suit of the first suited (non-Wizard, non-Jester) card at or after
/// `i`, or `Suitless` when every remaining card is suitless.
pub open spec fn lead_suit_from(plays: Seq<Card>, i: int) -> Suit
    decreases plays.len() - i,
{
    if i < 0 || i >= plays.len() {
        Suit::Suitless
    } else if plays[i].suit != Suit::Suitless {
        plays[i].suit
    } else {
        lead_suit_from(plays, i + 1)
    }
}

/// The lead suit of a (possibly partial) trick: the suit of the first
/// non-suitless card played, `Suitless` until one appears.
pub open spec fn lead_suit_spec(plays: Seq<Card>) -> Suit {
    lead_suit_from(plays, 0)
}

/// Read the lead suit off the cards played so far this trick.
pub fn lead_suit_of(plays: &Vec<Card>) -> (s: Suit)
    ensures
        s == lead_suit_spec(plays@),
{
    let n = plays.len();
    let mut i: usize = 0;
    while i < n
        invariant_except_break
            i <= n,
            n == plays@.len(),
            lead_suit_from(plays@, i as int) == lead_suit_spec(plays@),
        ensures
            lead_suit_from(plays@, i as int) == lead_suit_spec(plays@),
            i < n ==> plays@[i as int].suit != Suit::Suitless,
            i >= n ==> lead_suit_spec(plays@) == Suit::Suitless,
        decreases n - i,
    {
        if plays[i].suit != Suit::Suitless {
            break ;
        }
        i = i + 1;
    }
    if i < n {
        plays[i].suit
    } else {
        Suit::Suitless
    }
}

/// Whether a player holding this hand must follow suit: the lead suit is an
/// ordinary suit and some card in hand matches it.
pub open spec fn must_follow_suit(hand: Seq<Card>, lead_suit: Suit) -> bool {
    lead_suit.is_ordinary() && exists|i: int| 0 <= i < hand.len() && hand[i].suit == lead_suit
}

/// Whether a hand can follow the given lead suit.
pub fn can_follow_suit(hand: &Vec<Card>, lead_suit: Suit) -> (b: bool)
    ensures
        b == must_follow_suit(hand@, lead_suit),
{
    if lead_suit == Suit::Suitless {
        return false;
    }
    let n = hand.len();
    let mut i: usize = 0;
    while i < n
        invariant_except_break
            i <= n,
            n == hand@.len(),
            forall|k: int| 0 <= k < i ==> (#[trigger] hand@[k]).suit != lead_suit,
            lead_suit.is_ordinary(),
        ensures
            lead_suit.is_ordinary(),
            i < n ==> hand@[i as int].suit == lead_suit,
            i >= n ==> forall|k: int| 0 <= k < hand@.len() ==> (#[trigger] hand@[k]).suit
                != lead_suit,
        decreases n - i,
    {
        if hand[i].suit == lead_suit {
            break ;
        }
        i = i + 1;
    }
    i < n
}

/// Whether playing `card` out of `hand` is legal under the follow-suit rule:
/// Wizards and Jesters are always legal; otherwise the card must follow the
/// lead suit whenever some card in hand can.
pub open spec fn legal_play(card: Card, hand: Seq<Card>, lead_suit: Suit) -> bool {
    card.rank == Rank::Wizard || card.rank == Rank::Jester || card.suit == lead_suit
        || !must_follow_suit(hand, lead_suit)
}

/// Check the follow-suit rule for a card about to be played from `hand`
/// (`hand` still containing the card).
pub fn play_is_legal(card: Card, hand: &Vec<Card>, lead_suit: Suit) -> (b: bool)
    ensures
        b == legal_play(card, hand@, lead_suit),
{
    if card.rank == Rank::Wizard || card.rank == Rank::Jester {
        return true;
    }
    if card.suit == lead_suit {
        return true;
    }
    !can_follow_suit(hand, lead_suit)
}

/// Settle the trump card once a suit has been chosen for a flipped Wizard:
/// an ordinary trump card (or a Jester) stands as it is; a suitless Wizard
/// takes the chosen suit while keeping its rank.
pub fn set_trump_with_choice(card: Card, chosen: Suit) -> (t: Card)
    requires
        chosen.is_ordinary(),
    ensures
        card == wizard_card() ==> t == (Card { rank: Rank::Wizard, suit: chosen }),
        card != wizard_card() ==> t == card,
{
    let wiz = Card { rank: Rank::Wizard, suit: Suit::Suitless };
    if card == wiz {
        Card { rank: card.rank, suit: chosen }
    } else {
        card
    }
}

/// Settle the round's trump from the revealed card. An ordinary card (or a
/// Jester, which leaves the round without a trump suit) stands as it is; for
/// a flipped Wizard a computer dealer draws one of the four ordinary suits
/// uniformly at random. A human dealer's choice is solicited elsewhere and
/// goes through `set_trump_with_choice`.
pub fn set_trump(card: Card, dealer: &Player) -> (t: Card)
    requires
        card == wizard_card() ==> dealer.operator == Operator::Computer,
    ensures
        card == wizard_card() ==> t.rank == Rank::Wizard && t.suit.is_ordinary(),
        card != wizard_card() ==> t == card,
{
    let wiz = Card { rank: Rank::Wizard, suit: Suit::Suitless };
    if card == wiz {
        let pick = Util::rand_below(4);
        let suit = if pick == 0 {
            Suit::Club
        } else if pick == 1 {
            Suit::Diamond
        } else if pick == 2 {
            Suit::Heart
        } else {
            Suit::Spade
        };
        Card { rank: Rank::Wizard, suit }
    } else {
        card
    }
}

/// Whether a bet is admissible for a hand of `hand_len` cards: bets lie in
/// the closed range from zero to the hand size.
pub fn valid_bet(bet: u8, hand_len: usize) -> (b: bool)
    ensures
        b == (bet as usize <= hand_len),
{
    bet as usize <= hand_len
}

/// A computer player's bet: drawn uniformly at random from the closed range
/// from zero to the hand size.
pub fn computer_bet(max_bet: u8) -> (b: u8)
    ensures
        b <= max_bet,
{
    let r = Util::rand_below(max_bet as u64 + 1);
    r as u8
}

/// Rotate the seating for round `round_num` (1-based): left by
/// `round_num % n` to put the round's dealer at the front, then by one more
/// so the round's leader (first to bet and to lead the first trick) sits at
/// index 0 and the dealer at index n-1.
pub fn rotate_for_round(players: &mut Vec<Player>, round_num: usize)
    requires
        old(players)@.len() > 0,
    ensures
        final(players)@ == rotate_left_seq(
            old(players)@,
            ((round_num as int % old(players)@.len() as int) + 1) % old(players)@.len() as int,
        ),
{
    let n = players.len();
    let k = (round_num % n + 1) % n;
    rotate_left_players(players, k);
}

/// The index of the first player at or after `i` whose fixed seat is 0, or
/// the seating's length when there is none.
pub open spec fn first_seat_zero_from(players: Seq<Player>, i: int) -> int
    decreases players.len() - i,
{
    if i < 0 || i >= players.len() {
        players.len() as int
    } else if players[i].original_position == 0 {
        i
    } else {
        first_seat_zero_from(players, i + 1)
    }
}

/// Rotate the seating back to the canonical order after a round, so that the
/// player whose fixed seat is 0 sits at index 0 again.
pub fn restore_original_order(players: &mut Vec<Player>)
    requires
        old(players)@.len() > 0,
        exists|i: int| 0 <= i < old(players)@.len() && (#[trigger] old(players)@[i]).original_position
            == 0,
    ensures
        final(players)@ == rotate_left_seq(old(players)@, first_seat_zero_from(old(players)@, 0)),
        final(players)@[0].original_position == 0,
{
    let n = players.len();
    let mut j: usize = 0;
    while j < n
        invariant_except_break
            j <= n,
            n == players@.len(),
            *players == *old(players),
            first_seat_zero_from(players@, j as int) == first_seat_zero_from(players@, 0),
            exists|i: int| 0 <= i < players@.len() && (#[trigger] players@[i]).original_position
                == 0,
            forall|k: int| 0 <= k < j ==> (#[trigger] players@[k]).original_position != 0,
        ensures
            *players == *old(players),
            n == players@.len(),
            j < n,
            j as int == first_seat_zero_from(players@, 0),
            players@[j as int].original_position == 0,
        decreases n - j,
    {
        if players[j].original_position == 0 {
            break ;
        }
        j = j + 1;
        proof {
            if j == n {
                let i = choose|i: int|
                    0 <= i < players@.len() && (#[trigger] players@[i]).original_position == 0;
                assert(false);
            }
        }
    }
    let ghost before = players@;
    rotate_left_players(players, j);
    proof {
        assert(players@[0] == before[j as int]);
    }
}

/// The hand player `i` of `n` holds after `rounds_dealt` round-robin passes
/// over the seating, each pass dealing one card per player by popping the
/// deck from the end.
pub open spec fn dealt_hand(deck: Seq<Card>, n: int, rounds_dealt: int, i: int) -> Seq<Card>
    recommends
        n > 0,
        0 <= i < n,
        rounds_dealt * n <= deck.len(),
{
    Seq::new(rounds_dealt as nat, |j: int| deck[deck.len() - 1 - j * n - i])
}

/// Whether `p` is `q` as it stands at the start of a round: the same player,
/// but with the given freshly dealt hand and no tricks taken yet.
pub open spec fn redealt(p: Player, q: Player, hand: Seq<Card>) -> bool {
    &&& p.name == q.name
    &&& p.score == q.score
    &&& p.bet == q.bet
    &&& p.operator == q.operator
    &&& p.original_position == q.original_position
    &&& p.card_played == q.card_played
    &&& p.tricks == 0
    &&& p.hand.0@ == hand
}

/// Deal round `round_num`: clear every hand and trick counter, then deal
/// `round_num` cards to each player, one at a time in seating order
/// (round-robin), by popping from the end of the shuffled deck. Exactly
/// `round_num * n` cards leave the deck and every hand ends with `round_num`
/// cards.
pub fn deal_round(players: &mut Vec<Player>, deck: &mut Vec<Card>, round_num: usize)
    requires
        old(players)@.len() > 0,
        round_num as int * old(players)@.len() as int <= old(deck)@.len(),
    ensures
        final(players)@.len() == old(players)@.len(),
        final(deck)@ == old(deck)@.take(
            old(deck)@.len() - round_num as int * old(players)@.len() as int,
        ),
        forall|i: int|
            0 <= i < old(players)@.len() ==> redealt(
                final(players)@[i],
                old(players)@[i],
                dealt_hand(old(deck)@, old(players)@.len() as int, round_num as int, i),
            ),
        forall|i: int|
            0 <= i < old(players)@.len() ==> (#[trigger] final(players)@[i]).hand.0@.len()
                == round_num,
{
    let ghost orig_players = players@;
    let ghost orig_deck = deck@;
    let n = players.len();

    let mut i: usize = 0;
    while i < n
        invariant
            i <= n,
            n == players@.len(),
            orig_players.len() == n,
            deck@ == orig_deck,
            forall|k: int|
                0 <= k < i ==> redealt(players@[k], orig_players[k], Seq::<Card>::empty()),
            forall|k: int| i <= k < n ==> players@[k] == orig_players[k],
        decreases n - i,
    {
        let mut p = players.remove(i);
        p.hand.0.clear();
        p.tricks = 0;
        players.insert(i, p);
        i = i + 1;
    }

    proof {
        assert(orig_deck.take(orig_deck.len() as int) =~= orig_deck);
        assert forall|k: int| 0 <= k < n implies dealt_hand(orig_deck, n as int, 0, k)
            =~= Seq::<Card>::empty() by {}
    }

    let mut j: usize = 0;
    while j < round_num
        invariant
            j <= round_num,
            n == players@.len(),
            orig_players.len() == n,
            n > 0,
            round_num as int * n as int <= orig_deck.len(),
            deck@ == orig_deck.take(orig_deck.len() - j as int * n as int),
            forall|k: int|
                0 <= k < n ==> redealt(
                    players@[k],
                    orig_players[k],
                    dealt_hand(orig_deck, n as int, j as int, k),
                ),
        decreases round_num - j,
    {
        proof {
            lemma_mul_inequality(j as int + 1, round_num as int, n as int);
            lemma_mul_is_distributive_add_other_way(n as int, j as int, 1);
        }
        let mut i: usize = 0;
        while i < n
            invariant
                i <= n,
                n == players@.len(),
                orig_players.len() == n,
                n > 0,
                j < round_num,
                round_num as int * n as int <= orig_deck.len(),
                (j as int + 1) * n as int <= round_num as int * n as int,
                (j as int + 1) * n as int == j as int * n as int + n as int,
                deck@ == orig_deck.take(orig_deck.len() - (j as int * n as int + i as int)),
                forall|k: int|
                    0 <= k < i ==> redealt(
                        players@[k],
                        orig_players[k],
                        dealt_hand(orig_deck, n as int, j as int + 1, k),
                    ),
                forall|k: int|
                    i <= k < n ==> redealt(
                        players@[k],
                        orig_players[k],
                        dealt_hand(orig_deck, n as int, j as int, k),
                    ),
            decreases n - i,
        {
            let c = deck.pop().unwrap();
            let mut p = players.remove(i);
            proof {
                assert(redealt(
                    p,
                    orig_players[i as int],
                    dealt_hand(orig_deck, n as int, j as int, i as int),
                ));
            }
            p.hand.0.push(c);
            players.insert(i, p);
            proof {
                assert(players@[i as int].hand.0@ =~= dealt_hand(
                    orig_deck,
                    n as int,
                    j as int + 1,
                    i as int,
                ));
                assert(deck@ =~= orig_deck.take(
                    orig_deck.len() - (j as int * n as int + i as int + 1),
                ));
            }
            i = i + 1;
        }
        j = j + 1;
    }

    proof {
        assert forall|i: int| 0 <= i < orig_players.len() implies (#[trigger] players@[i]).hand.0@.len()
            == round_num as int by {
            assert(redealt(
                players@[i],
                orig_players[i],
                dealt_hand(orig_deck, n as int, round_num as int, i),
            ));
        }
    }
}

/// The six players of a fresh match, in canonical order: the human first,
/// then the five computer players, each with their fixed seat number and a
/// clean score sheet.
pub fn initial_players(human_name: String) -> (r: Vec<Player>)
    ensures
        r@.len() == 6,
        r@[0].operator == Operator::Human,
        r@[0].name == human_name,
        forall|i: int| 1 <= i < 6 ==> (#[trigger] r@[i]).operator == Operator::Computer,
        forall|i: int| 0 <= i < 6 ==> (#[trigger] r@[i]).original_position == i,
        r@[1].name@ == "Merlin"@,
        r@[2].name@ == "Oz"@,
        r@[3].name@ == "Sarumon"@,
        r@[4].name@ == "Gandalf"@,
        r@[5].name@ == "Kvothe"@,
        forall|i: int|
            0 <= i < 6 ==> (#[trigger] r@[i]).score == 0 && r@[i].bet == 0 && r@[i].tricks == 0
                && r@[i].hand.0@.len() == 0 && r@[i].card_played == wizard_card(),
{
    let mut players: Vec<Player> = Vec::new();

    let mut human = Player::new();
    human.name = human_name;
    human.operator = Operator::Human;
    players.push(human);

    let mut p1 = Player::new();
    p1.name = String::from_str("Merlin");
    p1.original_position = 1;
    players.push(p1);

    let mut p2 = Player::new();
    p2.name = String::from_str("Oz");
    p2.original_position = 2;
    players.push(p2);

    let mut p3 = Player::new();
    p3.name = String::from_str("Sarumon");
    p3.original_position = 3;
    players.push(p3);

    let mut p4 = Player::new();
    p4.name = String::from_str("Gandalf");
    p4.original_position = 4;
    players.push(p4);

    let mut p5 = Player::new();
    p5.name = String::from_str("Kvothe");
    p5.original_position = 5;
    players.push(p5);

    players
}

/// The match winner, as the round loop of the original program names it.
pub fn calc_final_score(players: Vec<Player>) -> (w: Player)
    requires
        players@.len() > 0,
    ensures
        w == final_winner(players@),
        exists|i: int| 0 <= i < players@.len() && w == players@[i],
        forall|i: int| 0 <= i < players@.len() ==> (#[trigger] players@[i]).score <= w.score,
{
    calc_winner(players)
}

} // verus!
