use wizard::card::{Card, Rank, Suit};
use wizard::deck::Deck;
use wizard::player::{Operator, Player};
use wizard::{
    calc_final_score, calc_score, calc_winner, can_follow_suit, computer_bet, deal_round,
    get_play_from_comp, initial_players, lead_suit_of, play_is_legal, restore_original_order,
    rotate_for_round, set_trump, set_trump_with_choice, valid_bet,
};

fn jester() -> Card {
    Card {
        rank: Rank::Jester,
        suit: Suit::Suitless,
    }
}

fn wizard_card() -> Card {
    Card {
        rank: Rank::Wizard,
        suit: Suit::Suitless,
    }
}

#[test]
fn lib_test_set_trump() {
    let dealer = Player::new();

    // Normal card should be returned as trump.
    let two_of_hearts = Card {
        rank: Rank::Two,
        suit: Suit::Heart,
    };
    let mut trump = set_trump(two_of_hearts, &dealer);
    assert_eq!(trump, two_of_hearts);

    // Nothing special happens for Jester, returned like normal card.
    trump = set_trump(jester(), &dealer);
    assert_eq!(trump, jester());

    // If Wizard is flipped the dealer should choose a suit for trump.
    trump = set_trump(wizard_card(), &dealer);
    assert_eq!(trump.rank, Rank::Wizard);
    assert_ne!(trump.suit, Suit::Suitless);
}

#[test]
fn main_test_set_trump() {
    let dealer = Player::new();

    // Normal card should be returned as trump.
    let two_of_hearts = Card {
        rank: Rank::Two,
        suit: Suit::Heart,
    };
    let mut trump = set_trump(two_of_hearts, &dealer);
    assert_eq!(trump, two_of_hearts);

    // Nothing special happens for Jester, returned like normal card.
    trump = set_trump(jester(), &dealer);
    assert_eq!(trump, jester());

    // If Wizard is flipped the dealer should choose a suit for trump.
    trump = set_trump(wizard_card(), &dealer);
    assert_eq!(trump.rank, Rank::Wizard);
    assert_ne!(trump.suit, Suit::Suitless);
}

#[test]
fn test_set_trump_with_choice() {
    let chosen = set_trump_with_choice(wizard_card(), Suit::Heart);
    assert_eq!(chosen.rank, Rank::Wizard);
    assert_eq!(chosen.suit, Suit::Heart);

    let plain = Card {
        rank: Rank::Nine,
        suit: Suit::Club,
    };
    assert_eq!(set_trump_with_choice(plain, Suit::Heart), plain);
    assert_eq!(set_trump_with_choice(jester(), Suit::Spade), jester());
}

#[test]
fn lib_test_calc_score() {
    let mut players: Vec<Player> = Vec::new();
    let mut player = Player::new();

    // First player bets 0 and gets 0 tricks, should have score of 2.
    players.push(player.clone());

    // Second player bets 1 and gets 0 tricks, should have score of -1.
    player.bet = 1;
    players.push(player.clone());

    // Third player bets 1 and gets 2 tricks, should have score of -1.
    player.tricks = 2;
    players.push(player.clone());

    calc_score(&mut players);
    assert_eq!(players[0].score, 2);
    assert_eq!(players[1].score, -1);
    assert_eq!(players[2].score, -1);
}

#[test]
fn main_test_calc_score() {
    let mut players: Vec<Player> = Vec::new();
    let mut player = Player::new();

    // First player bets 0 and gets 0 tricks, should have score of 2.
    players.push(player.clone());
    player.bet = 1;
    // Second player bets 1 and gets 0 tricks, should have score of -1.
    players.push(player.clone());

    player.tricks = 2;
    // Third player bets 1 and gets 2 tricks, should have score of -1.
    players.push(player.clone());

    calc_score(&mut players);
    assert_eq!(players[0].score, 2);
    assert_eq!(players[1].score, -1);
    assert_eq!(players[2].score, -1);
}

#[test]
fn test_calc_score_exact_bet_bonus() {
    let mut players = vec![Player::new()];
    players[0].bet = 3;
    players[0].tricks = 3;
    players[0].score = 10;
    calc_score(&mut players);
    assert_eq!(players[0].score, 15);
}

#[test]
fn test_calc_winner() {
    let mut players: Vec<Player> = Vec::new();
    for _ in 0..6 {
        players.push(Player::new());
    }

    players[0].score = 3;
    players[1].score = -2;
    players[2].score = 3;
    players[3].score = 5;
    players[4].score = 4;
    players[5].score = 0;

    // For now if there is a tie the player first in rotation will win.
    let winner = calc_winner(players.clone());
    assert_eq!(players[3].score, winner.score);
}

#[test]
fn test_calc_final_score() {
    // For now if there is a tie the player first in rotation will win.
    let players: Vec<Player> = vec![
        Player {
            score: 3,
            ..Player::new()
        },
        Player {
            score: -2,
            ..Player::new()
        },
        Player {
            score: 3,
            ..Player::new()
        },
        Player {
            score: 5,
            ..Player::new()
        },
        Player {
            score: 4,
            ..Player::new()
        },
    ];

    let winner = calc_final_score(players.clone());
    assert_eq!(players[3].score, winner.score);
}

#[test]
fn test_calc_winner_tie_goes_to_first_scanned() {
    let mut players: Vec<Player> = Vec::new();
    for position in 0..4 {
        let mut p = Player::new();
        p.original_position = position;
        players.push(p);
    }
    players[0].score = 7;
    players[1].score = 2;
    players[2].score = 7;
    players[3].score = 1;

    // Both tied players score 7; the one scanned first (seat 0) wins.
    let winner = calc_winner(players);
    assert_eq!(winner.score, 7);
    assert_eq!(winner.original_position, 0);
}

fn fresh_players(n: usize) -> Vec<Player> {
    let mut players = Vec::new();
    for position in 0..n {
        let mut p = Player::new();
        p.original_position = position;
        players.push(p);
    }
    players
}

#[test]
fn test_deal_round_hand_sizes() {
    // Across a whole match: each round every hand holds exactly round_num
    // cards and the deck loses round_num cards per player.
    let n = 4;
    let fresh = Deck::build().0;
    let rounds = fresh.len() / n;
    let mut players = fresh_players(n);
    for round_num in 1..=rounds {
        let mut deck = Deck::shuffle(fresh.clone());
        let before = deck.len();
        deal_round(&mut players, &mut deck, round_num);
        for p in players.iter() {
            assert_eq!(p.hand.0.len(), round_num);
            assert_eq!(p.tricks, 0);
        }
        assert_eq!(deck.len(), before - round_num * n);
    }
}

#[test]
fn test_deal_round_deals_from_top_round_robin() {
    let mut players = fresh_players(2);
    let mut deck = vec![
        Card {
            rank: Rank::Two,
            suit: Suit::Club,
        },
        Card {
            rank: Rank::Three,
            suit: Suit::Club,
        },
        Card {
            rank: Rank::Four,
            suit: Suit::Club,
        },
        Card {
            rank: Rank::Five,
            suit: Suit::Club,
        },
        Card {
            rank: Rank::Six,
            suit: Suit::Club,
        },
    ];
    deal_round(&mut players, &mut deck, 2);

    // The top of the deck is its end: Six goes to player 0, Five to player 1,
    // then Four to player 0 and Three to player 1; Two stays in the deck.
    assert_eq!(players[0].hand.0[0].rank, Rank::Six);
    assert_eq!(players[1].hand.0[0].rank, Rank::Five);
    assert_eq!(players[0].hand.0[1].rank, Rank::Four);
    assert_eq!(players[1].hand.0[1].rank, Rank::Three);
    assert_eq!(deck.len(), 1);
    assert_eq!(deck[0].rank, Rank::Two);
}

#[test]
fn test_rotate_for_round() {
    let mut players = fresh_players(4);
    // Round 1: rotate left by 1 % 4 = 1, then by one more; the leader
    // (seat 2) ends at index 0 and the dealer (seat 1) at the back.
    rotate_for_round(&mut players, 1);
    assert_eq!(players[0].original_position, 2);
    assert_eq!(players[1].original_position, 3);
    assert_eq!(players[2].original_position, 0);
    assert_eq!(players[3].original_position, 1);
}

#[test]
fn test_restore_original_order() {
    let mut players = fresh_players(5);
    rotate_for_round(&mut players, 3);
    assert_ne!(players[0].original_position, 0);
    restore_original_order(&mut players);
    for (index, p) in players.iter().enumerate() {
        assert_eq!(p.original_position, index);
    }
}

#[test]
fn test_initial_players() {
    let players = initial_players(String::from("Morgana"));
    assert_eq!(players.len(), 6);
    assert_eq!(players[0].name, "Morgana");
    assert_eq!(players[0].operator, Operator::Human);
    let names = ["Merlin", "Oz", "Sarumon", "Gandalf", "Kvothe"];
    for (index, name) in names.iter().enumerate() {
        assert_eq!(players[index + 1].name, *name);
        assert_eq!(players[index + 1].operator, Operator::Computer);
        assert_eq!(players[index + 1].original_position, index + 1);
    }
}

#[test]
fn test_player_shuffle_keeps_players() {
    let players = initial_players(String::from("Nimue"));
    let shuffled = Player::shuffle(players.clone());
    assert_eq!(shuffled.len(), players.len());
    for p in players.iter() {
        assert!(shuffled.iter().any(|q| q.name == p.name));
    }
}

#[test]
fn test_valid_bet_bounds() {
    assert!(valid_bet(0, 0));
    assert!(valid_bet(3, 3));
    assert!(!valid_bet(4, 3));
}

#[test]
fn test_computer_bet_in_range() {
    // An empty hand forces a bet of zero.
    assert_eq!(computer_bet(0), 0);
    for _ in 0..50 {
        assert!(computer_bet(5) <= 5);
    }
}

#[test]
fn test_get_play_from_comp_follows_lead() {
    let mut player = Player::new();
    player.hand.0 = vec![
        Card {
            rank: Rank::Two,
            suit: Suit::Club,
        },
        Card {
            rank: Rank::Nine,
            suit: Suit::Heart,
        },
        Card {
            rank: Rank::King,
            suit: Suit::Heart,
        },
    ];
    get_play_from_comp(&mut player, Suit::Heart);
    // The first heart in hand is played and leaves the hand.
    assert_eq!(
        player.card_played,
        Card {
            rank: Rank::Nine,
            suit: Suit::Heart,
        }
    );
    assert_eq!(player.hand.0.len(), 2);
}

#[test]
fn test_get_play_from_comp_falls_back_to_first() {
    let mut player = Player::new();
    player.hand.0 = vec![
        Card {
            rank: Rank::Two,
            suit: Suit::Club,
        },
        Card {
            rank: Rank::Nine,
            suit: Suit::Diamond,
        },
    ];
    get_play_from_comp(&mut player, Suit::Spade);
    assert_eq!(
        player.card_played,
        Card {
            rank: Rank::Two,
            suit: Suit::Club,
        }
    );
    assert_eq!(player.hand.0.len(), 1);
}

#[test]
fn test_lead_suit_of_skips_suitless() {
    let plays = vec![
        jester(),
        wizard_card(),
        Card {
            rank: Rank::Five,
            suit: Suit::Diamond,
        },
        Card {
            rank: Rank::Ace,
            suit: Suit::Heart,
        },
    ];
    assert_eq!(lead_suit_of(&plays), Suit::Diamond);
    assert_eq!(lead_suit_of(&vec![jester(), jester()]), Suit::Suitless);
    assert_eq!(lead_suit_of(&Vec::new()), Suit::Suitless);
}

#[test]
fn test_follow_suit_rules() {
    let hand = vec![
        Card {
            rank: Rank::Two,
            suit: Suit::Club,
        },
        Card {
            rank: Rank::Nine,
            suit: Suit::Heart,
        },
        wizard_card(),
    ];
    assert!(can_follow_suit(&hand, Suit::Heart));
    assert!(!can_follow_suit(&hand, Suit::Spade));
    // A suitless lead never forces following.
    assert!(!can_follow_suit(&hand, Suit::Suitless));

    // A heart must be played on a heart lead when the hand holds one...
    assert!(!play_is_legal(
        Card {
            rank: Rank::Two,
            suit: Suit::Club,
        },
        &hand,
        Suit::Heart,
    ));
    assert!(play_is_legal(
        Card {
            rank: Rank::Nine,
            suit: Suit::Heart,
        },
        &hand,
        Suit::Heart,
    ));
    // ...but a Wizard or Jester is always legal.
    assert!(play_is_legal(wizard_card(), &hand, Suit::Heart));
    assert!(play_is_legal(jester(), &hand, Suit::Heart));
    // Without a matching card, anything goes.
    assert!(play_is_legal(
        Card {
            rank: Rank::Two,
            suit: Suit::Club,
        },
        &hand,
        Suit::Spade,
    ));
}
