use callbreak::card::{Card, Suit};
use callbreak::error::GameError;
use callbreak::game::{beats_winner, call_for, Call, Game, Participant, Trick};

fn card(suit: Suit, value: &str) -> Card {
    Card::new(suit, value.to_string()).unwrap()
}

fn winner_of(plays: &[(&str, Suit, &str)]) -> (String, Suit, String) {
    let mut trick = Trick::new();
    for (who, suit, value) in plays {
        trick.play(who, card(*suit, value));
    }
    let w = trick.winner().unwrap();
    (w.get_player().to_string(), w.get_suit(), w.get_value().to_string())
}

#[test]
fn same_suit_higher_priority_wins() {
    let w = winner_of(&[("a", Suit::Club, "5"), ("b", Suit::Club, "9")]);
    assert_eq!(w, ("b".to_string(), Suit::Club, "9".to_string()));
}

#[test]
fn trump_overrides_non_trump() {
    let w = winner_of(&[("a", Suit::Club, "5"), ("b", Suit::Spade, "2")]);
    assert_eq!(w, ("b".to_string(), Suit::Spade, "2".to_string()));
}

#[test]
fn trump_against_trump_compares_priority() {
    let w = winner_of(&[("a", Suit::Spade, "10"), ("b", Suit::Spade, "K")]);
    assert_eq!(w, ("b".to_string(), Suit::Spade, "K".to_string()));
}

#[test]
fn off_suit_non_trump_never_wins() {
    let w = winner_of(&[("a", Suit::Club, "5"), ("b", Suit::Hearts, "9")]);
    assert_eq!(w, ("a".to_string(), Suit::Club, "5".to_string()));
}

#[test]
fn lower_trump_cannot_take_a_higher_trump() {
    let w = winner_of(&[
        ("a", Suit::Club, "5"),
        ("b", Suit::Spade, "Q"),
        ("c", Suit::Spade, "3"),
        ("d", Suit::Club, "A"),
    ]);
    assert_eq!(w, ("b".to_string(), Suit::Spade, "Q".to_string()));
}

#[test]
fn same_rank_is_ignored() {
    // The spade 5 carries the winner's rank, so it does not take the trick.
    let w = winner_of(&[("a", Suit::Club, "5"), ("b", Suit::Spade, "5")]);
    assert_eq!(w, ("a".to_string(), Suit::Club, "5".to_string()));
}

#[test]
fn lead_stays_with_the_first_play() {
    let mut trick = Trick::new();
    assert!(trick.lead().is_none());
    assert!(trick.winner().is_none());
    trick.play("a", card(Suit::Hearts, "4"));
    trick.play("b", card(Suit::Hearts, "J"));
    assert_eq!(trick.len(), 2);
    let lead = trick.lead().unwrap();
    assert_eq!((lead.get_player(), lead.get_suit(), lead.get_priority()), ("a", Suit::Hearts, 4));
}

#[test]
fn beats_winner_decides_each_case() {
    let club5 = Participant::new("a", Suit::Club, 5, "5".to_string());
    let spade10 = Participant::new("a", Suit::Spade, 10, "10".to_string());
    assert!(beats_winner(&card(Suit::Club, "9"), &club5, Suit::Club));
    assert!(beats_winner(&card(Suit::Spade, "2"), &club5, Suit::Club));
    assert!(beats_winner(&card(Suit::Spade, "K"), &spade10, Suit::Club));
    assert!(!beats_winner(&card(Suit::Hearts, "9"), &club5, Suit::Club));
    assert!(!beats_winner(&card(Suit::Club, "A"), &spade10, Suit::Club));
    assert!(!beats_winner(&card(Suit::Club, "3"), &club5, Suit::Club));
    assert!(!beats_winner(&card(Suit::Hearts, "5"), &club5, Suit::Club));
}

#[test]
fn call_table_holds_two_to_eight() {
    assert_eq!(call_for(2), Some(Call::Two(2)));
    assert_eq!(call_for(5), Some(Call::Five(5)));
    assert_eq!(call_for(8), Some(Call::Eight(8)));
    assert_eq!(call_for(1), None);
    assert_eq!(call_for(9), None);
    assert_eq!(call_for(0), None);
}

#[test]
fn adding_a_name_twice_keeps_one_player() {
    let mut game = Game::new_game();
    assert!(game.add_players("ann", &1, 3).is_ok());
    assert!(matches!(game.add_players("ann", &2, 4), Err(GameError::DuplicateName)));
    assert_eq!(game.player_count(), 1);
    assert_eq!(game.get_player("ann").unwrap().get_call(), Call::Three(3));
}

#[test]
fn bids_outside_the_table_are_refused() {
    let mut game = Game::new_game();
    assert!(matches!(game.add_players("ann", &1, 9), Err(GameError::InvalidCall)));
    assert!(matches!(game.add_players("ann", &1, 1), Err(GameError::InvalidCall)));
    assert_eq!(game.player_count(), 0);
}

#[test]
fn start_needs_two_players() {
    let mut game = Game::new_game();
    assert!(matches!(game.start(), Err(GameError::InsufficientPlayers)));
    game.add_players("ann", &1, 2).unwrap();
    assert!(matches!(game.start(), Err(GameError::InsufficientPlayers)));
    assert_eq!(game.deck_len(), 52);
    assert_eq!(game.get_total_rounds(), 0);
}

#[test]
fn start_deals_the_whole_deck_round_robin() {
    let mut game = Game::new_game();
    for name in ["a", "b", "c", "d"] {
        game.add_players(name, &1, 4).unwrap();
    }
    game.start().unwrap();
    assert_eq!(game.deck_len(), 0);
    assert_eq!(game.get_total_rounds(), 13);
    let mut all = Vec::new();
    for name in ["a", "b", "c", "d"] {
        let hand = game.reveal_hand(name, &1).unwrap();
        assert_eq!(hand.len(), 13);
        for c in hand.iter() {
            all.push((format!("{:?}", c.get_suit()), c.get_value().to_string()));
        }
    }
    all.sort();
    all.dedup();
    assert_eq!(all.len(), 52);
}

#[test]
fn three_players_split_fifty_two_cards() {
    let mut game = Game::new_game();
    for name in ["a", "b", "c"] {
        game.add_players(name, &1, 2).unwrap();
    }
    game.start().unwrap();
    assert_eq!(game.get_total_rounds(), 17);
    assert_eq!(game.get_player("a").unwrap().hand_len(), 18);
    assert_eq!(game.get_player("b").unwrap().hand_len(), 17);
    assert_eq!(game.get_player("c").unwrap().hand_len(), 17);
}

#[test]
fn throws_are_checked() {
    let mut game = Game::new_game();
    game.add_players("a", &1, 2).unwrap();
    game.add_players("b", &2, 2).unwrap();
    game.start().unwrap();
    assert!(matches!(game.throw("zed", 0), Err(GameError::UnknownPlayer)));
    assert!(matches!(game.throw("a", 26), Err(GameError::IndexOutOfRange)));
    assert_eq!(game.get_player("a").unwrap().hand_len(), 26);
    assert_eq!(game.get_current_round().len(), 0);
    assert!(matches!(game.reveal_hand("a", &2), Err(GameError::IncorrectPin)));
    assert!(matches!(game.reveal_hand("zed", &1), Err(GameError::UnknownPlayer)));
    assert!(matches!(game.get_player_eligible_cards("zed"), Err(GameError::UnknownPlayer)));
}

#[test]
fn a_complete_trick_scores_its_winner() {
    let mut game = Game::new_game();
    game.add_players("a", &1, 2).unwrap();
    game.add_players("b", &2, 2).unwrap();
    game.start().unwrap();
    // Leading: every card may be played.
    assert_eq!(game.get_player_eligible_cards("a").unwrap(), (0..26).collect::<Vec<usize>>());
    let first = game.throw("a", 0).unwrap();
    assert_eq!(game.get_player("a").unwrap().hand_len(), 25);
    assert_eq!(game.get_round_winner().unwrap().get_player(), "a");
    // Following: the lead suit if b holds it, else anything.
    let eligible = game.get_player_eligible_cards("b").unwrap();
    let hand_b: Vec<(Suit, String)> = game
        .reveal_hand("b", &2)
        .unwrap()
        .iter()
        .map(|c| (c.get_suit(), c.get_value().to_string()))
        .collect();
    let follows = hand_b.iter().any(|c| c.0 == first.get_suit());
    for (i, c) in hand_b.iter().enumerate() {
        assert_eq!(eligible.contains(&i), !follows || c.0 == first.get_suit());
    }
    game.throw("b", eligible[0]).unwrap();
    assert_eq!(game.get_round_no(), 1);
    let winner = game.get_round_winner().unwrap().get_player().to_string();
    let (pa, pb) = (
        game.get_player("a").unwrap().get_points(),
        game.get_player("b").unwrap().get_points(),
    );
    if winner == "a" {
        assert_eq!((pa, pb), (1, 0));
    } else {
        assert_eq!((pa, pb), (0, 1));
    }
    // The trick stays complete, and keeps its lead suit, until it is cleared.
    assert!(game.is_round_complete());
    let hand_a: Vec<Suit> = game
        .reveal_hand("a", &1)
        .unwrap()
        .iter()
        .map(|c| c.get_suit())
        .collect();
    let follows_a = hand_a.iter().any(|s| *s == first.get_suit());
    let eligible_a = game.get_player_eligible_cards("a").unwrap();
    for (i, s) in hand_a.iter().enumerate() {
        assert_eq!(eligible_a.contains(&i), !follows_a || *s == first.get_suit());
    }
    game.clear_round();
    assert!(!game.is_round_complete());
    assert_eq!(game.get_current_round().len(), 0);
    assert!(game.get_round_winner().is_none());
    // After clearing, the next throw leads a new trick: any card may be played.
    assert_eq!(game.get_player_eligible_cards("a").unwrap().len(), 25);
    game.throw("a", 0).unwrap();
    assert_eq!(game.get_current_round().len(), 1);
    assert!(!game.is_match_over());
}

#[test]
fn a_whole_match_hands_out_one_point_per_trick() {
    let names = ["w", "x", "y", "z"];
    let mut game = Game::new_game();
    for name in names {
        game.add_players(name, &9, 3).unwrap();
    }
    game.start().unwrap();
    let mut leader = 0usize;
    for round in 0..13u8 {
        assert_eq!(game.get_round_no(), round);
        for k in 0..4 {
            let name = names[(leader + k) % 4];
            let eligible = game.get_player_eligible_cards(name).unwrap();
            assert!(!eligible.is_empty());
            game.throw(name, eligible[0]).unwrap();
        }
        let winner = game.get_round_winner().unwrap().get_player().to_string();
        leader = names.iter().position(|n| *n == winner).unwrap();
        game.clear_round();
    }
    assert_eq!(game.get_round_no(), 13);
    assert!(game.is_match_over());
    let total: u32 = names
        .iter()
        .map(|n| game.get_player(n).unwrap().get_points() as u32)
        .sum();
    assert_eq!(total, 13);
    for name in names {
        assert_eq!(game.get_player(name).unwrap().hand_len(), 0);
        assert!(matches!(game.throw(name, 0), Err(GameError::IndexOutOfRange)));
    }
}

#[test]
fn a_complete_trick_still_asks_to_follow_its_lead() {
    // Two players; deal, then find a position of each suit in each hand by
    // playing a full trick and checking the rule on the complete trick.
    let mut game = Game::new_game();
    game.add_players("a", &1, 2).unwrap();
    game.add_players("b", &2, 2).unwrap();
    game.start().unwrap();
    let lead = game.throw("a", 0).unwrap();
    let b_eligible = game.get_player_eligible_cards("b").unwrap();
    game.throw("b", b_eligible[0]).unwrap();
    assert!(game.is_round_complete());
    for (name, pin) in [("a", 1u16), ("b", 2u16)] {
        let suits: Vec<Suit> = game
            .reveal_hand(name, &pin)
            .unwrap()
            .iter()
            .map(|c| c.get_suit())
            .collect();
        let expected: Vec<usize> = if suits.iter().any(|s| *s == lead.get_suit()) {
            (0..suits.len()).filter(|&i| suits[i] == lead.get_suit()).collect()
        } else {
            (0..suits.len()).collect()
        };
        assert_eq!(game.get_player_eligible_cards(name).unwrap(), expected);
    }
}
