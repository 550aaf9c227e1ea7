use std::collections::HashSet;

use callbreak::card::Suit;
use callbreak::deck::Deck;
use callbreak::error::GameError;

fn drain(deck: &mut Deck) -> Vec<(Suit, String, i32)> {
    let mut out = Vec::new();
    while let Ok(c) = deck.distribute() {
        out.push((c.get_suit(), c.get_value().to_string(), c.get_priority()));
    }
    out
}

fn suit_index(s: Suit) -> usize {
    match s {
        Suit::Club => 0,
        Suit::Spade => 1,
        Suit::Hearts => 2,
        Suit::Diamonds => 3,
    }
}

#[test]
fn deck_test_new_deck() {
    let deck = Deck::new();

    assert_eq!(deck.total_len(), 52);
    assert_eq!(deck.total_len(), 52);
    let top = deck.peek().unwrap();
    assert_eq!(top.get_value(), "2");
    assert_eq!(top.get_suit(), Suit::Hearts);
    assert_eq!(top.get_priority(), 2);
}

#[test]
fn test_shuffle() {
    let mut deck = Deck::new();

    assert_eq!(deck.total_len(), 52);
    let top = deck.peek().unwrap();
    assert_eq!(top.get_value(), "2");
    assert_eq!(top.get_suit(), Suit::Hearts);
    assert_eq!(top.get_priority(), 2);

    let mut before = drain(&mut Deck::new());
    deck.shuffle();
    assert_eq!(deck.total_len(), 52);
    let mut after = drain(&mut deck);
    before.sort_by(|a, b| (suit_index(a.0), a.2).cmp(&(suit_index(b.0), b.2)));
    after.sort_by(|a, b| (suit_index(a.0), a.2).cmp(&(suit_index(b.0), b.2)));
    assert_eq!(before, after);
}

#[test]
fn test_distribute() {
    let mut deck = Deck::new();
    let card = deck.distribute().unwrap();

    assert_eq!(deck.total_len(), 51);
    assert_eq!(deck.total_len(), 51);
    assert_eq!(card.get_value(), "2");
    assert_eq!(card.get_suit(), Suit::Hearts);
    assert_eq!(card.get_priority(), 2);
    // The next card dealt is the next one in order: dealing keeps the order of the rest.
    let next = deck.peek().unwrap();
    assert_eq!(next.get_value(), "3");
    assert_eq!(next.get_suit(), Suit::Hearts);
    assert_eq!(next.get_priority(), 3);
}

#[test]
fn new_deck_order_and_counts() {
    let cards = drain(&mut Deck::new());
    assert_eq!(cards.len(), 52);
    let distinct: HashSet<(usize, String)> =
        cards.iter().map(|c| (suit_index(c.0), c.1.clone())).collect();
    assert_eq!(distinct.len(), 52);
    let mut per_suit = [0usize; 4];
    for c in &cards {
        per_suit[suit_index(c.0)] += 1;
    }
    assert_eq!(per_suit, [13, 13, 13, 13]);
    let suits = [Suit::Hearts, Suit::Spade, Suit::Club, Suit::Diamonds];
    for (i, c) in cards.iter().enumerate() {
        assert_eq!(c.0, suits[i / 13]);
        assert_eq!(c.2, (i % 13) as i32 + 2);
    }
    assert_eq!(cards[8].1, "10");
    assert_eq!(cards[51].1, "A");
}

#[test]
fn dealing_drains_the_deck_then_fails() {
    let mut deck = Deck::new();
    let mut seen = HashSet::new();
    for _ in 0..52 {
        let c = deck.distribute().unwrap();
        assert!(seen.insert((suit_index(c.get_suit()), c.get_value().to_string())));
    }
    assert_eq!(deck.total_len(), 0);
    assert!(deck.peek().is_none());
    assert!(matches!(deck.distribute(), Err(GameError::EmptyDeck)));
    assert_eq!(deck.total_len(), 0);
}

#[test]
fn shuffle_with_given_draws() {
    let mut deck = Deck::new();
    // Exchange position 0 with 51, then leave every other position in place.
    let mut picks: Vec<usize> = (0..52).collect();
    picks[0] = 51;
    deck.shuffle_with(&picks);
    let cards = drain(&mut deck);
    assert_eq!(cards[0], (Suit::Diamonds, "A".to_string(), 14));
    assert_eq!(cards[51], (Suit::Hearts, "2".to_string(), 2));
    assert_eq!(cards[1], (Suit::Hearts, "3".to_string(), 3));
}

#[test]
fn shuffle_changes_the_order() {
    let fresh_order = drain(&mut Deck::new());
    let mut changed = false;
    for _ in 0..5 {
        let mut deck = Deck::new();
        deck.shuffle();
        if drain(&mut deck) != fresh_order {
            changed = true;
        }
    }
    assert!(changed);
}

#[test]
fn shuffle_positions_are_roughly_uniform() {
    // Where does the first card of a new deck end up? Over many shuffles
    // each of the 52 positions should get about 1/52 of the trials.
    let trials = 5_200usize;
    let mut counts = [0usize; 52];
    for _ in 0..trials {
        let mut deck = Deck::new();
        deck.shuffle();
        let cards = drain(&mut deck);
        let pos = cards
            .iter()
            .position(|c| c.0 == Suit::Hearts && c.1 == "2")
            .unwrap();
        counts[pos] += 1;
    }
    let expected = trials as f64 / 52.0;
    for &c in counts.iter() {
        assert!((c as f64) > expected * 0.6 && (c as f64) < expected * 1.4, "count {}", c);
    }
    let chi2: f64 = counts
        .iter()
        .map(|&c| (c as f64 - expected).powi(2) / expected)
        .sum();
    // 51 degrees of freedom: a value above 110 is far out in the tail.
    assert!(chi2 < 110.0, "chi2 {}", chi2);
}
