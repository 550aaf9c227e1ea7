use callbreak::card::{Card, Suit};
use callbreak::error::GameError;
use callbreak::game::Call;
use callbreak::player::Player;
use callbreak::players::Players;

fn card(suit: Suit, value: &str) -> Card {
    Card::new(suit, value.to_string()).unwrap()
}

#[test]
fn player_test_new_deck() {
    let player = Player::new("test", &1234, Call::Two(2));

    assert_eq!(player.hand_len(), 0);
    assert_eq!(player.get_name(), "test");
    assert_eq!(player.get_call(), Call::Two(2));
    assert!(player.reveal_hand(&1234).is_ok());
}

#[test]
fn test_add_cards() {
    let mut player = Player::new("test", &1234, Call::Two(2));

    player.add_card(Card::new(Suit::Diamonds, "J".to_string()).unwrap());
    player.add_card(Card::new(Suit::Diamonds, "K".to_string()).unwrap());
    player.add_card(Card::new(Suit::Diamonds, "A".to_string()).unwrap());

    let cards = player.reveal_hand(&1234).unwrap();
    assert_eq!(cards.len(), 3);
    assert_eq!(cards[0].get_value(), "J");
    assert_eq!(cards[1].get_value(), "K");
    assert_eq!(cards[2].get_value(), "A");
}

#[test]
fn test_get_card_idx() {
    let mut player = Player::new("test", &1234, Call::Two(2));

    player.add_card(Card::new(Suit::Diamonds, "J".to_string()).unwrap());
    player.add_card(Card::new(Suit::Diamonds, "K".to_string()).unwrap());
    player.add_card(Card::new(Suit::Diamonds, "A".to_string()).unwrap());

    assert_eq!(player.get_card_idx("J"), 0);
    assert_eq!(player.get_card_idx("K"), 1);
    assert_eq!(player.get_card_idx("A"), 2);
}

#[test]
fn test_throw() {
    let mut player = Player::new("test", &1234, Call::Two(2));

    player.add_card(Card::new(Suit::Diamonds, "J".to_string()).unwrap());
    player.add_card(Card::new(Suit::Diamonds, "K".to_string()).unwrap());
    player.add_card(Card::new(Suit::Diamonds, "A".to_string()).unwrap());

    let card1 = player.throw(0).unwrap();
    assert_eq!(card1.get_value(), "J");
    assert_eq!(card1.get_suit(), Suit::Diamonds);
    assert_eq!(card1.get_priority(), 11);

    let card2 = player.throw(1).unwrap();
    assert_eq!(card2.get_value(), "K");
    assert_eq!(card2.get_suit(), Suit::Diamonds);
    assert_eq!(card2.get_priority(), 13);

    let card3 = player.throw(0).unwrap();
    assert_eq!(card3.get_value(), "A");
    assert_eq!(card3.get_suit(), Suit::Diamonds);
    assert_eq!(card3.get_priority(), 14);
}

#[test]
fn test_add_points() {
    let mut player = Player::new("test", &1234, Call::Two(2));
    player.add_points(1);
    assert_eq!(player.get_points(), 1);

    player.add_points(1);
    assert_eq!(player.get_points(), 2);

    player.add_points(1);
    assert_eq!(player.get_points(), 3);
}

#[test]
fn points_stop_at_the_top() {
    let mut player = Player::new("p", &1, Call::Five(5));
    player.add_points(250);
    player.add_points(10);
    assert_eq!(player.get_points(), 255);
}

#[test]
fn card_idx_takes_the_last_match_or_zero() {
    let mut player = Player::new("p", &1, Call::Three(3));
    player.add_card(card(Suit::Club, "9"));
    player.add_card(card(Suit::Hearts, "4"));
    player.add_card(card(Suit::Spade, "9"));
    assert_eq!(player.get_card_idx("9"), 2);
    assert_eq!(player.get_card_idx("4"), 1);
    assert_eq!(player.get_card_idx("Q"), 0);
}

#[test]
fn throw_shrinks_hand_and_removes_the_card() {
    let mut player = Player::new("p", &1, Call::Three(3));
    player.add_card(card(Suit::Club, "2"));
    player.add_card(card(Suit::Hearts, "5"));
    player.add_card(card(Suit::Spade, "K"));
    player.add_card(card(Suit::Diamonds, "10"));
    let thrown = player.throw(1).unwrap();
    assert_eq!(player.hand_len(), 3);
    assert_eq!((thrown.get_suit(), thrown.get_value()), (Suit::Hearts, "5"));
    let hand = player.reveal_hand(&1).unwrap();
    assert!(hand
        .iter()
        .all(|c| !(c.get_suit() == Suit::Hearts && c.get_value() == "5")));
    // The last card took the thrown card's place.
    assert_eq!(hand[1].get_value(), "10");
}

#[test]
fn throw_past_the_hand_is_refused() {
    let mut player = Player::new("p", &1, Call::Three(3));
    player.add_card(card(Suit::Club, "2"));
    assert!(matches!(player.throw(1), Err(GameError::IndexOutOfRange)));
    assert_eq!(player.hand_len(), 1);
    let mut empty = Player::new("q", &1, Call::Three(3));
    assert!(matches!(empty.throw(0), Err(GameError::IndexOutOfRange)));
}

#[test]
fn wrong_pin_hides_the_hand() {
    let mut player = Player::new("p", &4321, Call::Two(2));
    player.add_card(card(Suit::Club, "2"));
    assert!(matches!(player.reveal_hand(&1234), Err(GameError::IncorrectPin)));
    assert_eq!(player.reveal_hand(&4321).unwrap().len(), 1);
}

#[test]
fn eligible_follows_the_lead_suit_when_possible() {
    let mut player = Player::new("p", &1, Call::Two(2));
    player.add_card(card(Suit::Club, "2"));
    player.add_card(card(Suit::Spade, "A"));
    player.add_card(card(Suit::Club, "K"));
    player.add_card(card(Suit::Hearts, "9"));
    // Holding clubs: only the clubs, not the trump.
    assert_eq!(player.eligible_indices(Suit::Club), vec![0, 2]);
    // Holding no diamond: any card.
    assert_eq!(player.eligible_indices(Suit::Diamonds), vec![0, 1, 2, 3]);
    // Spade led: only the spade.
    assert_eq!(player.eligible_indices(Suit::Spade), vec![1]);
    let empty = Player::new("q", &1, Call::Two(2));
    assert!(empty.eligible_indices(Suit::Club).is_empty());
}

#[test]
fn bare_seat_holds_cards_behind_its_pin() {
    let mut seat = Players::new("s", &77);
    seat.add_card(card(Suit::Hearts, "3"));
    seat.add_card(card(Suit::Club, "J"));
    let hand = seat.reveal_hand(&77).unwrap();
    assert_eq!(hand.len(), 2);
    assert_eq!(hand[1].get_value(), "J");
    assert!(matches!(seat.reveal_hand(&78), Err(GameError::IncorrectPin)));
}
