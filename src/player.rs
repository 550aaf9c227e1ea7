use vstd::prelude::*;
use vstd::string::*;

use crate::card::{Card, CardView, Suit};
use crate::deck::distinct_cards;
use crate::error::GameError;
use crate::game::Call;

verus! {

broadcast use {vstd::seq_lib::group_to_multiset_ensures, vstd::multiset::group_multiset_axioms};

/// The cards of a hand, as values.
pub open spec fn hand_view(cards: Seq<Card>) -> Seq<CardView> {
    cards.map_values(|c: Card| c@)
}

/// Whether some card of `hand` is of `suit`.
pub open spec fn holds_suit(hand: Seq<CardView>, suit: Suit) -> bool {
    exists|i: int| 0 <= i < hand.len() && #[trigger] hand[i].suit == suit
}

/// The follow-suit rule: a player holding a card of the lead suit must play
/// one of those; a player holding none may play any card.
pub open spec fn is_eligible(hand: Seq<CardView>, lead_suit: Suit, i: int) -> bool {
    &&& 0 <= i < hand.len()
    &&& holds_suit(hand, lead_suit) ==> hand[i].suit == lead_suit
}

/// `idx` lists, in increasing order, exactly the positions `i` of a hand of
/// length `n` for which `keep(i)` holds.
pub open spec fn lists_positions(idx: Seq<usize>, n: nat, keep: spec_fn(int) -> bool) -> bool {
    &&& forall|a: int, b: int| 0 <= a < b < idx.len() ==> idx[a] < idx[b]
    &&& forall|k: int| 0 <= k < idx.len() ==> #[trigger] idx[k] < n && keep(idx[k] as int)
    &&& forall|i: usize| i < n && keep(i as int) ==> #[trigger] idx.contains(i)
}

/// The position of the last card of `hand` with rank label `label`, or 0 when there is none.
pub open spec fn last_index_of_rank(hand: Seq<CardView>, label: Seq<char>, r: int) -> bool {
    if exists|i: int| 0 <= i < hand.len() && #[trigger] hand[i].rank == label {
        &&& 0 <= r < hand.len()
        &&& hand[r].rank == label
        &&& forall|j: int| r < j < hand.len() ==> #[trigger] hand[j].rank != label
    } else {
        r == 0
    }
}

/// What a player is: name, pin, hand, bid and points.
pub struct PlayerView {
    pub name: Seq<char>,
    pub pin: u16,
    pub hand: Seq<CardView>,
    pub call: Call,
    pub points: nat,
}

/// A seat at the table: who sits there, the cards they hold, their bid and
/// the tricks they have taken.
pub struct Player {
    name: String,
    pin: u16,
    cards: Vec<Card>,
    call: Call,
    points: u8,
}

impl View for Player {
    type V = PlayerView;

    closed spec fn view(&self) -> PlayerView {
        PlayerView {
            name: self.name@,
            pin: self.pin,
            hand: hand_view(self.cards@),
            call: self.call,
            points: self.points as nat,
        }
    }
}

impl Player {
    /// A player with an empty hand and no points.
    pub fn new(name: &str, pin: &u16, call: Call) -> (r: Player)
        ensures
            r@ == (PlayerView { name: name@, pin: *pin, hand: Seq::empty(), call: call, points: 0 }),
    {
        let p = Player { name: String::from_str(name), pin: *pin, cards: Vec::new(), call, points: 0 };
        assert(p@.hand =~= Seq::empty());
        p
    }

    pub fn get_name(&self) -> (r: &str)
        ensures
            r@ == self@.name,
    {
        self.name.as_str()
    }

    /// Whether the player is called `name`.
    pub fn is_named(&self, name: &String) -> (r: bool)
        ensures
            r == (self@.name == name@),
    {
        self.name == *name
    }

    pub fn get_call(&self) -> (r: Call)
        ensures
            r == self@.call,
    {
        self.call
    }

    /// Number of cards in hand.
    pub fn hand_len(&self) -> (r: usize)
        ensures
            r == self@.hand.len(),
    {
        self.cards.len()
    }

    /// Puts a card at the end of the hand.
    pub fn add_card(&mut self, card: Card)
        ensures
            final(self)@ == (PlayerView { hand: old(self)@.hand.push(card@), ..old(self)@ }),
    {
        self.cards.push(card);
        assert(self@.hand =~= old(self)@.hand.push(card@));
    }

    /// The hand, to whoever knows the pin.
    pub fn reveal_hand(&self, pin_entered: &u16) -> (r: Result<&Vec<Card>, GameError>)
        ensures
            *pin_entered == self@.pin <==> r is Ok,
            *pin_entered != self@.pin ==> r == Err::<&Vec<Card>, GameError>(GameError::IncorrectPin),
            r is Ok ==> hand_view(r->Ok_0@) == self@.hand,
    {
        if *pin_entered != self.pin {
            Err(GameError::IncorrectPin)
        } else {
            Ok(&self.cards)
        }
    }

    /// The position of the last card whose rank label is `card_value`, or 0
    /// when the hand holds none.
    pub fn get_card_idx(&self, card_value: &str) -> (r: usize)
        ensures
            last_index_of_rank(self@.hand, card_value@, r as int),
    {
        let target = String::from_str(card_value);
        let ghost hand = self@.hand;
        let mut idx: usize = 0;
        let mut found = false;
        let mut i: usize = 0;
        while i < self.cards.len()
            invariant
                hand == self@.hand,
                target@ == card_value@,
                i <= hand.len(),
                found ==> idx < i && hand[idx as int].rank == target@,
                found ==> forall|j: int| idx < j < i ==> #[trigger] hand[j].rank != target@,
                !found ==> idx == 0,
                !found ==> forall|j: int| 0 <= j < i ==> #[trigger] hand[j].rank != target@,
            decreases self.cards.len() - i,
        {
            if self.cards[i].rank_is(&target) {
                idx = i;
                found = true;
            }
            i += 1;
        }
        idx
    }

    /// Removes and returns the card at `card_idx`; the last card of the hand
    /// takes its place.
    pub fn throw(&mut self, card_idx: usize) -> (r: Result<Card, GameError>)
        ensures
            card_idx < old(self)@.hand.len() <==> r is Ok,
            card_idx >= old(self)@.hand.len() ==> r == Err::<Card, GameError>(
                GameError::IndexOutOfRange,
            ) && final(self)@ == old(self)@,
            r is Ok ==> {
                let old_hand = old(self)@.hand;
                let c = r->Ok_0@;
                &&& c == old_hand[card_idx as int]
                &&& final(self)@ == (PlayerView {
                    hand: old_hand.update(card_idx as int, old_hand.last()).drop_last(),
                    ..old(self)@
                })
                &&& final(self)@.hand.len() == old_hand.len() - 1
                &&& final(self)@.hand.to_multiset().insert(c) == old_hand.to_multiset()
                &&& distinct_cards(old_hand) ==> !final(self)@.hand.contains(c)
            },
    {
        if card_idx >= self.cards.len() {
            return Err(GameError::IndexOutOfRange);
        }
        let ghost old_hand = self@.hand;
        let card = self.cards.swap_remove(card_idx);
        let ghost n = old_hand.len();
        let ghost new_hand = self@.hand;
        assert(new_hand =~= old_hand.update(card_idx as int, old_hand.last()).drop_last());
        proof {
            let u = old_hand.update(card_idx as int, old_hand.last());
            vstd::seq_lib::to_multiset_update(old_hand, card_idx as int, old_hand.last());
            assert(u =~= new_hand.push(u.last()));
            vstd::seq_lib::to_multiset_build(new_hand, u.last());
            assert(old_hand[card_idx as int] == card@);
            assert(old_hand.contains(card@));
            let m_old = old_hand.to_multiset();
            let m_new = new_hand.to_multiset();
            assert(m_old.count(card@) > 0);
            assert(u.to_multiset() == m_old.insert(old_hand.last()).remove(card@));
            assert(u.to_multiset() == m_new.insert(old_hand.last()));
            assert forall|x: CardView| #[trigger] m_new.insert(card@).count(x) == m_old.count(x) by {
                assert(u.to_multiset().count(x) == m_old.insert(old_hand.last()).remove(card@).count(x));
                assert(u.to_multiset().count(x) == m_new.insert(old_hand.last()).count(x));
            }
            assert(m_new.insert(card@) =~= m_old);
            if distinct_cards(old_hand) && new_hand.contains(card@) {
                let k = choose|k: int| 0 <= k < new_hand.len() && new_hand[k] == card@;
                if k == card_idx {
                    assert(old_hand[n - 1] == old_hand[card_idx as int]);
                } else {
                    assert(old_hand[k] == old_hand[card_idx as int]);
                }
            }
        }
        Ok(card)
    }

    /// The positions of the cards the player may play when `lead_suit` was led:
    /// those of the lead suit if the hand holds any, else every position.
    pub fn eligible_indices(&self, lead_suit: Suit) -> (r: Vec<usize>)
        ensures
            lists_positions(r@, self@.hand.len(), |i: int| is_eligible(self@.hand, lead_suit, i)),
    {
        let ghost hand = self@.hand;
        let n = self.cards.len();
        let mut follows = false;
        let mut i: usize = 0;
        while i < n
            invariant
                hand == self@.hand,
                n == hand.len(),
                i <= n,
                follows == exists|j: int| 0 <= j < i && #[trigger] hand[j].suit == lead_suit,
            decreases n - i,
        {
            assert(hand[i as int] == self.cards@[i as int]@);
            if self.cards[i].get_suit() == lead_suit {
                follows = true;
            }
            i += 1;
        }
        let mut out: Vec<usize> = Vec::new();
        let mut i: usize = 0;
        while i < n
            invariant
                hand == self@.hand,
                n == hand.len(),
                i <= n,
                follows == holds_suit(hand, lead_suit),
                forall|a: int, b: int| 0 <= a < b < out@.len() ==> out@[a] < out@[b],
                forall|k: int|
                    0 <= k < out@.len() ==> out@[k] < i && is_eligible(hand, lead_suit, out@[k] as int),
                forall|j: usize|
                    j < i && is_eligible(hand, lead_suit, j as int) ==> #[trigger] out@.contains(j),
            decreases n - i,
        {
            assert(hand[i as int] == self.cards@[i as int]@);
            if !follows || self.cards[i].get_suit() == lead_suit {
                let ghost before = out@;
                out.push(i);
                assert(out@[out@.len() - 1] == i);
                assert forall|j: usize| j <= i && is_eligible(hand, lead_suit, j as int) implies #[trigger] out@.contains(
                    j,
                ) by {
                    if j < i {
                        assert(before.contains(j));
                        let k = choose|k: int| 0 <= k < before.len() && before[k] == j;
                        assert(out@[k] == j);
                    }
                }
            }
            i += 1;
        }
        out
    }

    /// Adds to the player's points; the counter stops at 255 rather than wrap.
    pub fn add_points(&mut self, points: u8)
        ensures
            final(self)@ == (PlayerView {
                points: if old(self)@.points + points <= 255 {
                    (old(self)@.points + points) as nat
                } else {
                    255
                },
                ..old(self)@
            }),
    {
        self.points = self.points.saturating_add(points);
    }

    pub fn get_points(&self) -> (r: u8)
        ensures
            r == self@.points,
    {
        self.points
    }
}

} // verus!
