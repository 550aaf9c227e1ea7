use vstd::prelude::*;
use vstd::string::*;

use crate::card::Card;
use crate::error::GameError;
use crate::player::hand_view;

verus! {

/// A bare seat: a name, a pin and a hand, with no bid or points.
pub struct Players {
    name: String,
    pin: u16,
    cards: Vec<Card>,
}

impl Players {
    pub closed spec fn spec_name(&self) -> Seq<char> {
        self.name@
    }

    pub closed spec fn spec_pin(&self) -> u16 {
        self.pin
    }

    pub closed spec fn spec_hand(&self) -> Seq<crate::card::CardView> {
        hand_view(self.cards@)
    }

    /// A seat with an empty hand.
    pub fn new(name: &str, pin: &u16) -> (r: Players)
        ensures
            r.spec_name() == name@,
            r.spec_pin() == *pin,
            r.spec_hand() == Seq::<crate::card::CardView>::empty(),
    {
        let p = Players { name: String::from_str(name), pin: *pin, cards: Vec::new() };
        assert(p.spec_hand() =~= Seq::empty());
        p
    }

    /// Puts a card at the end of the hand.
    pub fn add_card(&mut self, card: Card)
        ensures
            final(self).spec_hand() == old(self).spec_hand().push(card@),
            final(self).spec_name() == old(self).spec_name(),
            final(self).spec_pin() == old(self).spec_pin(),
    {
        self.cards.push(card);
        assert(self.spec_hand() =~= old(self).spec_hand().push(card@));
    }

    /// The hand, to whoever knows the pin.
    pub fn reveal_hand(&self, pin_entered: &u16) -> (r: Result<&Vec<Card>, GameError>)
        ensures
            *pin_entered == self.spec_pin() <==> r is Ok,
            *pin_entered != self.spec_pin() ==> r == Err::<&Vec<Card>, GameError>(
                GameError::IncorrectPin,
            ),
            r is Ok ==> hand_view(r->Ok_0@) == self.spec_hand(),
    {
        if *pin_entered != self.pin {
            Err(GameError::IncorrectPin)
        } else {
            Ok(&self.cards)
        }
    }
}

} // verus!
