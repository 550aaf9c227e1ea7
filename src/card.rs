use vstd::prelude::*;
use vstd::string::*;

use crate::error::GameError;

verus! {

#[derive(Clone, Copy, PartialEq, Eq, Debug, Structural)]
pub enum Suit {
    Club,
    Spade,
    Hearts,
    Diamonds,
}

/// The trump suit of every match.
pub const TRUMP_SUIT: Suit = Suit::Spade;

/// Priority of a single-character rank label: the digits 2 to 9 stand for
/// themselves, J, Q, K and A for 11 to 14; -1 for any other character.
pub open spec fn char_priority(c: char) -> int {
    if c == '2' {
        2
    } else if c == '3' {
        3
    } else if c == '4' {
        4
    } else if c == '5' {
        5
    } else if c == '6' {
        6
    } else if c == '7' {
        7
    } else if c == '8' {
        8
    } else if c == '9' {
        9
    } else if c == 'J' {
        11
    } else if c == 'Q' {
        12
    } else if c == 'K' {
        13
    } else if c == 'A' {
        14
    } else {
        -1
    }
}

/// The fixed rank table: "2" to "10" map to 2 to 10, "J", "Q", "K", "A" to
/// 11 to 14, and every other label to the sentinel -1.
pub open spec fn rank_priority(label: Seq<char>) -> int {
    if label == seq!['1', '0'] {
        10
    } else if label.len() == 1 {
        char_priority(label[0])
    } else {
        -1
    }
}

/// A label is a rank exactly when the table knows it.
pub open spec fn is_rank(label: Seq<char>) -> bool {
    rank_priority(label) != -1
}

/// What a card is: its suit and its rank label.
pub struct CardView {
    pub suit: Suit,
    pub rank: Seq<char>,
}

impl CardView {
    pub open spec fn priority(self) -> int {
        rank_priority(self.rank)
    }
}

/// The two characters drawn for a suit: its symbol and the emoji
/// presentation selector.
pub open spec fn suit_glyph(suit: Suit) -> Seq<char> {
    match suit {
        Suit::Club => seq!['\u{2663}', '\u{fe0f}'],
        Suit::Spade => seq!['\u{2660}', '\u{fe0f}'],
        Suit::Hearts => seq!['\u{2665}', '\u{fe0f}'],
        Suit::Diamonds => seq!['\u{2666}', '\u{fe0f}'],
    }
}

/// The text a card is shown as: `[ <rank> <suit glyph> ]`.
pub open spec fn render(c: CardView) -> Seq<char> {
    seq!['[', ' '] + c.rank + seq![' '] + suit_glyph(c.suit) + seq![' ', ']']
}

/// Looks a rank label up in the rank table.
pub fn label_priority(label: &str) -> (r: i32)
    ensures
        r == rank_priority(label@),
{
    let n = label.unicode_len();
    if n == 1 {
        let c = label.get_char(0);
        if c == '2' {
            2
        } else if c == '3' {
            3
        } else if c == '4' {
            4
        } else if c == '5' {
            5
        } else if c == '6' {
            6
        } else if c == '7' {
            7
        } else if c == '8' {
            8
        } else if c == '9' {
            9
        } else if c == 'J' {
            11
        } else if c == 'Q' {
            12
        } else if c == 'K' {
            13
        } else if c == 'A' {
            14
        } else {
            -1
        }
    } else if n == 2 && label.get_char(0) == '1' && label.get_char(1) == '0' {
        assert(label@ =~= seq!['1', '0']);
        10
    } else {
        assert(label@ != seq!['1', '0']) by {
            if label@ == seq!['1', '0'] {
                assert(label@[0] == '1' && label@[1] == '0');
            }
        }
        -1
    }
}

/// A playing card. Its priority is fixed when it is made, from the rank table.
pub struct Card {
    value: String,
    suit: Suit,
    priority: i32,
}

impl View for Card {
    type V = CardView;

    closed spec fn view(&self) -> CardView {
        CardView { suit: self.suit, rank: self.value@ }
    }
}

impl Card {
    #[verifier::type_invariant]
    spec fn well_formed(self) -> bool {
        &&& self.priority == rank_priority(self.value@)
        &&& 2 <= self.priority <= 14
    }

    /// The rank table's priority for `value` (-1 where the label is no rank).
    pub fn get_initial_priority(&self, value: &str) -> (r: i32)
        ensures
            r == rank_priority(value@),
    {
        label_priority(value)
    }

    /// Makes the card of the given suit and rank label; a label outside the
    /// rank table is refused.
    pub fn new(suit: Suit, value: String) -> (r: Result<Card, GameError>)
        ensures
            is_rank(value@) <==> r is Ok,
            r is Ok ==> r->Ok_0@ == (CardView { suit: suit, rank: value@ }),
            !is_rank(value@) ==> r == Err::<Card, GameError>(GameError::InvalidRank),
    {
        let priority = label_priority(value.as_str());
        if priority == -1 {
            Err(GameError::InvalidRank)
        } else {
            assert(2 <= priority <= 14);
            Ok(Card { value, suit, priority })
        }
    }

    /// A second card equal to this one.
    pub fn duplicate(&self) -> (r: Card)
        ensures
            r@ == self@,
    {
        proof {
            use_type_invariant(self);
        }
        Card { value: self.value.clone(), suit: self.suit, priority: self.priority }
    }

    /// The card as it is shown: `[ <rank> <suit glyph> ]`.
    pub fn get_print_str(&self) -> (r: String)
        ensures
            r@ == render(self@),
    {
        let glyph: &str = match self.suit {
            Suit::Club => "\u{2663}\u{fe0f}",
            Suit::Spade => "\u{2660}\u{fe0f}",
            Suit::Hearts => "\u{2665}\u{fe0f}",
            Suit::Diamonds => "\u{2666}\u{fe0f}",
        };
        proof {
            reveal_strlit("\u{2663}\u{fe0f}");
            reveal_strlit("\u{2660}\u{fe0f}");
            reveal_strlit("\u{2665}\u{fe0f}");
            reveal_strlit("\u{2666}\u{fe0f}");
            reveal_strlit("[ ");
            reveal_strlit(" ");
            reveal_strlit(" ]");
        }
        assert(glyph@ =~= suit_glyph(self.suit));
        let mut out = String::from_str("[ ");
        out.append(self.value.as_str());
        out.append(" ");
        out.append(glyph);
        out.append(" ]");
        assert(out@ =~= render(self@));
        out
    }

    /// The rank label.
    pub fn get_value(&self) -> (r: &str)
        ensures
            r@ == self@.rank,
    {
        self.value.as_str()
    }

    /// Whether the card's rank label is `label`.
    pub fn rank_is(&self, label: &String) -> (r: bool)
        ensures
            r == (self@.rank == label@),
    {
        self.value == *label
    }

    pub fn get_suit(&self) -> (r: Suit)
        ensures
            r == self@.suit,
    {
        self.suit
    }

    /// The priority from the rank table, between 2 and 14.
    pub fn get_priority(&self) -> (r: i32)
        ensures
            r == self@.priority(),
            2 <= r <= 14,
    {
        proof {
            use_type_invariant(self);
        }
        self.priority
    }
}

} // verus!
