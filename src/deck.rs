use vstd::prelude::*;
use vstd::string::*;

use crate::card::{is_rank, rank_priority, Card, CardView, Suit};
use crate::error::GameError;

verus! {

broadcast use {vstd::seq_lib::group_to_multiset_ensures, vstd::multiset::group_multiset_axioms};

/// Number of cards in a full deck.
pub const DECK_LEN: usize = 52;

/// Number of ranks in a suit.
pub const RANKS_PER_SUIT: usize = 13;

/// The `k`-th rank label of a suit, from "2" up to "A".
pub open spec fn rank_label(k: int) -> Seq<char> {
    if k == 0 {
        seq!['2']
    } else if k == 1 {
        seq!['3']
    } else if k == 2 {
        seq!['4']
    } else if k == 3 {
        seq!['5']
    } else if k == 4 {
        seq!['6']
    } else if k == 5 {
        seq!['7']
    } else if k == 6 {
        seq!['8']
    } else if k == 7 {
        seq!['9']
    } else if k == 8 {
        seq!['1', '0']
    } else if k == 9 {
        seq!['J']
    } else if k == 10 {
        seq!['Q']
    } else if k == 11 {
        seq!['K']
    } else {
        seq!['A']
    }
}

/// The thirteen cards of one suit, in rank order.
pub open spec fn suit_cards(suit: Suit) -> Seq<CardView> {
    Seq::new(13, |k: int| CardView { suit: suit, rank: rank_label(k) })
}

/// A new deck: Hearts, then Spade, then Club, then Diamonds, each from "2" to "A".
pub open spec fn full_deck() -> Seq<CardView> {
    suit_cards(Suit::Hearts) + suit_cards(Suit::Spade) + suit_cards(Suit::Club) + suit_cards(
        Suit::Diamonds,
    )
}

/// No two positions of `cards` hold the same (suit, rank) pair.
pub open spec fn distinct_cards(cards: Seq<CardView>) -> bool {
    forall|i: int, j: int|
        0 <= i < cards.len() && 0 <= j < cards.len() && i != j ==> cards[i] != cards[j]
}

/// How many cards of `cards` are of the given suit.
pub open spec fn suit_count(cards: Seq<CardView>, suit: Suit) -> nat {
    Set::new(|i: int| 0 <= i < cards.len() && cards[i].suit == suit).len()
}

/// `s` with the elements at `i` and `j` exchanged.
pub open spec fn swap_seq<A>(s: Seq<A>, i: int, j: int) -> Seq<A> {
    s.update(i, s[j]).update(j, s[i])
}

/// `s` after the first `k` steps of the index-swap shuffle: step `i` exchanges
/// position `i` with position `picks[i]`.
pub open spec fn shuffle_steps<A>(s: Seq<A>, picks: Seq<usize>, k: nat) -> Seq<A>
    decreases k,
{
    if k == 0 {
        s
    } else {
        swap_seq(shuffle_steps(s, picks, (k - 1) as nat), k - 1, picks[k - 1] as int)
    }
}

/// Draws admissible for the index-swap shuffle of `n` cards: the `i`-th lies in `[i, n)`.
pub open spec fn valid_picks(picks: Seq<usize>, n: nat) -> bool {
    &&& picks.len() == n
    &&& forall|i: int| 0 <= i < n ==> i <= #[trigger] picks[i] < n
}

/// What one deal does to a deck: `None` when it is empty, else the first card
/// and the rest in their order.
pub open spec fn deal_step(cards: Seq<CardView>) -> Option<(CardView, Seq<CardView>)> {
    if cards.len() == 0 {
        None
    } else {
        Some((cards[0], cards.drop_first()))
    }
}

/// The cards handed out by `n` deals in a row and the deck that is left, or
/// `None` when one of those deals finds the deck empty.
pub open spec fn deal_many(cards: Seq<CardView>, n: nat) -> Option<(Seq<CardView>, Seq<CardView>)>
    decreases n,
{
    if n == 0 {
        Some((Seq::empty(), cards))
    } else {
        match deal_step(cards) {
            None => None,
            Some((c, rest)) => match deal_many(rest, (n - 1) as nat) {
                None => None,
                Some((dealt, left)) => Some((seq![c] + dealt, left)),
            },
        }
    }
}

/// The `k`-th rank label has priority `k + 2` in the rank table.
pub proof fn lemma_rank_label_priority(k: int)
    requires
        0 <= k < 13,
    ensures
        rank_priority(rank_label(k)) == k + 2,
        is_rank(rank_label(k)),
{
}

proof fn lemma_suit_cards_distinct(suit: Suit)
    ensures
        distinct_cards(suit_cards(suit)),
{
    assert forall|i: int, j: int|
        0 <= i < 13 && 0 <= j < 13 && i != j implies suit_cards(suit)[i] != suit_cards(suit)[j] by {
        lemma_rank_label_priority(i);
        lemma_rank_label_priority(j);
    }
}

proof fn lemma_swap_keeps_multiset<A>(s: Seq<A>, i: int, j: int)
    requires
        0 <= i < s.len(),
        0 <= j < s.len(),
    ensures
        swap_seq(s, i, j).to_multiset() == s.to_multiset(),
        swap_seq(s, i, j).len() == s.len(),
{
    broadcast use vstd::seq_lib::to_multiset_update;

    let t = s.update(i, s[j]);
    assert(t.to_multiset() == s.to_multiset().insert(s[j]).remove(s[i]));
    assert(t.update(j, s[i]).to_multiset() == t.to_multiset().insert(s[i]).remove(t[j]));
    assert(swap_seq(s, i, j).to_multiset() =~= s.to_multiset());
}

/// A new deck holds 52 cards, no two alike, 13 of each suit.
pub proof fn lemma_full_deck_complete()
    ensures
        full_deck().len() == 52,
        distinct_cards(full_deck()),
        forall|s: Suit| #[trigger] suit_count(full_deck(), s) == 13,
{
    let d = full_deck();
    lemma_suit_cards_distinct(Suit::Hearts);
    lemma_suit_cards_distinct(Suit::Spade);
    lemma_suit_cards_distinct(Suit::Club);
    lemma_suit_cards_distinct(Suit::Diamonds);
    assert forall|i: int, j: int|
        0 <= i < d.len() && 0 <= j < d.len() && i != j implies d[i] != d[j] by {
        if i / 13 == j / 13 {
            let b = 13 * (i / 13);
            assert(d[i] == suit_cards(d[i].suit)[i - b]);
            assert(d[j] == suit_cards(d[j].suit)[j - b]);
        }
    }
    assert forall|s: Suit| #[trigger] suit_count(d, s) == 13 by {
        let b: int = match s {
            Suit::Hearts => 0,
            Suit::Spade => 13,
            Suit::Club => 26,
            Suit::Diamonds => 39,
        };
        assert(Set::new(|i: int| 0 <= i < d.len() && d[i].suit == s) =~= vstd::set_lib::set_int_range(
            b,
            b + 13,
        ));
        vstd::set_lib::lemma_int_range(b, b + 13);
    }
}

/// Dealing `n` cards in a row from a deck of at least `n` hands out its first
/// `n` cards in order and leaves the rest; asking for more fails.
pub proof fn lemma_deal_many(cards: Seq<CardView>, n: nat)
    ensures
        n <= cards.len() ==> deal_many(cards, n) == Some((cards.take(n as int), cards.skip(n as int))),
        n > cards.len() ==> deal_many(cards, n) is None,
    decreases n,
{
    if n > 0 && cards.len() > 0 {
        lemma_deal_many(cards.drop_first(), (n - 1) as nat);
        if n <= cards.len() {
            assert(seq![cards[0]] + cards.drop_first().take(n - 1) =~= cards.take(n as int));
            assert(cards.drop_first().skip(n - 1) =~= cards.skip(n as int));
        }
    }
}

/// Fifty-two deals from a new deck hand out 52 distinct cards and leave it
/// empty; a fifty-third deal fails.
pub proof fn lemma_full_deck_deals_out()
    ensures
        deal_many(full_deck(), 52) matches Some((dealt, left)) && dealt.len() == 52 && distinct_cards(
            dealt,
        ) && left.len() == 0,
        deal_many(full_deck(), 53) is None,
{
    lemma_full_deck_complete();
    lemma_deal_many(full_deck(), 52);
    lemma_deal_many(full_deck(), 53);
    assert(full_deck().take(52) =~= full_deck());
}

/// Relies on rand's `thread_rng()` and `Rng::gen_range(low..high)`: for a
/// non-empty range the value is drawn uniformly from `[low, high)`. An empty
/// range makes `gen_range` panic, so it is ruled out here. (`thread_rng` panics
/// only if the operating system's random source cannot seed it.)
#[verifier::external_body]
fn random_index(low: usize, high: usize) -> (r: usize)
    requires
        low < high,
    ensures
        low <= r < high,
{
    rand::Rng::gen_range(&mut rand::thread_rng(), low..high)
}

/// The `k`-th rank label, as a string.
fn rank_label_string(k: usize) -> (r: String)
    requires
        k < 13,
    ensures
        r@ == rank_label(k as int),
{
    let label: &str = if k == 0 {
        "2"
    } else if k == 1 {
        "3"
    } else if k == 2 {
        "4"
    } else if k == 3 {
        "5"
    } else if k == 4 {
        "6"
    } else if k == 5 {
        "7"
    } else if k == 6 {
        "8"
    } else if k == 7 {
        "9"
    } else if k == 8 {
        "10"
    } else if k == 9 {
        "J"
    } else if k == 10 {
        "Q"
    } else if k == 11 {
        "K"
    } else {
        "A"
    };
    proof {
        reveal_strlit("2");
        reveal_strlit("3");
        reveal_strlit("4");
        reveal_strlit("5");
        reveal_strlit("6");
        reveal_strlit("7");
        reveal_strlit("8");
        reveal_strlit("9");
        reveal_strlit("10");
        reveal_strlit("J");
        reveal_strlit("Q");
        reveal_strlit("K");
        reveal_strlit("A");
    }
    assert(label@ =~= rank_label(k as int));
    String::from_str(label)
}

/// Exchanges the elements at `i` and `j`.
fn swap_positions(v: &mut Vec<Card>, i: usize, j: usize)
    requires
        i < old(v).len(),
        j < old(v).len(),
    ensures
        final(v)@ == swap_seq(old(v)@, i as int, j as int),
{
    if i < j {
        let b = v.remove(j);
        let a = v.remove(i);
        v.insert(i, b);
        v.insert(j, a);
        assert(v@ =~= swap_seq(old(v)@, i as int, j as int));
    } else if j < i {
        let a = v.remove(i);
        let b = v.remove(j);
        v.insert(j, a);
        v.insert(i, b);
        assert(v@ =~= swap_seq(old(v)@, i as int, j as int));
    } else {
        assert(v@ =~= swap_seq(old(v)@, i as int, j as int));
    }
}

/// The cards, in order, that have not been dealt yet.
pub struct Deck {
    cards: Vec<Card>,
}

impl View for Deck {
    type V = Seq<CardView>;

    closed spec fn view(&self) -> Seq<CardView> {
        self.cards@.map_values(|c: Card| c@)
    }
}

impl Deck {
    /// A full deck in its initial order (see `full_deck`).
    pub fn new() -> (r: Deck)
        ensures
            r@ == full_deck(),
            r@.len() == 52,
            distinct_cards(r@),
            forall|s: Suit| #[trigger] suit_count(r@, s) == 13,
    {
        let cards = Self::create_deck();
        let deck = Deck { cards };
        proof {
            lemma_full_deck_complete();
        }
        assert(deck@ =~= full_deck());
        deck
    }

    fn create_deck() -> (r: Vec<Card>)
        ensures
            r@.map_values(|c: Card| c@) == full_deck(),
    {
        let mut card_deck: Vec<Card> = Vec::new();
        Self::push_suit(&mut card_deck, Suit::Hearts);
        Self::push_suit(&mut card_deck, Suit::Spade);
        Self::push_suit(&mut card_deck, Suit::Club);
        Self::push_suit(&mut card_deck, Suit::Diamonds);
        assert(card_deck@.map_values(|c: Card| c@) =~= full_deck());
        card_deck
    }

    /// Appends the thirteen cards of `suit`, in rank order.
    fn push_suit(cards: &mut Vec<Card>, suit: Suit)
        ensures
            final(cards)@.map_values(|c: Card| c@) == old(cards)@.map_values(|c: Card| c@)
                + suit_cards(suit),
    {
        let ghost start = cards@.map_values(|c: Card| c@);
        let mut k: usize = 0;
        while k < RANKS_PER_SUIT
            invariant
                k <= 13,
                cards@.map_values(|c: Card| c@) == start + suit_cards(suit).take(k as int),
            decreases 13 - k,
        {
            proof {
                lemma_rank_label_priority(k as int);
            }
            let label = rank_label_string(k);
            let ghost prev = cards@;
            match Card::new(suit, label) {
                Ok(card) => {
                    assert(card@ == suit_cards(suit)[k as int]);
                    cards.push(card);
                    assert(cards@.map_values(|c: Card| c@) =~= prev.map_values(|c: Card| c@).push(
                        card@,
                    ));
                },
                Err(_) => {
                    assert(false);
                },
            }
            assert(cards@.map_values(|c: Card| c@) =~= start + suit_cards(suit).take(k + 1));
            k += 1;
        }
        assert(suit_cards(suit).take(13) =~= suit_cards(suit));
    }

    /// Number of cards left.
    pub fn total_len(&self) -> (r: usize)
        ensures
            r == self@.len(),
    {
        self.cards.len()
    }

    /// The cards left, in the order they will be dealt.
    pub fn cards(&self) -> (r: &Vec<Card>)
        ensures
            r@.map_values(|c: Card| c@) == self@,
    {
        &self.cards
    }

    /// The card the next deal hands out, if any.
    pub fn peek(&self) -> (r: Option<&Card>)
        ensures
            self@.len() == 0 <==> r is None,
            r is Some ==> r->Some_0@ == self@[0],
    {
        if self.cards.len() == 0 {
            None
        } else {
            Some(&self.cards[0])
        }
    }

    /// The index-swap shuffle with given draws: for each position `i` in turn,
    /// the cards at `i` and `picks[i]` change places.
    pub fn shuffle_with(&mut self, picks: &Vec<usize>)
        requires
            valid_picks(picks@, old(self)@.len()),
        ensures
            final(self)@ == shuffle_steps(old(self)@, picks@, old(self)@.len()),
            final(self)@.to_multiset() == old(self)@.to_multiset(),
            final(self)@.len() == old(self)@.len(),
    {
        let n = self.cards.len();
        let mut i: usize = 0;
        while i < n
            invariant
                n == old(self)@.len(),
                self.cards.len() == n,
                i <= n,
                valid_picks(picks@, n as nat),
                self@ == shuffle_steps(old(self)@, picks@, i as nat),
                self@.to_multiset() == old(self)@.to_multiset(),
            decreases n - i,
        {
            let r = picks[i];
            let ghost before = self@;
            swap_positions(&mut self.cards, i, r);
            proof {
                lemma_swap_keeps_multiset(before, i as int, r as int);
            }
            assert(self@ =~= swap_seq(before, i as int, r as int));
            i += 1;
        }
    }

    /// Shuffles the deck: every card stays, in an order drawn at random, each
    /// position `i` exchanged with one drawn uniformly from `[i, n)`.
    pub fn shuffle(&mut self)
        ensures
            exists|picks: Seq<usize>|
                #[trigger] valid_picks(picks, old(self)@.len()) && final(self)@ == shuffle_steps(
                    old(self)@,
                    picks,
                    old(self)@.len(),
                ),
            final(self)@.to_multiset() == old(self)@.to_multiset(),
            final(self)@.len() == old(self)@.len(),
    {
        let n = self.cards.len();
        let mut picks: Vec<usize> = Vec::new();
        let mut i: usize = 0;
        while i < n
            invariant
                i <= n,
                picks@.len() == i,
                forall|k: int| 0 <= k < i ==> k <= #[trigger] picks@[k] < n,
            decreases n - i,
        {
            picks.push(random_index(i, n));
            i += 1;
        }
        assert(valid_picks(picks@, old(self)@.len()));
        self.shuffle_with(&picks);
    }

    /// Removes and returns the first card left; the others keep their order.
    pub fn distribute(&mut self) -> (r: Result<Card, GameError>)
        ensures
            deal_step(old(self)@) is None <==> r is Err,
            deal_step(old(self)@) is None ==> r == Err::<Card, GameError>(GameError::EmptyDeck)
                && final(self)@ == old(self)@,
            r is Ok ==> deal_step(old(self)@) == Some((r->Ok_0@, final(self)@)),
    {
        if self.cards.len() == 0 {
            Err(GameError::EmptyDeck)
        } else {
            let card = self.cards.remove(0);
            assert(self@ =~= old(self)@.drop_first());
            Ok(card)
        }
    }
}

} // verus!
