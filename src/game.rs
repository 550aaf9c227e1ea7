use vstd::prelude::*;
use vstd::multiset::Multiset;
use vstd::string::*;

use crate::card::{Card, CardView, Suit, TRUMP_SUIT};
use crate::deck::{full_deck, lemma_full_deck_complete, Deck, DECK_LEN};
use crate::error::GameError;
use crate::player::{hand_view, is_eligible, lists_positions, Player, PlayerView};

verus! {

/// A player's bid: the number of tricks they declare they will take.
#[derive(Clone, Copy, PartialEq, Eq, Debug, Structural)]
pub enum Call {
    Two(u8),
    Three(u8),
    Four(u8),
    Five(u8),
    Six(u8),
    Seven(u8),
    Eight(u8),
}

/// The call table: the bids 2 to 8, and nothing else.
pub open spec fn call_of(value: int) -> Option<Call> {
    if value == 2 {
        Some(Call::Two(2))
    } else if value == 3 {
        Some(Call::Three(3))
    } else if value == 4 {
        Some(Call::Four(4))
    } else if value == 5 {
        Some(Call::Five(5))
    } else if value == 6 {
        Some(Call::Six(6))
    } else if value == 7 {
        Some(Call::Seven(7))
    } else if value == 8 {
        Some(Call::Eight(8))
    } else {
        None
    }
}

/// Looks a bid up in the call table.
pub fn call_for(value: u8) -> (r: Option<Call>)
    ensures
        r == call_of(value as int),
{
    match value {
        2 => Some(Call::Two(2)),
        3 => Some(Call::Three(3)),
        4 => Some(Call::Four(4)),
        5 => Some(Call::Five(5)),
        6 => Some(Call::Six(6)),
        7 => Some(Call::Seven(7)),
        8 => Some(Call::Eight(8)),
        _ => None,
    }
}

/// A play of a trick as values: who played which card.
pub struct PlayView {
    pub player: Seq<char>,
    pub card: CardView,
}

/// A participant as values: the player, and the suit, priority and rank of their card.
pub struct ParticipantView {
    pub player: Seq<char>,
    pub suit: Suit,
    pub priority: int,
    pub rank: Seq<char>,
}

/// The participant that a play makes.
pub open spec fn participant_of(p: PlayView) -> ParticipantView {
    ParticipantView {
        player: p.player,
        suit: p.card.suit,
        priority: p.card.priority(),
        rank: p.card.rank,
    }
}

/// Whether `card` takes the lead of a trick from the current winner `best`,
/// where `lead_suit` was led. Checked in this order: a card of the winner's
/// rank never takes it; a trump takes it from a non-trump, and from a trump
/// of lower priority; a non-trump never takes it from a trump; otherwise the
/// card must follow the lead suit and have higher priority.
pub open spec fn beats(card: CardView, best: ParticipantView, lead_suit: Suit) -> bool {
    if card.rank == best.rank {
        false
    } else if card.suit == TRUMP_SUIT {
        best.suit != TRUMP_SUIT || card.priority() > best.priority
    } else if best.suit == TRUMP_SUIT {
        false
    } else {
        card.suit == lead_suit && card.priority() > best.priority
    }
}

/// The position of the winning play among the first `n` plays: the first play
/// leads, and each later play takes over when it beats the winner so far.
pub open spec fn winner_index(plays: Seq<PlayView>, n: nat) -> int
    decreases n,
{
    if n <= 1 {
        0
    } else {
        let w = winner_index(plays, (n - 1) as nat);
        if beats(plays[n - 1].card, participant_of(plays[w]), plays[0].card.suit) {
            n - 1
        } else {
            w
        }
    }
}

/// The position of the play that wins the trick so far.
pub open spec fn trick_winner(plays: Seq<PlayView>) -> int {
    winner_index(plays, plays.len())
}

pub proof fn lemma_winner_index_in_range(plays: Seq<PlayView>, n: nat)
    requires
        1 <= n,
    ensures
        0 <= winner_index(plays, n) < n,
    decreases n,
{
    if n > 1 {
        lemma_winner_index_in_range(plays, (n - 1) as nat);
    }
}

/// The state of one play of a trick: who played, and the suit, priority and
/// rank of the card.
pub struct Participant {
    player: String,
    suit: Suit,
    priority: i32,
    value: String,
}

impl View for Participant {
    type V = ParticipantView;

    closed spec fn view(&self) -> ParticipantView {
        ParticipantView {
            player: self.player@,
            suit: self.suit,
            priority: self.priority as int,
            rank: self.value@,
        }
    }
}

impl Participant {
    pub fn new(player_name: &str, suit: Suit, priority: i32, value: String) -> (r: Participant)
        ensures
            r@ == (ParticipantView {
                player: player_name@,
                suit: suit,
                priority: priority as int,
                rank: value@,
            }),
    {
        Participant { player: String::from_str(player_name), suit, priority, value }
    }

    /// The participant made by `player` playing `card`.
    fn of_play(player: &String, card: &Card) -> (r: Participant)
        ensures
            r@ == participant_of(PlayView { player: player@, card: card@ }),
    {
        Participant {
            player: player.clone(),
            suit: card.get_suit(),
            priority: card.get_priority(),
            value: String::from_str(card.get_value()),
        }
    }

    fn duplicate(&self) -> (r: Participant)
        ensures
            r@ == self@,
    {
        Participant {
            player: self.player.clone(),
            suit: self.suit,
            priority: self.priority,
            value: self.value.clone(),
        }
    }

    pub fn get_player(&self) -> (r: &str)
        ensures
            r@ == self@.player,
    {
        self.player.as_str()
    }

    pub fn get_suit(&self) -> (r: Suit)
        ensures
            r == self@.suit,
    {
        self.suit
    }

    pub fn get_priority(&self) -> (r: i32)
        ensures
            r == self@.priority,
    {
        self.priority
    }

    pub fn get_value(&self) -> (r: &str)
        ensures
            r@ == self@.rank,
    {
        self.value.as_str()
    }
}

/// Decides whether `card` takes the lead of the trick from `best` (see `beats`).
pub fn beats_winner(card: &Card, best: &Participant, lead_suit: Suit) -> (r: bool)
    ensures
        r == beats(card@, best@, lead_suit),
{
    if card.rank_is(&best.value) {
        false
    } else if card.get_suit() == TRUMP_SUIT {
        best.suit != TRUMP_SUIT || card.get_priority() > best.priority
    } else if best.suit == TRUMP_SUIT {
        false
    } else {
        card.get_suit() == lead_suit && card.get_priority() > best.priority
    }
}

/// One card played into a trick.
struct Play {
    player: String,
    card: Card,
}

impl View for Play {
    type V = PlayView;

    closed spec fn view(&self) -> PlayView {
        PlayView { player: self.player@, card: self.card@ }
    }
}

/// The round being played: its plays in order, the play that led it and the
/// play that wins it so far.
pub struct Trick {
    rounds: Vec<Play>,
    winner: Participant,
    lead_thrower: Participant,
}

impl View for Trick {
    type V = Seq<PlayView>;

    closed spec fn view(&self) -> Seq<PlayView> {
        self.rounds@.map_values(|p: Play| p@)
    }
}

impl Trick {
    /// Lead and winner agree with the plays.
    pub closed spec fn wf(&self) -> bool {
        self@.len() > 0 ==> {
            &&& self.lead_thrower@ == participant_of(self@[0])
            &&& self.winner@ == participant_of(self@[trick_winner(self@)])
        }
    }

    /// A trick with no play yet.
    pub fn new() -> (r: Trick)
        ensures
            r.wf(),
            r@.len() == 0,
    {
        let t = Trick {
            rounds: Vec::new(),
            winner: Participant {
                player: String::new(),
                suit: TRUMP_SUIT,
                priority: 0,
                value: String::new(),
            },
            lead_thrower: Participant {
                player: String::new(),
                suit: TRUMP_SUIT,
                priority: 0,
                value: String::new(),
            },
        };
        assert(t@ =~= Seq::empty());
        t
    }

    /// Number of plays so far.
    pub fn len(&self) -> (r: usize)
        ensures
            r == self@.len(),
    {
        self.rounds.len()
    }

    /// The play that led the trick, once there is one.
    pub fn lead(&self) -> (r: Option<&Participant>)
        requires
            self.wf(),
        ensures
            self@.len() == 0 <==> r is None,
            r is Some ==> r->Some_0@ == participant_of(self@[0]),
    {
        if self.rounds.len() == 0 {
            None
        } else {
            Some(&self.lead_thrower)
        }
    }

    /// The play that wins the trick so far, once there is one.
    pub fn winner(&self) -> (r: Option<&Participant>)
        requires
            self.wf(),
        ensures
            self@.len() == 0 <==> r is None,
            r is Some ==> r->Some_0@ == participant_of(self@[trick_winner(self@)]),
    {
        if self.rounds.len() == 0 {
            None
        } else {
            Some(&self.winner)
        }
    }

    /// Records `player` playing `card`. The first play both leads and wins;
    /// a later one takes over as winner when it beats the winner so far.
    pub fn play(&mut self, player: &str, card: Card)
        requires
            old(self).wf(),
        ensures
            final(self).wf(),
            final(self)@ == old(self)@.push(PlayView { player: player@, card: card@ }),
    {
        let name = String::from_str(player);
        let part = Participant::of_play(&name, &card);
        let ghost old_plays = self@;
        let ghost new_play = PlayView { player: player@, card: card@ };
        if self.rounds.len() == 0 {
            self.lead_thrower = part.duplicate();
            self.winner = part;
        } else if beats_winner(&card, &self.winner, self.lead_thrower.suit) {
            self.winner = part;
        }
        self.rounds.push(Play { player: name, card });
        proof {
            let plays = old_plays.push(new_play);
            assert(self@ =~= plays);
            assert(plays[0] == if old_plays.len() == 0 { new_play } else { old_plays[0] });
            if old_plays.len() > 0 {
                lemma_winner_index_in_range(old_plays, old_plays.len());
                assert(plays.drop_last() =~= old_plays);
                lemma_winner_prefix(plays, old_plays.len());
            }
        }
    }
}

/// The winner among the first `n` plays does not depend on a play after them.
proof fn lemma_winner_prefix(plays: Seq<PlayView>, n: nat)
    requires
        1 <= n < plays.len(),
    ensures
        winner_index(plays, n) == winner_index(plays.drop_last(), n),
{
    lemma_winner_prefix_eq(plays, plays.drop_last(), (n - 1) as nat);
}

/// Two sequences that agree on their first `n + 1` plays agree on the winner
/// among the first `n + 1`.
proof fn lemma_winner_prefix_eq(a: Seq<PlayView>, b: Seq<PlayView>, n: nat)
    requires
        n + 1 <= a.len(),
        n + 1 <= b.len(),
        forall|i: int| 0 <= i <= n ==> a[i] == b[i],
    ensures
        winner_index(a, n + 1) == winner_index(b, n + 1),
        winner_index(a, n) == winner_index(b, n),
    decreases n,
{
    if n >= 1 {
        lemma_winner_prefix_eq(a, b, (n - 1) as nat);
        lemma_winner_index_in_range(a, n);
    }
}

/// A match as values.
pub struct GameView {
    pub deck: Seq<CardView>,
    pub players: Seq<PlayerView>,
    pub plays: Seq<PlayView>,
    pub total_rounds: nat,
    pub round_no: nat,
}

/// No two players share a name.
pub open spec fn names_unique(players: Seq<PlayerView>) -> bool {
    forall|i: int, j: int|
        0 <= i < players.len() && 0 <= j < players.len() && i != j ==> #[trigger] players[i].name
            != #[trigger] players[j].name
}

/// Player `i` is called `name`.
pub open spec fn seat_of(players: Seq<PlayerView>, name: Seq<char>, i: int) -> bool {
    0 <= i < players.len() && players[i].name == name
}

pub open spec fn has_player(players: Seq<PlayerView>, name: Seq<char>) -> bool {
    exists|i: int| #[trigger] seat_of(players, name, i)
}

/// The position of the player called `name` (meaningful when there is one).
pub open spec fn seat_named(players: Seq<PlayerView>, name: Seq<char>) -> int {
    choose|i: int| #[trigger] seat_of(players, name, i)
}

/// The positions of the players called `name`.
pub open spec fn seats_named(players: Seq<PlayerView>, name: Seq<char>) -> Set<int> {
    Set::new(|i: int| seat_of(players, name, i))
}

/// What adding a player does: a name already taken is refused first, then a
/// bid outside the call table; otherwise the player joins at the end.
pub open spec fn add_player_outcome(g: GameView, name: Seq<char>, pin: u16, call: int) -> (
    Result<(), GameError>,
    GameView,
) {
    if has_player(g.players, name) {
        (Err(GameError::DuplicateName), g)
    } else {
        match call_of(call) {
            None => (Err(GameError::InvalidCall), g),
            Some(c) => (
                Ok(()),
                GameView {
                    players: g.players.push(
                        PlayerView { name: name, pin: pin, hand: Seq::empty(), call: c, points: 0 },
                    ),
                    ..g
                },
            ),
        }
    }
}

/// A hand after the card at `k` is thrown: the last card takes its place.
pub open spec fn hand_after_throw(hand: Seq<CardView>, k: int) -> Seq<CardView> {
    hand.update(k, hand.last()).drop_last()
}

/// One more, stopping at 255.
pub open spec fn saturating_inc(n: nat) -> nat {
    if n < 255 {
        n + 1
    } else {
        255
    }
}

/// The players after the one called `name` is given a point.
pub open spec fn award_point(players: Seq<PlayerView>, name: Seq<char>) -> Seq<PlayerView> {
    players.map_values(
        |p: PlayerView|
            if p.name == name {
                PlayerView { points: saturating_inc(p.points), ..p }
            } else {
                p
            },
    )
}

/// A trick is complete once every player has played into it; it stays so
/// until `clear_round` empties it.
pub open spec fn round_complete(g: GameView) -> bool {
    g.plays.len() > 0 && g.plays.len() >= g.players.len()
}

/// Everyone who played into the trick is seated at the table.
pub open spec fn plays_seated(players: Seq<PlayerView>, plays: Seq<PlayView>) -> bool {
    forall|k: int| 0 <= k < plays.len() ==> has_player(players, #[trigger] plays[k].player)
}

/// What a throw into a trick that is not complete does. An unknown name is
/// refused, then a position outside the player's hand. Otherwise the card
/// leaves the hand and is played into the trick. When the trick becomes
/// complete, its winner gets a point and the round count goes up.
pub open spec fn throw_outcome(g: GameView, name: Seq<char>, k: int) -> Result<
    (CardView, GameView),
    GameError,
> {
    if !has_player(g.players, name) {
        Err(GameError::UnknownPlayer)
    } else {
        let i = seat_named(g.players, name);
        let p = g.players[i];
        if !(0 <= k < p.hand.len()) {
            Err(GameError::IndexOutOfRange)
        } else {
            let card = p.hand[k];
            let players = g.players.update(i, PlayerView { hand: hand_after_throw(p.hand, k), ..p });
            let plays = g.plays.push(PlayView { player: name, card: card });
            if plays.len() == g.players.len() {
                Ok(
                    (
                        card,
                        GameView {
                            players: award_point(players, plays[trick_winner(plays)].player),
                            plays: plays,
                            round_no: saturating_inc(g.round_no),
                            ..g
                        },
                    ),
                )
            } else {
                Ok((card, GameView { players: players, plays: plays, ..g }))
            }
        }
    }
}

/// The players after `cards` are dealt one at a time, the first to player
/// `next`, the following ones to each next player in turn.
pub open spec fn deal_round_robin(players: Seq<PlayerView>, cards: Seq<CardView>, next: int) -> Seq<
    PlayerView,
>
    decreases cards.len(),
{
    if cards.len() == 0 || players.len() == 0 {
        players
    } else {
        let p = players[next];
        deal_round_robin(
            players.update(next, PlayerView { hand: p.hand.push(cards[0]), ..p }),
            cards.drop_first(),
            (next + 1) % (players.len() as int),
        )
    }
}

/// How many of the positions `0..m` are `r` more than a multiple of `n`:
/// the number of cards that seat `r` receives when `m` cards are dealt
/// round-robin among `n` seats, starting with seat 0.
pub open spec fn dealt_count(m: int, r: int, n: int) -> int {
    if m > r {
        (m - 1 - r) / n + 1
    } else {
        0
    }
}

/// Seat `p`'s place in the order of dealing among `n` seats that starts at seat `next`.
pub open spec fn deal_offset(p: int, next: int, n: int) -> int {
    if p >= next {
        p - next
    } else {
        p - next + n
    }
}

proof fn lemma_dealt_count_step(m: int, r: int, n: int)
    requires
        m >= 1,
        0 <= r < n,
    ensures
        dealt_count(m, r, n) == if r == 0 {
            1 + dealt_count(m - 1, n - 1, n)
        } else {
            dealt_count(m - 1, r - 1, n)
        },
{
    if r == 0 {
        if m > n {
            vstd::arithmetic::div_mod::lemma_div_plus_one(m - 1 - n, n);
        } else {
            vstd::arithmetic::div_mod::lemma_basic_div(m - 1, n);
        }
    }
}

/// Dealing `cards` round-robin from seat `next` gives each seat as many cards
/// as `dealt_count` says, counting from `next`.
pub proof fn lemma_deal_sizes(players: Seq<PlayerView>, cards: Seq<CardView>, next: int)
    requires
        0 <= next < players.len(),
    ensures
        deal_round_robin(players, cards, next).len() == players.len(),
        forall|p: int|
            0 <= p < players.len() ==> #[trigger] deal_round_robin(players, cards, next)[p].hand.len()
                == players[p].hand.len() + dealt_count(
                cards.len() as int,
                deal_offset(p, next, players.len() as int),
                players.len() as int,
            ),
    decreases cards.len(),
{
    if cards.len() > 0 {
        let n = players.len() as int;
        let q = players[next];
        let dealt = players.update(next, PlayerView { hand: q.hand.push(cards[0]), ..q });
        let nx = (next + 1) % n;
        assert(nx == if next + 1 == n {
            0
        } else {
            next + 1
        }) by {
            if next + 1 == n {
                vstd::arithmetic::div_mod::lemma_mod_self_0(n);
            } else {
                vstd::arithmetic::div_mod::lemma_small_mod((next + 1) as nat, n as nat);
            }
        }
        lemma_deal_sizes(dealt, cards.drop_first(), nx);
        assert forall|p: int| 0 <= p < n implies #[trigger] deal_round_robin(
            players,
            cards,
            next,
        )[p].hand.len() == players[p].hand.len() + dealt_count(
            cards.len() as int,
            deal_offset(p, next, n),
            n,
        ) by {
            lemma_dealt_count_step(cards.len() as int, deal_offset(p, next, n), n);
            assert(deal_round_robin(players, cards, next)[p] == deal_round_robin(
                dealt,
                cards.drop_first(),
                nx,
            )[p]);
        }
    }
}

/// The suit the current trick was led with, if it has a play.
pub open spec fn next_lead(g: GameView) -> Option<Suit> {
    if g.plays.len() == 0 {
        None
    } else {
        Some(g.plays[0].card.suit)
    }
}

/// Whether player `i` may throw the card at position `j` next.
pub open spec fn may_throw(g: GameView, i: int, j: int) -> bool {
    match next_lead(g) {
        None => 0 <= j < g.players[i].hand.len(),
        Some(s) => is_eligible(g.players[i].hand, s, j),
    }
}

proof fn lemma_unique_seat(players: Seq<PlayerView>, name: Seq<char>, i: int)
    requires
        names_unique(players),
        seat_of(players, name, i),
    ensures
        seat_named(players, name) == i,
        seats_named(players, name) == set![i],
        seats_named(players, name).len() == 1,
{
    let j = seat_named(players, name);
    assert(seat_of(players, name, j));
    assert(seats_named(players, name) =~= set![i]);
}

proof fn lemma_add_keeps_names_unique(g: GameView, name: Seq<char>, pin: u16, call: int)
    requires
        names_unique(g.players),
    ensures
        names_unique(add_player_outcome(g, name, pin, call).1.players),
{
    let ps = add_player_outcome(g, name, pin, call).1.players;
    if !has_player(g.players, name) && call_of(call) is Some {
        assert forall|i: int, j: int|
            0 <= i < ps.len() && 0 <= j < ps.len() && i != j implies #[trigger] ps[i].name
            != #[trigger] ps[j].name by {
            if i == g.players.len() as int {
                assert(!seat_of(g.players, name, j));
            } else if j == g.players.len() as int {
                assert(!seat_of(g.players, name, i));
            }
        }
    }
}

/// Adding a player twice under one name leaves exactly one player of that
/// name, unless neither bid is in the call table and the name was free. When
/// the first call seats the player (or the name was taken already), the
/// second is refused as a duplicate.
pub proof fn lemma_add_same_name_twice(
    g: GameView,
    name: Seq<char>,
    pin1: u16,
    call1: int,
    pin2: u16,
    call2: int,
)
    requires
        names_unique(g.players),
        call_of(call1) is Some || call_of(call2) is Some || has_player(g.players, name),
    ensures
        seats_named(
            add_player_outcome(add_player_outcome(g, name, pin1, call1).1, name, pin2, call2).1.players,
            name,
        ).len() == 1,
        call_of(call1) is Some || has_player(g.players, name) ==> add_player_outcome(
            add_player_outcome(g, name, pin1, call1).1,
            name,
            pin2,
            call2,
        ).0 == Err::<(), GameError>(GameError::DuplicateName),
{
    let g1 = add_player_outcome(g, name, pin1, call1).1;
    let g2 = add_player_outcome(g1, name, pin2, call2).1;
    lemma_add_keeps_names_unique(g, name, pin1, call1);
    lemma_add_keeps_names_unique(g1, name, pin2, call2);
    if has_player(g.players, name) {
        let i = choose|i: int| #[trigger] seat_of(g.players, name, i);
        lemma_unique_seat(g2.players, name, i);
    } else if call_of(call1) is Some {
        let i = g.players.len() as int;
        assert(seat_of(g1.players, name, i));
        lemma_unique_seat(g2.players, name, i);
    } else {
        let i = g.players.len() as int;
        assert(g1 == g);
        assert(seat_of(g2.players, name, i));
        lemma_unique_seat(g2.players, name, i);
    }
}

/// Renaming nobody keeps everyone who played seated.
proof fn lemma_seated_same_names(a: Seq<PlayerView>, b: Seq<PlayerView>, plays: Seq<PlayView>)
    requires
        a.len() == b.len(),
        forall|i: int| 0 <= i < a.len() ==> #[trigger] a[i].name == b[i].name,
        plays_seated(a, plays),
    ensures
        plays_seated(b, plays),
{
    assert forall|k: int| 0 <= k < plays.len() implies has_player(b, #[trigger] plays[k].player) by {
        let i = choose|i: int| #[trigger] seat_of(a, plays[k].player, i);
        assert(a[i].name == b[i].name);
        assert(seat_of(b, plays[k].player, i));
    }
}

/// Seating one more player keeps everyone who played seated.
proof fn lemma_seated_grow(players: Seq<PlayerView>, p: PlayerView, plays: Seq<PlayView>)
    requires
        plays_seated(players, plays),
    ensures
        plays_seated(players.push(p), plays),
{
    assert forall|k: int| 0 <= k < plays.len() implies has_player(
        players.push(p),
        #[trigger] plays[k].player,
    ) by {
        let i = choose|i: int| #[trigger] seat_of(players, plays[k].player, i);
        assert(seat_of(players.push(p), plays[k].player, i));
    }
}

/// A new play by a seated player keeps everyone who played seated.
proof fn lemma_seated_push(players: Seq<PlayerView>, plays: Seq<PlayView>, play: PlayView, i: int)
    requires
        plays_seated(players, plays),
        seat_of(players, play.player, i),
    ensures
        plays_seated(players, plays.push(play)),
{
    assert forall|k: int| 0 <= k < plays.len() + 1 implies has_player(
        players,
        #[trigger] plays.push(play)[k].player,
    ) by {
        if k < plays.len() {
            assert(plays.push(play)[k] == plays[k]);
        } else {
            assert(seat_of(players, play.player, i));
        }
    }
}

/// Every card of the hands, counted together.
pub open spec fn hands_multiset(players: Seq<PlayerView>) -> Multiset<CardView>
    decreases players.len(),
{
    if players.len() == 0 {
        Multiset::empty()
    } else {
        hands_multiset(players.drop_last()).add(players.last().hand.to_multiset())
    }
}

/// The cards played into the trick, counted together.
pub open spec fn plays_multiset(plays: Seq<PlayView>) -> Multiset<CardView> {
    plays.map_values(|p: PlayView| p.card).to_multiset()
}

/// Every card on the table: in the deck, in a hand, or in the trick.
pub open spec fn table_cards(g: GameView) -> Multiset<CardView> {
    g.deck.to_multiset().add(hands_multiset(g.players)).add(plays_multiset(g.plays))
}

/// The table holds cards of the full deck only, none more often than there.
pub open spec fn cards_conserved(g: GameView) -> bool {
    table_cards(g).subset_of(full_deck().to_multiset())
}

proof fn lemma_hands_push(players: Seq<PlayerView>, p: PlayerView)
    ensures
        hands_multiset(players.push(p)) == hands_multiset(players).add(p.hand.to_multiset()),
{
    assert(players.push(p).drop_last() =~= players);
}

/// Replacing player `i` swaps their hand's cards for the new player's.
proof fn lemma_hands_update(players: Seq<PlayerView>, i: int, p: PlayerView)
    requires
        0 <= i < players.len(),
    ensures
        hands_multiset(players.update(i, p)).add(players[i].hand.to_multiset()) == hands_multiset(
            players,
        ).add(p.hand.to_multiset()),
    decreases players.len(),
{
    broadcast use vstd::multiset::group_multiset_axioms;

    let u = players.update(i, p);
    let pd = players.drop_last();
    let ud = u.drop_last();
    assert(hands_multiset(u) == hands_multiset(ud).add(u.last().hand.to_multiset()));
    assert(hands_multiset(players) == hands_multiset(pd).add(players.last().hand.to_multiset()));
    if i == players.len() - 1 {
        assert(ud =~= pd);
        assert(u.last() == p);
    } else {
        assert(ud =~= pd.update(i, p));
        lemma_hands_update(pd, i, p);
        assert(u.last() == players.last());
        assert(pd[i] == players[i]);
    }
    let hi = players[i].hand.to_multiset();
    let hp = p.hand.to_multiset();
    assert forall|v: CardView| #[trigger] hands_multiset(u).add(hi).count(v) == hands_multiset(
        players,
    ).add(hp).count(v) by {
        if i == players.len() - 1 {
            assert(hands_multiset(ud) == hands_multiset(pd));
        } else {
            assert(hands_multiset(ud) == hands_multiset(pd.update(i, p)));
            assert(hands_multiset(pd.update(i, p)).add(pd[i].hand.to_multiset()).count(v)
                == hands_multiset(pd).add(hp).count(v));
        }
    }
    assert(hands_multiset(u).add(hi) =~= hands_multiset(players).add(hp));
}

/// Players holding the same hands hold the same cards.
proof fn lemma_hands_same(a: Seq<PlayerView>, b: Seq<PlayerView>)
    requires
        a.len() == b.len(),
        forall|i: int| 0 <= i < a.len() ==> #[trigger] a[i].hand == b[i].hand,
    ensures
        hands_multiset(a) == hands_multiset(b),
    decreases a.len(),
{
    if a.len() > 0 {
        lemma_hands_same(a.drop_last(), b.drop_last());
        assert(a.last().hand == b.last().hand);
    }
}

proof fn lemma_plays_push(plays: Seq<PlayView>, p: PlayView)
    ensures
        plays_multiset(plays.push(p)) == plays_multiset(plays).insert(p.card),
{
    broadcast use vstd::seq_lib::group_to_multiset_ensures;

    assert(plays.push(p).map_values(|q: PlayView| q.card) =~= plays.map_values(
        |q: PlayView| q.card,
    ).push(p.card));
}

proof fn lemma_empty_multisets()
    ensures
        hands_multiset(Seq::empty()) == Multiset::<CardView>::empty(),
        plays_multiset(Seq::empty()) == Multiset::<CardView>::empty(),
        Seq::<CardView>::empty().to_multiset() == Multiset::<CardView>::empty(),
{
    broadcast use {vstd::seq_lib::group_to_multiset_ensures, vstd::multiset::group_multiset_axioms};

    assert(Seq::<CardView>::empty().to_multiset().len() == 0);
    assert(Seq::<CardView>::empty().to_multiset() =~= Multiset::empty());

    let m = Seq::<PlayView>::empty().map_values(|q: PlayView| q.card);
    assert(m =~= Seq::empty());
    assert(m.to_multiset().len() == 0);
    assert(m.to_multiset() =~= Multiset::empty());
}

/// Dealing the deck's first card to player `i` keeps the cards of deck and
/// hands together.
proof fn lemma_deal_moves_card(deck: Seq<CardView>, players: Seq<PlayerView>, i: int)
    requires
        deck.len() > 0,
        0 <= i < players.len(),
    ensures
        ({
            let p = players[i];
            let dealt = players.update(i, PlayerView { hand: p.hand.push(deck[0]), ..p });
            deck.drop_first().to_multiset().add(hands_multiset(dealt)) == deck.to_multiset().add(
                hands_multiset(players),
            )
        }),
{
    broadcast use {vstd::seq_lib::group_to_multiset_ensures, vstd::multiset::group_multiset_axioms};

    let c = deck[0];
    let rest = deck.drop_first();
    let p = players[i];
    let dealt = players.update(i, PlayerView { hand: p.hand.push(c), ..p });
    assert(deck =~= seq![c] + rest);
    vstd::seq_lib::lemma_seq_union_to_multiset_commutative(seq![c], rest);
    assert(rest + seq![c] =~= rest.push(c));
    assert(deck.to_multiset() == rest.to_multiset().insert(c));
    lemma_hands_update(players, i, PlayerView { hand: p.hand.push(c), ..p });
    assert(hands_multiset(dealt).add(p.hand.to_multiset()) == hands_multiset(players).add(
        p.hand.to_multiset().insert(c),
    ));
    assert forall|v: CardView| #[trigger] hands_multiset(dealt).count(v) == hands_multiset(
        players,
    ).insert(c).count(v) by {
        assert(hands_multiset(dealt).add(p.hand.to_multiset()).count(v) == hands_multiset(
            players,
        ).add(p.hand.to_multiset().insert(c)).count(v));
    }
    assert(hands_multiset(dealt) =~= hands_multiset(players).insert(c));
    assert(rest.to_multiset().add(hands_multiset(dealt)) =~= deck.to_multiset().add(
        hands_multiset(players),
    ));
}

/// Moving a card from player `i`'s hand into the trick keeps the table within
/// the full deck.
proof fn lemma_throw_conserves(
    g: GameView,
    i: int,
    hand: Seq<CardView>,
    play: PlayView,
)
    requires
        cards_conserved(g),
        0 <= i < g.players.len(),
        hand.to_multiset().insert(play.card) == g.players[i].hand.to_multiset(),
    ensures
        cards_conserved(
            GameView {
                players: g.players.update(i, PlayerView { hand: hand, ..g.players[i] }),
                plays: g.plays.push(play),
                ..g
            },
        ),
{
    broadcast use vstd::multiset::group_multiset_axioms;

    let p = g.players[i];
    let players = g.players.update(i, PlayerView { hand: hand, ..p });
    let g2 = GameView { players: players, plays: g.plays.push(play), ..g };
    lemma_hands_update(g.players, i, PlayerView { hand: hand, ..p });
    assert forall|v: CardView| #[trigger] hands_multiset(players).insert(play.card).count(v)
        == hands_multiset(g.players).count(v) by {
        assert(hands_multiset(players).add(p.hand.to_multiset()).count(v) == hands_multiset(
            g.players,
        ).add(hand.to_multiset()).count(v));
        assert(p.hand.to_multiset().count(v) == hand.to_multiset().insert(play.card).count(v));
    }
    assert(hands_multiset(players).insert(play.card) =~= hands_multiset(g.players));
    lemma_plays_push(g.plays, play);
    assert forall|v: CardView| table_cards(g2).count(v) <= full_deck().to_multiset().count(v) by {
        assert(table_cards(g).count(v) <= full_deck().to_multiset().count(v));
    }
}

/// What every well-formed match satisfies: no two players share a name, the
/// trick holds at most one play per player, and everyone who played into it
/// is seated.
pub proof fn lemma_game_wf(g: &Game)
    requires
        g.wf(),
    ensures
        names_unique(g@.players),
        g@.plays.len() <= g@.players.len(),
        plays_seated(g@.players, g@.plays),
{
}

/// In a well-formed match a name that is taken belongs to exactly one player.
/// So after `add_players(name, ..)` returns `Ok` or `DuplicateName`, exactly
/// one player is called `name`, however often it was added.
pub proof fn lemma_one_seat_per_name(g: &Game, name: Seq<char>)
    requires
        g.wf(),
        has_player(g@.players, name),
    ensures
        seats_named(g@.players, name).len() == 1,
        seats_named(g@.players, name) == set![seat_named(g@.players, name)],
{
    let i = choose|i: int| #[trigger] seat_of(g@.players, name, i);
    lemma_unique_seat(g@.players, name, i);
}

/// Giving a point to a seated player among players with distinct names
/// changes that player's points alone.
pub proof fn lemma_award_point_one_player(players: Seq<PlayerView>, name: Seq<char>)
    requires
        names_unique(players),
        has_player(players, name),
    ensures
        ({
            let i = seat_named(players, name);
            let after = award_point(players, name);
            &&& after.len() == players.len()
            &&& after[i] == PlayerView { points: saturating_inc(players[i].points), ..players[i] }
            &&& forall|j: int| 0 <= j < players.len() && j != i ==> after[j] == players[j]
        }),
{
    let i = choose|i: int| #[trigger] seat_of(players, name, i);
    lemma_unique_seat(players, name, i);
    assert forall|j: int| 0 <= j < players.len() && j != i implies award_point(players, name)[j]
        == players[j] by {
        assert(players[j].name != players[i].name);
    }
}

/// No card lies twice on the table: across the deck, the hands and the trick,
/// each (suit, rank) pair occurs at most once.
pub proof fn lemma_table_cards_distinct(g: &Game)
    requires
        g.wf(),
    ensures
        forall|c: CardView| #[trigger] table_cards(g@).count(c) <= 1,
{
    broadcast use vstd::seq_lib::group_to_multiset_ensures;

    lemma_full_deck_complete();
    full_deck().lemma_multiset_has_no_duplicates();
    assert forall|c: CardView| #[trigger] table_cards(g@).count(c) <= 1 by {
        assert(table_cards(g@).count(c) <= full_deck().to_multiset().count(c));
    }
}

/// The positions `0..n`, in order.
fn all_positions(n: usize) -> (r: Vec<usize>)
    ensures
        lists_positions(r@, n as nat, |j: int| 0 <= j < n),
{
    let mut out: Vec<usize> = Vec::new();
    let mut i: usize = 0;
    while i < n
        invariant
            i <= n,
            out@.len() == i,
            forall|k: int| 0 <= k < i ==> out@[k] == k,
        decreases n - i,
    {
        out.push(i);
        i += 1;
    }
    assert forall|j: usize| j < n implies #[trigger] out@.contains(j) by {
        assert(out@[j as int] == j);
    }
    out
}

/// A match: the deck, the players in seating order, the trick being played,
/// and the count of rounds.
pub struct Game {
    deck: Deck,
    players: Vec<Player>,
    current_round: Trick,
    total_rounds_count: u8,
    current_round_no: u8,
}

impl View for Game {
    type V = GameView;

    closed spec fn view(&self) -> GameView {
        GameView {
            deck: self.deck@,
            players: self.players@.map_values(|p: Player| p@),
            plays: self.current_round@,
            total_rounds: self.total_rounds_count as nat,
            round_no: self.current_round_no as nat,
        }
    }
}

impl Game {
    /// Player names are unique, the trick's lead and winner agree with its
    /// plays, a trick never holds more plays than there are players, everyone
    /// who played into it is seated, and the table holds each card of the
    /// full deck at most once.
    pub closed spec fn wf(&self) -> bool {
        &&& names_unique(self@.players)
        &&& self.current_round.wf()
        &&& self.current_round@.len() <= self.players@.len()
        &&& plays_seated(self@.players, self@.plays)
        &&& cards_conserved(self@)
    }

    /// A match with a full deck, no players and no play.
    pub fn new_game() -> (r: Game)
        ensures
            r.wf(),
            r@ == (GameView {
                deck: full_deck(),
                players: Seq::empty(),
                plays: Seq::empty(),
                total_rounds: 0,
                round_no: 0,
            }),
    {
        let g = Game {
            deck: Deck::new(),
            players: Vec::new(),
            current_round: Trick::new(),
            total_rounds_count: 0,
            current_round_no: 0,
        };
        assert(g@.players =~= Seq::empty());
        assert(g@.plays =~= Seq::empty());
        proof {
            lemma_empty_multisets();
            assert(table_cards(g@) =~= full_deck().to_multiset()) by {
                broadcast use vstd::multiset::group_multiset_axioms;

            }
        }
        g
    }

    /// The position of the player called `player_name`.
    fn get_player_index(&self, player_name: &String) -> (r: Option<usize>)
        ensures
            r is None <==> !has_player(self@.players, player_name@),
            r is Some ==> seat_of(self@.players, player_name@, r->Some_0 as int),
    {
        let mut i: usize = 0;
        while i < self.players.len()
            invariant
                i <= self.players@.len(),
                forall|j: int| 0 <= j < i ==> !#[trigger] seat_of(self@.players, player_name@, j),
            decreases self.players.len() - i,
        {
            if self.players[i].is_named(player_name) {
                assert(seat_of(self@.players, player_name@, i as int));
                return Some(i);
            }
            i += 1;
        }
        None
    }

    /// Seats a new player, refusing a name already taken and a bid outside
    /// the call table.
    pub fn add_players(&mut self, name: &str, pin: &u16, call: u8) -> (r: Result<(), GameError>)
        requires
            old(self).wf(),
        ensures
            final(self).wf(),
            (r, final(self)@) == add_player_outcome(old(self)@, name@, *pin, call as int),
    {
        let key = String::from_str(name);
        if self.get_player_index(&key).is_some() {
            return Err(GameError::DuplicateName);
        }
        let player_call = match call_for(call) {
            None => {
                return Err(GameError::InvalidCall);
            },
            Some(c) => c,
        };
        let new_player = Player::new(name, pin, player_call);
        self.players.push(new_player);
        proof {
            lemma_add_keeps_names_unique(old(self)@, name@, *pin, call as int);
            let newp = PlayerView {
                name: name@,
                pin: *pin,
                hand: Seq::empty(),
                call: player_call,
                points: 0,
            };
            assert(self@.players =~= old(self)@.players.push(newp));
            lemma_seated_grow(old(self)@.players, newp, old(self)@.plays);
            lemma_hands_push(old(self)@.players, newp);
            lemma_empty_multisets();
            assert(hands_multiset(self@.players) =~= hands_multiset(old(self)@.players)) by {
                broadcast use vstd::multiset::group_multiset_axioms;

            }
            assert(table_cards(self@) == table_cards(old(self)@));
        }
        assert(self@.players =~= add_player_outcome(old(self)@, name@, *pin, call as int).1.players);
        Ok(())
    }

    /// Shuffles the deck once, then deals it out card by card, round-robin
    /// from the first player, until it is empty; sets the number of rounds to
    /// 52 divided by the number of players.
    pub fn start(&mut self) -> (r: Result<(), GameError>)
        requires
            old(self).wf(),
        ensures
            final(self).wf(),
            old(self)@.players.len() < 2 ==> r == Err::<(), GameError>(
                GameError::InsufficientPlayers,
            ) && final(self)@ == old(self)@,
            old(self)@.players.len() >= 2 ==> {
                &&& r is Ok
                &&& final(self)@.deck.len() == 0
                &&& final(self)@.plays == old(self)@.plays
                &&& final(self)@.round_no == old(self)@.round_no
                &&& final(self)@.total_rounds == 52nat / old(self)@.players.len()
                &&& table_cards(final(self)@) == table_cards(old(self)@)
                &&& forall|p: int|
                    0 <= p < old(self)@.players.len() ==> #[trigger] final(self)@.players[p].hand.len()
                        == old(self)@.players[p].hand.len() + dealt_count(
                        old(self)@.deck.len() as int,
                        p,
                        old(self)@.players.len() as int,
                    )
                &&& exists|d: Seq<CardView>|
                    #[trigger] d.to_multiset() == old(self)@.deck.to_multiset()
                        && final(self)@.players == deal_round_robin(old(self)@.players, d, 0)
            },
    {
        let n = self.players.len();
        if n < 2 {
            return Err(GameError::InsufficientPlayers);
        }
        self.deck.shuffle();
        let ghost shuffled = self.deck@;
        let ghost players0 = self@.players;
        let mut i: usize = 0;
        while self.deck.total_len() > 0
            invariant
                n == self.players@.len(),
                n >= 2,
                i < n,
                names_unique(self@.players),
                deal_round_robin(self@.players, self@.deck, i as int) == deal_round_robin(
                    players0,
                    shuffled,
                    0,
                ),
                self@.plays == old(self)@.plays,
                self@.round_no == old(self)@.round_no,
                self.current_round.wf(),
                self.current_round@.len() <= n,
                self@.deck.to_multiset().add(hands_multiset(self@.players)) == shuffled.to_multiset().add(
                    hands_multiset(players0),
                ),
                players0.len() == n,
                forall|a: int| 0 <= a < n ==> #[trigger] players0[a].name == self@.players[a].name,
            decreases self@.deck.len(),
        {
            let ghost before = self@;
            match self.deck.distribute() {
                Ok(card) => {
                    self.players[i].add_card(card);
                },
                Err(_) => {},
            }
            let next: usize = if i + 1 >= n {
                0
            } else {
                i + 1
            };
            proof {
                let p = before.players[i as int];
                assert(self@.players =~= before.players.update(
                    i as int,
                    PlayerView { hand: p.hand.push(before.deck[0]), ..p },
                ));
                lemma_deal_moves_card(before.deck, before.players, i as int);
                assert(self@.deck == before.deck.drop_first());
                assert(next as int == (i as int + 1) % (n as int)) by {
                    if i + 1 >= n {
                        vstd::arithmetic::div_mod::lemma_mod_self_0(n as int);
                    } else {
                        vstd::arithmetic::div_mod::lemma_small_mod((i + 1) as nat, n as nat);
                    }
                }
                assert forall|a: int, b: int|
                    0 <= a < n && 0 <= b < n && a != b implies #[trigger] self@.players[a].name
                    != #[trigger] self@.players[b].name by {
                    assert(self@.players[a].name == before.players[a].name);
                    assert(self@.players[b].name == before.players[b].name);
                }
                assert forall|a: int| 0 <= a < n implies #[trigger] players0[a].name
                    == self@.players[a].name by {
                    assert(self@.players[a].name == before.players[a].name);
                }
            }
            i = next;
        }
        let rounds: usize = DECK_LEN / n;
        assert(rounds <= 26) by (nonlinear_arith)
            requires
                n >= 2,
                rounds == 52int / (n as int),
        ;
        self.total_rounds_count = rounds as u8;
        assert(self@.players == deal_round_robin(players0, shuffled, 0));
        assert(table_cards(self@) == table_cards(old(self)@));
        proof {
            lemma_seated_same_names(players0, self@.players, self@.plays);
            lemma_deal_sizes(players0, shuffled, 0);
            assert(shuffled.len() == old(self)@.deck.len());
        }
        Ok(())
    }

    /// Plays the card at `card_idx` of the hand of the player called
    /// `player_name` into the trick (see `throw_outcome`), and returns it.
    /// A complete trick must be emptied with `clear_round` first.
    pub fn throw(&mut self, player_name: &str, card_idx: usize) -> (r: Result<Card, GameError>)
        requires
            old(self).wf(),
            !round_complete(old(self)@),
        ensures
            final(self).wf(),
            throw_outcome(old(self)@, player_name@, card_idx as int) is Err ==> {
                &&& r is Err
                &&& r->Err_0 == throw_outcome(old(self)@, player_name@, card_idx as int)->Err_0
                &&& final(self)@ == old(self)@
            },
            throw_outcome(old(self)@, player_name@, card_idx as int) is Ok ==> {
                &&& r is Ok
                &&& (r->Ok_0@, final(self)@) == throw_outcome(
                    old(self)@,
                    player_name@,
                    card_idx as int,
                )->Ok_0
            },
    {
        let name = String::from_str(player_name);
        let player_idx = match self.get_player_index(&name) {
            None => {
                return Err(GameError::UnknownPlayer);
            },
            Some(i) => i,
        };
        proof {
            lemma_unique_seat(self@.players, name@, player_idx as int);
        }
        let ghost g0 = self@;
        let throwable_card = match self.players[player_idx].throw(card_idx) {
            Err(e) => {
                assert(self@.players =~= g0.players);
                return Err(e);
            },
            Ok(c) => c,
        };
        let ghost card_view = throwable_card@;
        let ghost g1 = self@;
        assert(g1.players =~= g0.players.update(
            player_idx as int,
            PlayerView {
                hand: hand_after_throw(g0.players[player_idx as int].hand, card_idx as int),
                ..g0.players[player_idx as int]
            },
        ));
        assert forall|a: int, b: int|
            0 <= a < g1.players.len() && 0 <= b < g1.players.len() && a != b implies
            #[trigger] g1.players[a].name != #[trigger] g1.players[b].name by {
            assert(g1.players[a].name == g0.players[a].name);
            assert(g1.players[b].name == g0.players[b].name);
        }
        proof {
            assert forall|a: int| 0 <= a < g0.players.len() implies #[trigger] g0.players[a].name
                == g1.players[a].name by {
                assert(g1.players[a].name == g0.players[a].name);
            }
            lemma_seated_same_names(g0.players, g1.players, g0.plays);
            assert(seat_of(g1.players, player_name@, player_idx as int));
            lemma_seated_push(
                g1.players,
                g0.plays,
                PlayView { player: player_name@, card: throwable_card@ },
                player_idx as int,
            );
        }
        let ghost base = self@.plays;
        let result = throwable_card.duplicate();
        self.current_round.play(player_name, throwable_card);
        let ghost plays = base.push(PlayView { player: player_name@, card: card_view });
        assert(self@.plays == plays);
        assert(self@.players == g1.players);
        proof {
            let new_hand = hand_after_throw(g0.players[player_idx as int].hand, card_idx as int);
            assert(g1.players[player_idx as int].hand == new_hand);
            assert(new_hand.to_multiset().insert(card_view) == g0.players[
                player_idx as int
            ].hand.to_multiset());
            lemma_throw_conserves(
                g0,
                player_idx as int,
                new_hand,
                PlayView { player: player_name@, card: card_view },
            );
            assert(self@ == GameView {
                players: g0.players.update(
                    player_idx as int,
                    PlayerView { hand: new_hand, ..g0.players[player_idx as int] },
                ),
                plays: plays,
                ..g0
            });
        }
        let ghost g2 = self@;
        if self.current_round.len() == self.players.len() {
            self.add_points_to_winner();
            self.current_round_no = self.current_round_no.saturating_add(1);
        }
        assert(self@.players.len() == g0.players.len());
        proof {
            lemma_hands_same(self@.players, g2.players);
            assert(table_cards(self@) == table_cards(g2));
            assert forall|a: int| 0 <= a < g2.players.len() implies #[trigger] g2.players[a].name
                == self@.players[a].name by {
                assert(self@.players[a].name == g1.players[a].name);
            }
            lemma_seated_same_names(g2.players, self@.players, self@.plays);
        }
        assert forall|a: int, b: int|
            0 <= a < self@.players.len() && 0 <= b < self@.players.len() && a != b implies
            #[trigger] self@.players[a].name != #[trigger] self@.players[b].name by {
            assert(self@.players[a].name == g1.players[a].name);
            assert(self@.players[b].name == g1.players[b].name);
        }
        Ok(result)
    }

    /// Gives one point to the player who wins the (complete) trick.
    fn add_points_to_winner(&mut self)
        requires
            old(self).wf(),
            old(self)@.plays.len() > 0,
        ensures
            final(self)@ == (GameView {
                players: award_point(old(self)@.players, old(self)@.plays[trick_winner(old(self)@.plays)].player),
                ..old(self)@
            }),
            final(self).current_round == old(self).current_round,
            final(self).players@.len() == old(self).players@.len(),
    {
        let ghost g = self@;
        proof {
            lemma_winner_index_in_range(g.plays, g.plays.len());
        }
        let ghost wname = g.plays[trick_winner(g.plays)].player;
        let winner_name = match self.current_round.winner() {
            Some(w) => String::from_str(w.get_player()),
            None => String::new(),
        };
        assert(winner_name@ == wname);
        match self.get_player_index(&winner_name) {
            Some(i) => {
                self.players[i].add_points(1);
                assert forall|j: int| 0 <= j < g.players.len() && j != i implies g.players[j].name
                    != wname by {
                    assert(g.players[j].name != g.players[i as int].name);
                }
                assert(self@.players =~= award_point(g.players, wname));
            },
            None => {
                assert forall|j: int| 0 <= j < g.players.len() implies g.players[j].name
                    != wname by {
                    assert(!seat_of(g.players, wname, j));
                }
                assert(self@.players =~= award_point(g.players, wname));
            },
        }
    }

    /// Whether every player has played into the current trick; the next
    /// throw then waits for `clear_round`.
    pub fn is_round_complete(&self) -> (r: bool)
        ensures
            r == round_complete(self@),
    {
        self.current_round.len() > 0 && self.current_round.len() >= self.players.len()
    }

    /// Empties the trick, ready for the next round.
    pub fn clear_round(&mut self)
        requires
            old(self).wf(),
        ensures
            final(self).wf(),
            final(self)@ == (GameView { plays: Seq::empty(), ..old(self)@ }),
    {
        self.current_round = Trick::new();
        assert(self@.plays =~= Seq::empty());
        proof {
            broadcast use vstd::multiset::group_multiset_axioms;

            lemma_empty_multisets();
            assert forall|v: CardView|
                table_cards(self@).count(v) <= full_deck().to_multiset().count(v) by {
                assert(table_cards(old(self)@).count(v) <= full_deck().to_multiset().count(v));
            }
        }
    }

    /// The trick being played.
    pub fn get_current_round(&self) -> (r: &Trick)
        requires
            self.wf(),
        ensures
            r@ == self@.plays,
            r.wf(),
    {
        &self.current_round
    }

    /// The play that wins the current trick so far, once there is one.
    pub fn get_round_winner(&self) -> (r: Option<&Participant>)
        requires
            self.wf(),
        ensures
            self@.plays.len() == 0 <==> r is None,
            r is Some ==> r->Some_0@ == participant_of(self@.plays[trick_winner(self@.plays)]),
    {
        self.current_round.winner()
    }

    /// The positions of the cards that the player called `name` may throw
    /// next (see `may_throw`).
    pub fn get_player_eligible_cards(&self, name: &str) -> (r: Result<Vec<usize>, GameError>)
        requires
            self.wf(),
        ensures
            !has_player(self@.players, name@) <==> r is Err,
            r is Err ==> r == Err::<Vec<usize>, GameError>(GameError::UnknownPlayer),
            r is Ok ==> lists_positions(
                r->Ok_0@,
                self@.players[seat_named(self@.players, name@)].hand.len(),
                |j: int| may_throw(self@, seat_named(self@.players, name@), j),
            ),
    {
        let key = String::from_str(name);
        let idx = match self.get_player_index(&key) {
            None => {
                return Err(GameError::UnknownPlayer);
            },
            Some(i) => i,
        };
        proof {
            lemma_unique_seat(self@.players, name@, idx as int);
        }
        let ghost hand = self@.players[idx as int].hand;
        let len = self.current_round.len();
        if len == 0 {
            let out = all_positions(self.players[idx].hand_len());
            assert((|j: int| may_throw(self@, idx as int, j)) =~= (|j: int|
                0 <= j < hand.len()));
            Ok(out)
        } else {
            let lead_suit = match self.current_round.lead() {
                Some(p) => p.get_suit(),
                None => Suit::Spade,
            };
            let out = self.players[idx].eligible_indices(lead_suit);
            assert((|j: int| may_throw(self@, idx as int, j)) =~= (|j: int|
                is_eligible(hand, lead_suit, j)));
            Ok(out)
        }
    }

    /// The hand of the player called `player_name`, to whoever knows their pin.
    pub fn reveal_hand(&self, player_name: &str, pin: &u16) -> (r: Result<&Vec<Card>, GameError>)
        requires
            self.wf(),
        ensures
            !has_player(self@.players, player_name@) ==> r == Err::<&Vec<Card>, GameError>(
                GameError::UnknownPlayer,
            ),
            has_player(self@.players, player_name@) ==> {
                let p = self@.players[seat_named(self@.players, player_name@)];
                &&& (*pin == p.pin <==> r is Ok)
                &&& *pin != p.pin ==> r == Err::<&Vec<Card>, GameError>(GameError::IncorrectPin)
                &&& r is Ok ==> hand_view(r->Ok_0@) == p.hand
            },
    {
        let key = String::from_str(player_name);
        match self.get_player_index(&key) {
            None => Err(GameError::UnknownPlayer),
            Some(i) => {
                proof {
                    lemma_unique_seat(self@.players, player_name@, i as int);
                }
                self.players[i].reveal_hand(pin)
            },
        }
    }

    /// The player called `name`, if any.
    pub fn get_player(&self, name: &str) -> (r: Option<&Player>)
        requires
            self.wf(),
        ensures
            !has_player(self@.players, name@) <==> r is None,
            r is Some ==> r->Some_0@ == self@.players[seat_named(self@.players, name@)],
    {
        let key = String::from_str(name);
        match self.get_player_index(&key) {
            None => None,
            Some(i) => {
                proof {
                    lemma_unique_seat(self@.players, name@, i as int);
                }
                Some(&self.players[i])
            },
        }
    }

    /// Number of players seated.
    pub fn player_count(&self) -> (r: usize)
        ensures
            r == self@.players.len(),
    {
        self.players.len()
    }

    /// Number of cards not dealt yet.
    pub fn deck_len(&self) -> (r: usize)
        ensures
            r == self@.deck.len(),
    {
        self.deck.total_len()
    }

    /// Number of rounds completed.
    pub fn get_round_no(&self) -> (r: u8)
        ensures
            r == self@.round_no,
    {
        self.current_round_no
    }

    /// Number of rounds in the match, set when it starts.
    pub fn get_total_rounds(&self) -> (r: u8)
        ensures
            r == self@.total_rounds,
    {
        self.total_rounds_count
    }

    /// Whether the match has started and all its rounds have been played.
    pub fn is_match_over(&self) -> (r: bool)
        ensures
            r == (self@.total_rounds > 0 && self@.round_no >= self@.total_rounds),
    {
        self.total_rounds_count > 0 && self.current_round_no >= self.total_rounds_count
    }
}

} // verus!
