use vstd::prelude::*;

verus! {

/// The ways an operation of the engine can be refused. Every one of them leaves
/// the state as it was.
#[derive(Clone, Copy, PartialEq, Eq, Debug, Structural)]
pub enum GameError {
    /// A card was asked for with a rank label outside "2".."10", "J", "Q", "K", "A".
    InvalidRank,
    /// A player of that name already sits at the table.
    DuplicateName,
    /// A bid outside the call table (2 to 8).
    InvalidCall,
    /// A match cannot start with fewer than two players.
    InsufficientPlayers,
    /// No card stands at that position of the hand.
    IndexOutOfRange,
    /// A card was asked of an empty deck.
    EmptyDeck,
    /// The pin given does not match the player's.
    IncorrectPin,
    /// No player of that name sits at the table.
    UnknownPlayer,
}

} // verus!
