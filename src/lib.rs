//! Rules engine for a four-suit trick-taking card game in the "Call Break" style:
//! cards and their ranks, a 52-card deck with a fair shuffle, players' hands and
//! bids, trick resolution under a trump suit, and scoring.

pub mod card;
pub mod deck;
pub mod error;
pub mod game;
pub mod player;
pub mod players;
pub mod screen;
