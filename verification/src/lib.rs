//! A commit-reveal Rock-Paper-Scissors game engine.
//!
//! Players commit to a hidden move (a Blake2-256 digest of the move byte plus
//! a salt), wait for a betting window to close, then reveal the move. The
//! engine verifies each reveal against its commitment, advances every game
//! whose deadline has arrived on a periodic tick, and splits the shared stake
//! pool among the winners, refunding everyone on a draw.

pub mod assoc;
pub mod game;
pub mod hashing;
pub mod laws;
pub mod pallet;
pub mod settlement;
pub mod state;

pub use game::{Game, GameStage, Hand, Move};
pub use hashing::Digest;
pub use pallet::{Config, Error, Event, Pallet};
