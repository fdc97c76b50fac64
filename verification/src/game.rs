//! One match's record: its stage machine, the three-way hand value with its
//! cyclic dominance relation, and a single player's committed move.

use vstd::prelude::*;

use crate::hashing::Digest;

verus! {

/// The three-way rock/paper/scissors value.
#[derive(Clone, Copy, PartialEq, Eq, Structural, Debug)]
pub enum Hand {
    Rock,
    Paper,
    Scissors,
}

/// The byte codes of the three hands, as they appear as the leading byte of a
/// reveal payload.
pub open spec fn spec_hand_of_byte(value: u8) -> Option<Hand> {
    if value == 0 {
        Some(Hand::Rock)
    } else if value == 1 {
        Some(Hand::Paper)
    } else if value == 2 {
        Some(Hand::Scissors)
    } else {
        None
    }
}

/// `beats(a, b)` is true exactly on the cycle Rock > Scissors > Paper > Rock.
pub open spec fn spec_beats(a: Hand, b: Hand) -> bool {
    match (a, b) {
        (Hand::Rock, Hand::Scissors) => true,
        (Hand::Paper, Hand::Rock) => true,
        (Hand::Scissors, Hand::Paper) => true,
        _ => false,
    }
}

/// The unique hand that defeats `a`.
pub open spec fn spec_beaten_by(a: Hand) -> Hand {
    match a {
        Hand::Rock => Hand::Paper,
        Hand::Paper => Hand::Scissors,
        Hand::Scissors => Hand::Rock,
    }
}

impl Hand {
    /// Decode a hand from its byte code: 0 is Rock, 1 is Paper, 2 is
    /// Scissors; any other byte is not a hand.
    pub fn new(value: u8) -> (r: Option<Hand>)
        ensures
            r == spec_hand_of_byte(value),
    {
        match value {
            0 => Some(Hand::Rock),
            1 => Some(Hand::Paper),
            2 => Some(Hand::Scissors),
            _ => None,
        }
    }

    /// Whether `self` defeats `other`.
    pub fn beats(&self, other: &Hand) -> (r: bool)
        ensures
            r == spec_beats(*self, *other),
    {
        match (self, other) {
            (Hand::Rock, Hand::Scissors) => true,
            (Hand::Paper, Hand::Rock) => true,
            (Hand::Scissors, Hand::Paper) => true,
            _ => false,
        }
    }

    /// The unique hand that defeats `self`.
    pub fn beaten_by(&self) -> (r: Hand)
        ensures
            r == spec_beaten_by(*self),
    {
        match self {
            Hand::Rock => Hand::Paper,
            Hand::Paper => Hand::Scissors,
            Hand::Scissors => Hand::Rock,
        }
    }
}

/// `beaten_by` really is the inverse of `beats`: `b` defeats `a` exactly when
/// `b` is the hand `beaten_by` names for `a`.
pub proof fn lemma_beaten_by_beats(a: Hand, b: Hand)
    ensures
        spec_beats(b, a) <==> b == spec_beaten_by(a),
{
}

/// A single player's move: the commitment digest published at join time, and
/// the hand, set exactly once by a successful reveal.
#[derive(Clone, Copy, PartialEq, Eq, Structural, Debug)]
pub struct Move {
    pub hash: Digest,
    pub hand: Option<Hand>,
}

impl Move {
    /// A fresh, unrevealed move with commitment `hash`.
    pub fn new(hash: Digest) -> (r: Move)
        ensures
            r == (Move { hash, hand: None::<Hand> }),
    {
        Move { hash, hand: None }
    }

    /// Record the revealed hand: the leading byte of the payload decodes to
    /// the hand, and any payload without a valid leading byte is an error
    /// that leaves the move unchanged.
    pub fn record_reveal(&mut self, move_reveal: &Vec<u8>) -> (r: Result<(), ()>)
        ensures
            match r {
                Ok(()) => {
                    &&& move_reveal@.len() > 0
                    &&& spec_hand_of_byte(move_reveal@[0]) is Some
                    &&& *final(self) == (Move {
                        hash: old(self).hash,
                        hand: spec_hand_of_byte(move_reveal@[0]),
                    })
                },
                Err(()) => {
                    &&& move_reveal@.len() == 0 || spec_hand_of_byte(move_reveal@[0]) is None
                    &&& *final(self) == *old(self)
                },
            },
    {
        if move_reveal.len() == 0 {
            return Err(());
        }
        match Hand::new(move_reveal[0]) {
            Some(hand) => {
                self.hand = Some(hand);
                Ok(())
            },
            None => Err(()),
        }
    }
}

/// The stage a game is in, with the counter that is meaningful there: while
/// betting, how many players have committed so far; while revealing, how many
/// have not yet revealed.
#[derive(Clone, Copy, PartialEq, Eq, Structural, Debug)]
pub enum GameStage {
    Betting { participating_players: u64 },
    Revealing { anticipated_players: u64 },
}

/// One match's mutable record: when it started, how long each of its two
/// windows lasts, the stake every participant pays, and its stage.
#[derive(Clone, Copy, PartialEq, Eq, Structural, Debug)]
pub struct Game {
    pub start: u64,
    pub round_length: u64,
    pub bet: u64,
    pub stage: GameStage,
}

impl Game {
    /// A new game in the betting stage, counting its creator as the first
    /// participant.
    pub fn start(start: u64, round_length: u64, bet: u64) -> (r: Game)
        ensures
            r == (Game {
                start,
                round_length,
                bet,
                stage: GameStage::Betting { participating_players: 1u64 },
            }),
    {
        Game { start, round_length, bet, stage: GameStage::Betting { participating_players: 1 } }
    }

    /// Count one more committed player.
    pub fn join(&mut self)
        requires
            old(self).stage matches GameStage::Betting { participating_players } &&
                participating_players < u64::MAX,
        ensures
            final(self).stage == (GameStage::Betting {
                participating_players: (old(self).stage->participating_players + 1) as u64,
            }),
            final(self).start == old(self).start,
            final(self).round_length == old(self).round_length,
            final(self).bet == old(self).bet,
    {
        match self.stage {
            GameStage::Betting { participating_players } => {
                self.stage = GameStage::Betting {
                    participating_players: participating_players + 1,
                };
            },
            _ => {},
        }
    }

    /// Close the betting window: the final count of committed players becomes
    /// the count of reveals still anticipated.
    pub fn start_revealing(&mut self)
        requires
            old(self).stage is Betting,
        ensures
            final(self).stage == (GameStage::Revealing {
                anticipated_players: old(self).stage->participating_players,
            }),
            final(self).start == old(self).start,
            final(self).round_length == old(self).round_length,
            final(self).bet == old(self).bet,
    {
        match self.stage {
            GameStage::Betting { participating_players } => {
                self.stage = GameStage::Revealing { anticipated_players: participating_players };
            },
            _ => {},
        }
    }

    /// Count one outstanding reveal as arrived.
    pub fn record_reveal(&mut self)
        requires
            old(self).stage matches GameStage::Revealing { anticipated_players } &&
                anticipated_players >= 1,
        ensures
            final(self).stage == (GameStage::Revealing {
                anticipated_players: (old(self).stage->anticipated_players - 1) as u64,
            }),
            final(self).start == old(self).start,
            final(self).round_length == old(self).round_length,
            final(self).bet == old(self).bet,
    {
        match self.stage {
            GameStage::Revealing { anticipated_players } => {
                self.stage = GameStage::Revealing {
                    anticipated_players: anticipated_players - 1,
                };
            },
            _ => {},
        }
    }

    /// Whether exactly one reveal is still outstanding, the signal to end the
    /// game on the next reveal rather than decrement.
    pub fn last_revealing(&self) -> (r: bool)
        ensures
            r == (self.stage == GameStage::Revealing { anticipated_players: 1u64 }),
    {
        match self.stage {
            GameStage::Revealing { anticipated_players } => anticipated_players == 1,
            _ => false,
        }
    }
}

} // verus!
