use vstd::prelude::*;
use crate::game::{Color, GameResult, Reason};
use crate::schedule::GameAssignment;

verus! {

/// The running score of a match between engine 0 and engine 1.
#[derive(Clone, Copy, Debug, PartialEq, Eq, Structural)]
pub struct Tally {
    pub first_wins: u64,
    pub second_wins: u64,
    pub draws: u64,
    /// Games that neither engine could start.
    pub voids: u64,
}

/// The engine (0 or 1) that won a game, if one did.
pub open spec fn winning_engine(a: GameAssignment, r: GameResult) -> Option<usize> {
    match r.winner {
        Some(Color::White) => Some(a.white_engine),
        Some(Color::Black) => Some(a.black_engine),
        None => None,
    }
}

impl Tally {
    pub open spec fn games(&self) -> int {
        self.first_wins + self.second_wins + self.draws + self.voids
    }

    pub fn new() -> (r: Tally)
        ensures
            r == (Tally { first_wins: 0, second_wins: 0, draws: 0, voids: 0 }),
    {
        Tally { first_wins: 0, second_wins: 0, draws: 0, voids: 0 }
    }

    /// Adds the result of a game played under assignment `a`, crediting the
    /// engine that held the winning colour.
    pub fn record(&mut self, a: GameAssignment, r: GameResult)
        requires
            old(self).games() < u64::MAX,
            a.white_engine <= 1,
            a.black_engine <= 1,
        ensures
            final(self).games() == old(self).games() + 1,
            final(self).first_wins == old(self).first_wins + (if winning_engine(a, r) == Some(
                0usize,
            ) {
                1int
            } else {
                0
            }),
            final(self).second_wins == old(self).second_wins + (if winning_engine(a, r) == Some(
                1usize,
            ) {
                1int
            } else {
                0
            }),
            final(self).draws == old(self).draws + (if r.winner is None && r.reason
                != Reason::StartupFailure {
                1int
            } else {
                0
            }),
            final(self).voids == old(self).voids + (if r.winner is None && r.reason
                == Reason::StartupFailure {
                1int
            } else {
                0
            }),
    {
        let engine = match r.winner {
            Some(Color::White) => Some(a.white_engine),
            Some(Color::Black) => Some(a.black_engine),
            None => None,
        };
        match engine {
            Some(e) => if e == 0 {
                self.first_wins = self.first_wins + 1;
            } else {
                self.second_wins = self.second_wins + 1;
            },
            None => match r.reason {
                Reason::StartupFailure => {
                    self.voids = self.voids + 1;
                },
                _ => {
                    self.draws = self.draws + 1;
                },
            },
        }
    }
}

} // verus!
