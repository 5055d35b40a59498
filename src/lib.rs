use vstd::prelude::*;

pub mod game;
pub mod grid;
pub mod parse;

verus! {

/// The owner of a cell: a positive player number.
pub type Player = u8;

/// How a match ended, or why its record was rejected.
#[derive(PartialEq, Eq, Structural, Clone, Copy, Debug)]
pub enum Outcome {
    Draw,
    PlayerWin(Player),
    Incomplete,
    IllegalContinue,
    IllegalRow,
    IllegalColumn,
    IllegalGame,
    InvalidFile,
    FileNotFound,
}

impl Outcome {
    /// The number that reports this outcome: 0 for a draw, the winner's
    /// number for a win, 3 to 9 for the others in the order declared.
    pub open spec fn code(self) -> u8 {
        match self {
            Outcome::Draw => 0,
            Outcome::PlayerWin(player) => player,
            Outcome::Incomplete => 3,
            Outcome::IllegalContinue => 4,
            Outcome::IllegalRow => 5,
            Outcome::IllegalColumn => 6,
            Outcome::IllegalGame => 7,
            Outcome::InvalidFile => 8,
            Outcome::FileNotFound => 9,
        }
    }

    /// The number that reports this outcome.
    pub fn as_u8(&self) -> (r: &u8)
        ensures
            *r == self.code(),
    {
        match self {
            Outcome::Draw => &0,
            Outcome::PlayerWin(player) => player,
            Outcome::Incomplete => &3,
            Outcome::IllegalContinue => &4,
            Outcome::IllegalRow => &5,
            Outcome::IllegalColumn => &6,
            Outcome::IllegalGame => &7,
            Outcome::InvalidFile => &8,
            Outcome::FileNotFound => &9,
        }
    }
}

} // verus!
