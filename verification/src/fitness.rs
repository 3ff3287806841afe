use vstd::prelude::*;
use std::cmp::Ordering;
use crate::colour::{Colour, Winner};

verus! {

/// What a position is worth to one player. The order is `Loss < Tie < Win`.
#[derive(Debug, Clone, Copy, PartialEq, Eq, Ord, Hash, Structural)]
pub enum Fitness {
    Loss,
    Tie,
    Win,
}

impl Fitness {
    /// The place of this value in the order, from 0 for a loss.
    pub open spec fn rank(self) -> int {
        match self {
            Fitness::Loss => 0,
            Fitness::Tie => 1,
            Fitness::Win => 2,
        }
    }

    /// What the outcome `winner` is worth to `player`: a win or a loss where
    /// a colour has won, a tie where nobody has, or nobody has yet.
    pub open spec fn of_outcome(winner: Option<Winner>, player: Colour) -> Fitness {
        match winner {
            Some(Winner::Red) => if player == Colour::Red {
                Fitness::Win
            } else {
                Fitness::Loss
            },
            Some(Winner::Yellow) => if player == Colour::Yellow {
                Fitness::Win
            } else {
                Fitness::Loss
            },
            _ => Fitness::Tie,
        }
    }

    fn level(self) -> (r: u8)
        ensures
            r == self.rank(),
    {
        match self {
            Fitness::Loss => 0,
            Fitness::Tie => 1,
            Fitness::Win => 2,
        }
    }

    /// What the outcome `winner` is worth to `player`.
    pub fn from_outcome(winner: Option<Winner>, player: Colour) -> (r: Fitness)
        ensures
            r == Fitness::of_outcome(winner, player),
    {
        let won = match winner {
            Some(w) => w.to_colour(),
            None => None,
        };
        match won {
            None => Fitness::Tie,
            Some(c) => if c == player {
                Fitness::Win
            } else {
                Fitness::Loss
            },
        }
    }
}

impl PartialOrd for Fitness {
    fn partial_cmp(&self, other: &Fitness) -> (r: Option<Ordering>) {
        let a: u8 = self.level();
        let b: u8 = other.level();
        if a < b {
            Some(Ordering::Less)
        } else if a == b {
            Some(Ordering::Equal)
        } else {
            Some(Ordering::Greater)
        }
    }
}

impl vstd::std_specs::cmp::PartialOrdSpecImpl for Fitness {
    open spec fn obeys_partial_cmp_spec() -> bool {
        true
    }

    open spec fn partial_cmp_spec(&self, other: &Fitness) -> Option<Ordering> {
        if self.rank() < other.rank() {
            Some(Ordering::Less)
        } else if self.rank() == other.rank() {
            Some(Ordering::Equal)
        } else {
            Some(Ordering::Greater)
        }
    }
}

} // verus!
