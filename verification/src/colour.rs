use vstd::prelude::*;

verus! {

/// The colour of a piece, and of the player who owns it.
#[derive(Debug, Clone, Copy, PartialEq, Eq, Hash, Structural)]
pub enum Colour {
    Red,
    Yellow,
}

impl Colour {
    /// The opposite colour.
    pub open spec fn inverted(self) -> Colour {
        match self {
            Colour::Red => Colour::Yellow,
            Colour::Yellow => Colour::Red,
        }
    }

    /// The bit that stores this colour: set for red, clear for yellow.
    pub open spec fn bit(self) -> bool {
        self == Colour::Red
    }

    /// The colour that a stored bit stands for.
    pub open spec fn of_bit(v: bool) -> Colour {
        if v {
            Colour::Red
        } else {
            Colour::Yellow
        }
    }

    pub fn invert(self) -> (r: Colour)
        ensures
            r == self.inverted(),
    {
        match self {
            Colour::Red => Colour::Yellow,
            Colour::Yellow => Colour::Red,
        }
    }

    pub fn to_bool(self) -> (r: bool)
        ensures
            r == self.bit(),
    {
        match self {
            Colour::Red => true,
            Colour::Yellow => false,
        }
    }

    pub fn from_bool(v: bool) -> (r: Colour)
        ensures
            r == Colour::of_bit(v),
    {
        if v {
            Colour::Red
        } else {
            Colour::Yellow
        }
    }

    /// The letter that stands for this colour in a drawing of the board.
    pub fn letter(self) -> (r: char)
        ensures
            r == (if self == Colour::Red { 'R' } else { 'Y' }),
    {
        match self {
            Colour::Red => 'R',
            Colour::Yellow => 'Y',
        }
    }

    /// Inverting twice gives the colour back, and the stored bit names it.
    pub proof fn lemma_invert_and_bit(self)
        ensures
            self.inverted().inverted() == self,
            self.inverted() != self,
            Colour::of_bit(self.bit()) == self,
    {
    }
}

/// How a finished game ended.
#[derive(Debug, Clone, Copy, PartialEq, Eq, Hash, Structural)]
pub enum Winner {
    Red,
    Yellow,
    Tie,
}

impl Winner {
    /// The outcome in which `colour` has won.
    pub open spec fn of_colour(colour: Colour) -> Winner {
        match colour {
            Colour::Red => Winner::Red,
            Colour::Yellow => Winner::Yellow,
        }
    }

    /// The colour that won, if one did.
    pub open spec fn colour(self) -> Option<Colour> {
        match self {
            Winner::Red => Some(Colour::Red),
            Winner::Yellow => Some(Colour::Yellow),
            Winner::Tie => None,
        }
    }

    pub fn from_colour(colour: Colour) -> (r: Winner)
        ensures
            r == Winner::of_colour(colour),
    {
        match colour {
            Colour::Red => Winner::Red,
            Colour::Yellow => Winner::Yellow,
        }
    }

    pub fn to_colour(self) -> (r: Option<Colour>)
        ensures
            r == self.colour(),
    {
        match self {
            Winner::Red => Some(Colour::Red),
            Winner::Yellow => Some(Colour::Yellow),
            _ => None,
        }
    }
}

} // verus!
