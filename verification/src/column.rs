use vstd::prelude::*;

verus! {

/// Number of rows of the board.
pub const BOARD_HEIGHT: usize = 6;

/// Number of columns of the board.
pub const BOARD_WIDTH: usize = 7;

/// A column of the board, `A` the leftmost.
#[derive(Debug, Clone, Copy, PartialEq, Eq, Hash, Structural)]
pub enum Column {
    A,
    B,
    C,
    D,
    E,
    F,
    G,
}

impl Column {
    /// The column's position, counted from 0 at `A`.
    pub open spec fn index(self) -> int {
        match self {
            Column::A => 0,
            Column::B => 1,
            Column::C => 2,
            Column::D => 3,
            Column::E => 4,
            Column::F => 5,
            Column::G => 6,
        }
    }

    /// The column at position `i`, if the board has one.
    pub open spec fn at(i: int) -> Option<Column> {
        if i == 0 {
            Some(Column::A)
        } else if i == 1 {
            Some(Column::B)
        } else if i == 2 {
            Some(Column::C)
        } else if i == 3 {
            Some(Column::D)
        } else if i == 4 {
            Some(Column::E)
        } else if i == 5 {
            Some(Column::F)
        } else if i == 6 {
            Some(Column::G)
        } else {
            None
        }
    }

    /// Every column, in ascending order.
    pub open spec fn all_columns() -> Seq<Column> {
        seq![Column::A, Column::B, Column::C, Column::D, Column::E, Column::F, Column::G]
    }

    pub fn to_idx(self) -> (r: usize)
        ensures
            r == self.index(),
            r < BOARD_WIDTH,
    {
        match self {
            Column::A => 0,
            Column::B => 1,
            Column::C => 2,
            Column::D => 3,
            Column::E => 4,
            Column::F => 5,
            Column::G => 6,
        }
    }

    /// The column at position `idx`, or `None` where `idx` is off the board.
    pub fn from_idx(idx: u8) -> (r: Option<Column>)
        ensures
            r == Column::at(idx as int),
    {
        match idx {
            0 => Some(Column::A),
            1 => Some(Column::B),
            2 => Some(Column::C),
            3 => Some(Column::D),
            4 => Some(Column::E),
            5 => Some(Column::F),
            6 => Some(Column::G),
            _ => None,
        }
    }

    /// The column `offset` places to the right (to the left where `offset` is
    /// negative), or `None` where that leaves the board.
    pub fn offset(self, offset: i8) -> (r: Option<Column>)
        ensures
            r == Column::at(self.index() + offset),
    {
        let v: i16 = self.to_idx() as i16 + offset as i16;
        if v < 0 {
            None
        } else {
            Column::from_idx(v as u8)
        }
    }

    /// Every column, in ascending order.
    pub fn all() -> (r: [Column; 7])
        ensures
            r@ == Column::all_columns(),
    {
        let r: [Column; 7] = [
            Column::A,
            Column::B,
            Column::C,
            Column::D,
            Column::E,
            Column::F,
            Column::G,
        ];
        assert(r@ =~= Column::all_columns());
        r
    }

    /// The letter that names this column.
    pub fn letter(self) -> (r: char)
        ensures
            r == Column::all_letters()[self.index()],
    {
        match self {
            Column::A => 'A',
            Column::B => 'B',
            Column::C => 'C',
            Column::D => 'D',
            Column::E => 'E',
            Column::F => 'F',
            Column::G => 'G',
        }
    }

    /// The letters of the columns, in ascending order.
    pub open spec fn all_letters() -> Seq<char> {
        seq!['A', 'B', 'C', 'D', 'E', 'F', 'G']
    }

    /// Position and column determine each other: `at` undoes `index`, every
    /// position on the board has its column, and the columns come in
    /// ascending order of position.
    pub proof fn lemma_index_at(self, i: int)
        ensures
            0 <= self.index() < BOARD_WIDTH,
            Column::at(self.index()) == Some(self),
            Column::at(i) is Some <==> 0 <= i < BOARD_WIDTH,
            Column::at(i) is Some ==> Column::at(i).unwrap().index() == i,
            Column::all_columns().len() == BOARD_WIDTH,
            Column::all_columns()[self.index()] == self,
    {
    }
}

/// The row `offset` places above `row` (below where `offset` is negative), or
/// `None` where that leaves the board.
pub fn row_offset(row: u8, offset: i8) -> (r: Option<u8>)
    ensures
        r == (if 0 <= row + offset < BOARD_HEIGHT {
            Some((row + offset) as u8)
        } else {
            None
        }),
{
    let v: i16 = row as i16 + offset as i16;
    let h: i16 = BOARD_HEIGHT as i16;
    if v < 0 || v >= h {
        None
    } else {
        Some(v as u8)
    }
}

} // verus!
