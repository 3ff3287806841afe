use vstd::prelude::*;
use crate::bits::BITS_LEN;
use crate::colour::Colour;
use crate::column::{Column, BOARD_HEIGHT, BOARD_WIDTH};

verus! {

/// Number of cells of the board.
pub const CELLS: usize = 42;

/// What a board is, as mathematics: the height of each column, the two bit
/// patterns that say which cells hold a piece and of which colour, and the
/// direction of gravity.
///
/// The cell in column `c` and row `r` is bit `c * BOARD_HEIGHT + r` of both
/// patterns.
pub struct BoardModel {
    pub heights: Seq<int>,
    pub present: Seq<bool>,
    pub tiles: Seq<bool>,
    pub gravity_down: bool,
}

impl BoardModel {
    /// The bit that stands for the cell in column `c` and row `r`.
    pub open spec fn cell(c: int, r: int) -> int {
        c * BOARD_HEIGHT + r
    }

    pub open spec fn on_board(c: int, r: int) -> bool {
        0 <= c < BOARD_WIDTH && 0 <= r < BOARD_HEIGHT
    }

    /// Whether row `r` lies within the stack of column `c`: the stack rests
    /// on row 0 while gravity points down, and on the top row otherwise.
    pub open spec fn in_stack(self, c: int, r: int) -> bool {
        if self.gravity_down {
            r < self.heights[c]
        } else {
            r >= BOARD_HEIGHT - self.heights[c]
        }
    }

    /// The invariant of a board: no column is higher than the board, exactly
    /// the cells of each column's stack hold a piece, and no colour bit is set
    /// where no piece is.
    pub open spec fn wf(self) -> bool {
        &&& self.heights.len() == BOARD_WIDTH
        &&& self.present.len() == BITS_LEN
        &&& self.tiles.len() == BITS_LEN
        &&& forall|c: int| 0 <= c < BOARD_WIDTH ==> 0 <= #[trigger] self.heights[c] <= BOARD_HEIGHT
        &&& forall|i: int|
            0 <= i < BITS_LEN ==> #[trigger] self.present[i] == (i < CELLS && self.in_stack(
                i / 6,
                i % 6,
            ))
        &&& forall|i: int| 0 <= i < BITS_LEN ==> (#[trigger] self.tiles[i] ==> self.present[i])
    }

    /// The board before the first move.
    pub open spec fn empty() -> BoardModel {
        BoardModel {
            heights: Seq::new(BOARD_WIDTH as nat, |c: int| 0int),
            present: Seq::new(BITS_LEN as nat, |i: int| false),
            tiles: Seq::new(BITS_LEN as nat, |i: int| false),
            gravity_down: true,
        }
    }

    /// The piece in column `c` and row `r`; `None` off the board too.
    pub open spec fn piece(self, c: int, r: int) -> Option<Colour> {
        if Self::on_board(c, r) && self.present[Self::cell(c, r)] {
            Some(Colour::of_bit(self.tiles[Self::cell(c, r)]))
        } else {
            None
        }
    }

    pub open spec fn column_full(self, c: int) -> bool {
        self.heights[c] >= BOARD_HEIGHT
    }

    /// Whether every column is full.
    pub open spec fn full(self) -> bool {
        forall|c: int| 0 <= c < BOARD_WIDTH ==> #[trigger] self.column_full(c)
    }

    /// The row in which the next piece of column `c` comes to rest.
    pub open spec fn target_row(self, c: int) -> int {
        if self.gravity_down {
            self.heights[c]
        } else {
            BOARD_HEIGHT - self.heights[c] - 1
        }
    }

    /// The board after a piece of `colour` has been put into column `c`.
    pub open spec fn placed(self, c: int, colour: Colour) -> BoardModel {
        let i = Self::cell(c, self.target_row(c));
        BoardModel {
            heights: self.heights.update(c, self.heights[c] + 1),
            present: self.present.update(i, true),
            tiles: self.tiles.update(i, colour.bit()),
            gravity_down: self.gravity_down,
        }
    }

    /// Bit `i` of a pattern `bits` of this board after gravity has turned:
    /// within each column that holds a piece, the bits move by the number of
    /// free cells toward the end where the stack will now rest, and the cells
    /// they leave are cleared.
    pub open spec fn turned_bit(self, bits: Seq<bool>, i: int) -> bool {
        if 0 <= i < CELLS && self.heights[i / 6] > 0 {
            let by = BOARD_HEIGHT - self.heights[i / 6];
            if self.gravity_down {
                if i % 6 >= by {
                    bits[i - by]
                } else {
                    false
                }
            } else {
                if i % 6 + by < BOARD_HEIGHT {
                    bits[i + by]
                } else {
                    false
                }
            }
        } else {
            bits[i]
        }
    }

    /// The board after gravity has turned.
    pub open spec fn flipped(self) -> BoardModel {
        BoardModel {
            heights: self.heights,
            present: Seq::new(self.present.len(), |i: int| self.turned_bit(self.present, i)),
            tiles: Seq::new(self.tiles.len(), |i: int| self.turned_bit(self.tiles, i)),
            gravity_down: !self.gravity_down,
        }
    }

    /// The empty board is well formed and holds no piece.
    pub proof fn lemma_empty()
        ensures
            Self::empty().wf(),
            !Self::empty().full(),
            forall|c: int, r: int| Self::empty().piece(c, r) is None,
            forall|c: int| 0 <= c < BOARD_WIDTH ==> Self::empty().heights[c] == 0,
    {
        assert(!Self::empty().column_full(0));
    }

    /// Putting a piece into a column that is not full keeps the board well
    /// formed, makes that column one higher, puts the piece into the column's
    /// target row, and changes no other cell and no other height.
    pub proof fn lemma_placed(self, c: int, colour: Colour)
        requires
            self.wf(),
            0 <= c < BOARD_WIDTH,
            !self.column_full(c),
        ensures
            self.placed(c, colour).wf(),
            self.placed(c, colour).gravity_down == self.gravity_down,
            self.placed(c, colour).heights[c] == self.heights[c] + 1,
            forall|d: int|
                0 <= d < BOARD_WIDTH && d != c ==> self.placed(c, colour).heights[d]
                    == self.heights[d],
            0 <= self.target_row(c) < BOARD_HEIGHT,
            self.piece(c, self.target_row(c)) is None,
            self.placed(c, colour).piece(c, self.target_row(c)) == Some(colour),
            forall|d: int, r: int|
                !(d == c && r == self.target_row(c)) ==> self.placed(c, colour).piece(d, r)
                    == self.piece(d, r),
    {
        let p = self.placed(c, colour);
        let row = self.target_row(c);
        let i = Self::cell(c, row);
        assert(0 <= self.heights[c] < BOARD_HEIGHT);
        assert(i / 6 == c && i % 6 == row);
        assert(self.present[i] == self.in_stack(c, row));
        assert forall|j: int| 0 <= j < BITS_LEN implies #[trigger] p.present[j] == (j < CELLS
            && p.in_stack(j / 6, j % 6)) by {
            assert(self.present[j] == (j < CELLS && self.in_stack(j / 6, j % 6)));
            if j < CELLS && j != i {
                assert(0 <= self.heights[j / 6] <= BOARD_HEIGHT);
            }
        }
        assert forall|j: int| 0 <= j < BITS_LEN && #[trigger] p.tiles[j] implies p.present[j] by {
            assert(self.tiles[j] ==> self.present[j]);
        }
        assert forall|d: int| 0 <= d < BOARD_WIDTH implies 0 <= #[trigger] p.heights[d]
            <= BOARD_HEIGHT by {
            assert(0 <= self.heights[d] <= BOARD_HEIGHT);
        }
        assert forall|d: int, r: int| !(d == c && r == row) implies p.piece(d, r) == self.piece(
            d,
            r,
        ) by {
            if Self::on_board(d, r) {
                assert(Self::cell(d, r) != i);
            }
        }
        assert(colour.bit() ==> colour == Colour::Red);
    }

    /// Turning gravity keeps the board well formed and every height, and
    /// carries each column's stack, in its order, to the other end of the
    /// column.
    pub proof fn lemma_flipped(self)
        requires
            self.wf(),
        ensures
            self.flipped().wf(),
            self.flipped().heights == self.heights,
            self.flipped().gravity_down == !self.gravity_down,
            self.flipped().full() == self.full(),
            forall|c: int, r: int|
                Self::on_board(c, r) ==> #[trigger] self.flipped().piece(c, r) == self.piece(
                    c,
                    self.turned_from(c, r),
                ),
    {
        let f = self.flipped();
        assert forall|i: int| 0 <= i < BITS_LEN implies f.present[i] == self.turned_bit(
            self.present,
            i,
        ) && f.tiles[i] == self.turned_bit(self.tiles, i) by {}
        assert forall|i: int| 0 <= i < BITS_LEN implies #[trigger] f.present[i] == (i < CELLS
            && f.in_stack(i / 6, i % 6)) by {
            self.lemma_turned_source(i);
        }
        assert forall|i: int| 0 <= i < BITS_LEN && #[trigger] f.tiles[i] implies f.present[i] by {
            self.lemma_turned_source(i);
        }
        assert forall|c: int, r: int| Self::on_board(c, r) implies #[trigger] f.piece(c, r)
            == self.piece(c, self.turned_from(c, r)) by {
            let i = Self::cell(c, r);
            assert(i / 6 == c && i % 6 == r);
            assert(0 <= self.heights[c] <= BOARD_HEIGHT);
            self.lemma_turned_source(i);
            let j = Self::cell(c, self.turned_from(c, r));
            if Self::on_board(c, self.turned_from(c, r)) {
                assert(self.present[j] == (j < CELLS && self.in_stack(j / 6, j % 6)));
            }
        }
        assert(f.full() == self.full()) by {
            if self.full() {
                assert forall|c: int| 0 <= c < BOARD_WIDTH implies #[trigger] f.column_full(
                    c,
                ) by {
                    assert(self.column_full(c));
                }
            }
            if f.full() {
                assert forall|c: int| 0 <= c < BOARD_WIDTH implies #[trigger] self.column_full(
                    c,
                ) by {
                    assert(f.column_full(c));
                }
            }
        }
    }

    /// The row from which the piece in row `r` of column `c` has come when
    /// gravity turned. It lies off the board where row `r` is then empty.
    pub open spec fn turned_from(self, c: int, r: int) -> int {
        if self.heights[c] > 0 {
            if self.gravity_down {
                r - (BOARD_HEIGHT - self.heights[c])
            } else {
                r + (BOARD_HEIGHT - self.heights[c])
            }
        } else {
            r
        }
    }

    /// What bit `i` of either pattern holds after the turn, by the cell it
    /// came from.
    proof fn lemma_turned_source(self, i: int)
        requires
            self.wf(),
            0 <= i < BITS_LEN,
        ensures
            self.turned_bit(self.present, i) == (i < CELLS && self.flipped().in_stack(
                i / 6,
                i % 6,
            )),
            self.turned_bit(self.tiles, i) ==> self.turned_bit(self.present, i),
            i < CELLS && Self::on_board(i / 6, self.turned_from(i / 6, i % 6)) ==> {
                let j = Self::cell(i / 6, self.turned_from(i / 6, i % 6));
                &&& self.turned_bit(self.present, i) == self.present[j]
                &&& self.turned_bit(self.tiles, i) == self.tiles[j]
            },
            i < CELLS && !Self::on_board(i / 6, self.turned_from(i / 6, i % 6))
                ==> !self.turned_bit(self.present, i),
    {
        assert(self.present[i] == (i < CELLS && self.in_stack(i / 6, i % 6)));
        assert(self.tiles[i] ==> self.present[i]);
        if i < CELLS {
            let c = i / 6;
            let r = i % 6;
            let h = self.heights[c];
            assert(0 <= h <= BOARD_HEIGHT);
            let from = self.turned_from(c, r);
            let j = Self::cell(c, from);
            if 0 <= from < BOARD_HEIGHT {
                assert(j / 6 == c && j % 6 == from);
                assert(self.present[j] == (j < CELLS && self.in_stack(j / 6, j % 6)));
                assert(self.tiles[j] ==> self.present[j]);
            }
        }
    }

    /// Turning gravity twice gives the board back: both bit patterns, the
    /// heights and the direction of gravity.
    pub proof fn lemma_flip_twice(self)
        requires
            self.wf(),
        ensures
            self.flipped().flipped() == self,
    {
        let f = self.flipped();
        let g = f.flipped();
        self.lemma_flipped();
        assert forall|i: int| 0 <= i < BITS_LEN implies g.present[i] == self.present[i]
            && g.tiles[i] == self.tiles[i] by {
            assert(self.present[i] == (i < CELLS && self.in_stack(i / 6, i % 6)));
            assert(self.tiles[i] ==> self.present[i]);
            if i < CELLS {
                let c = i / 6;
                let r = i % 6;
                let h = self.heights[c];
                assert(0 <= h <= BOARD_HEIGHT);
                if h > 0 {
                    let by = BOARD_HEIGHT - h;
                    let k = if self.gravity_down {
                        i + by
                    } else {
                        i - by
                    };
                    if 0 <= k < CELLS && k / 6 == c {
                        assert(f.present[k] == self.turned_bit(self.present, k));
                        assert(f.tiles[k] == self.turned_bit(self.tiles, k));
                    }
                }
            }
        }
        assert(g.present =~= self.present);
        assert(g.tiles =~= self.tiles);
    }
}

/// One change of a board: a piece placed into a column, or gravity turned.
pub enum Step {
    Place(Column, Colour),
    Turn,
}

impl BoardModel {
    /// The board that `steps`, taken in turn, make of the empty board.
    pub open spec fn after(steps: Seq<Step>) -> BoardModel
        decreases steps.len(),
    {
        if steps.len() == 0 {
            Self::empty()
        } else {
            match steps.last() {
                Step::Place(column, colour) => Self::after(steps.drop_last()).placed(
                    column.index(),
                    colour,
                ),
                Step::Turn => Self::after(steps.drop_last()).flipped(),
            }
        }
    }

    /// Whether each piece of `steps` went into a column that was not full.
    pub open spec fn allowed(steps: Seq<Step>) -> bool
        decreases steps.len(),
    {
        steps.len() == 0 || (Self::allowed(steps.drop_last()) && match steps.last() {
            Step::Place(column, _) => !Self::after(steps.drop_last()).column_full(column.index()),
            Step::Turn => true,
        })
    }

    /// How many pieces `steps` placed into column `c`.
    pub open spec fn placed_into(steps: Seq<Step>, c: int) -> int
        decreases steps.len(),
    {
        if steps.len() == 0 {
            0
        } else {
            Self::placed_into(steps.drop_last(), c) + match steps.last() {
                Step::Place(column, _) => if column.index() == c {
                    1int
                } else {
                    0int
                },
                Step::Turn => 0int,
            }
        }
    }

    /// Every board that placements into columns that were not full and turns
    /// of gravity can make is well formed, and each of its columns is as high
    /// as the number of pieces placed into it, which is no more than the
    /// board's height.
    pub proof fn lemma_heights_count(steps: Seq<Step>, c: int)
        requires
            Self::allowed(steps),
            0 <= c < BOARD_WIDTH,
        ensures
            Self::after(steps).wf(),
            Self::after(steps).heights[c] == Self::placed_into(steps, c),
            Self::placed_into(steps, c) <= BOARD_HEIGHT,
        decreases steps.len(),
    {
        if steps.len() == 0 {
            Self::lemma_empty();
        } else {
            let before = Self::after(steps.drop_last());
            Self::lemma_heights_count(steps.drop_last(), c);
            match steps.last() {
                Step::Place(column, colour) => {
                    column.lemma_index_at(0);
                    before.lemma_placed(column.index(), colour);
                },
                Step::Turn => {
                    before.lemma_flipped();
                },
            }
            assert(0 <= Self::after(steps).heights[c] <= BOARD_HEIGHT);
        }
    }
}

} // verus!
