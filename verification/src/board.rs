use vstd::prelude::*;
use crate::bits::{Bits, BITS_LEN};
use crate::colour::Colour;
use crate::column::{Column, BOARD_HEIGHT, BOARD_WIDTH};
use crate::model::{BoardModel, CELLS};

verus! {

/// The columns below position `n` that `chosen` holds of, in ascending order.
pub open spec fn columns_where(chosen: spec_fn(int) -> bool, n: int) -> Seq<Column>
    decreases n,
{
    if n <= 0 {
        Seq::empty()
    } else if chosen(n - 1) && Column::at(n - 1) is Some {
        columns_where(chosen, n - 1).push(Column::at(n - 1).unwrap())
    } else {
        columns_where(chosen, n - 1)
    }
}

/// `columns_where` looks at `chosen` below `n` only.
pub proof fn lemma_columns_where_agree(f: spec_fn(int) -> bool, g: spec_fn(int) -> bool, n: int)
    requires
        forall|c: int| 0 <= c < n ==> #[trigger] f(c) == g(c),
    ensures
        columns_where(f, n) == columns_where(g, n),
    decreases n,
{
    if n > 0 {
        lemma_columns_where_agree(f, g, n - 1);
    }
}

/// `columns_where` holds exactly the chosen columns of the board below `n`,
/// each once and in ascending order.
pub proof fn lemma_columns_where(chosen: spec_fn(int) -> bool, n: int)
    requires
        0 <= n <= BOARD_WIDTH,
    ensures
        columns_where(chosen, n).len() <= n,
        forall|k: int|
            0 <= k < columns_where(chosen, n).len() ==> {
                &&& 0 <= (#[trigger] columns_where(chosen, n)[k]).index() < n
                &&& chosen(columns_where(chosen, n)[k].index())
            },
        forall|j: int, k: int|
            0 <= j < k < columns_where(chosen, n).len() ==> (#[trigger] columns_where(
                chosen,
                n,
            )[j]).index() < (#[trigger] columns_where(chosen, n)[k]).index(),
        forall|col: Column|
            col.index() < n && chosen(col.index()) ==> columns_where(chosen, n).contains(col),
    decreases n,
{
    if n > 0 {
        lemma_columns_where(chosen, n - 1);
        let before = columns_where(chosen, n - 1);
        let all = columns_where(chosen, n);
        assert forall|col: Column| col.index() < n && chosen(col.index()) implies all.contains(
            col,
        ) by {
            col.lemma_index_at(0);
            if col.index() == n - 1 {
                assert(all[all.len() - 1] == col);
            } else {
                assert(before.contains(col));
                let k = choose|k: int| 0 <= k < before.len() && before[k] == col;
                assert(all[k] == col);
            }
        }
    }
}

impl BoardModel {
    /// The columns that still take a piece, in ascending order.
    pub open spec fn open_columns(self) -> Seq<Column> {
        columns_where(|c: int| !self.column_full(c), BOARD_WIDTH as int)
    }

    /// `open_columns` holds exactly the columns that are not full, each once
    /// and in ascending order.
    pub proof fn lemma_open_columns(self)
        ensures
            forall|col: Column|
                self.open_columns().contains(col) <==> !self.column_full(col.index()),
            forall|j: int, k: int|
                0 <= j < k < self.open_columns().len() ==> (#[trigger] self.open_columns()[j]).index()
                    < (#[trigger] self.open_columns()[k]).index(),
            self.full() <==> self.open_columns().len() == 0,
    {
        let chosen = |c: int| !self.column_full(c);
        let open = self.open_columns();
        lemma_columns_where(chosen, BOARD_WIDTH as int);
        assert forall|col: Column| open.contains(col) <==> !self.column_full(col.index()) by {
            col.lemma_index_at(0);
            if open.contains(col) {
                let k = choose|k: int| 0 <= k < open.len() && open[k] == col;
                assert(chosen(open[k].index()));
            }
        }
        if self.full() {
            if open.len() > 0 {
                assert(chosen(open[0].index()));
                assert(self.column_full(open[0].index()));
            }
        } else {
            let c = choose|c: int| 0 <= c < BOARD_WIDTH && !#[trigger] self.column_full(c);
            Column::A.lemma_index_at(c);
            assert(open.contains(Column::at(c).unwrap()));
        }
    }
}

/// The grid of pieces: what stands in each cell, how high each column is, and
/// which way gravity points.
#[derive(Debug)]
pub struct Board {
    heights: [u8; 7],
    present: Bits,
    tiles: Bits,
    gravity_down: bool,
}

impl View for Board {
    type V = BoardModel;

    closed spec fn view(&self) -> BoardModel {
        BoardModel {
            heights: Seq::new(BOARD_WIDTH as nat, |c: int| self.heights[c] as int),
            present: self.present@,
            tiles: self.tiles@,
            gravity_down: self.gravity_down,
        }
    }
}

impl Clone for Board {
    fn clone(&self) -> (r: Board)
        ensures
            r@ == self@,
    {
        let r = Board {
            heights: self.heights,
            present: self.present.clone(),
            tiles: self.tiles.clone(),
            gravity_down: self.gravity_down,
        };
        assert(r@.heights =~= self@.heights);
        r
    }
}

impl Copy for Board {

}

impl Board {
    /// The invariant that every board made by this library keeps.
    pub open spec fn wf(&self) -> bool {
        self@.wf()
    }

    pub fn new() -> (r: Board)
        ensures
            r.wf(),
            r@ == BoardModel::empty(),
    {
        let r = Board {
            heights: [0u8;7],
            present: Bits::zero(),
            tiles: Bits::zero(),
            gravity_down: true,
        };
        proof {
            BoardModel::lemma_empty();
            assert(r@.heights =~= BoardModel::empty().heights);
        }
        r
    }

    pub fn column_height(&self, column: Column) -> (r: u8)
        ensures
            r == self@.heights[column.index()],
    {
        self.heights[column.to_idx()]
    }

    pub fn column_full(&self, column: Column) -> (r: bool)
        ensures
            r == self@.column_full(column.index()),
    {
        self.column_height(column) >= BOARD_HEIGHT as u8
    }

    /// Which way gravity points: `true` while pieces settle toward row 0.
    pub fn gravity_down(&self) -> (r: bool)
        ensures
            r == self@.gravity_down,
    {
        self.gravity_down
    }

    /// The bit that stands for the cell in `column` at `height`.
    pub fn index_of(column: Column, height: u8) -> (r: usize)
        ensures
            r == BoardModel::cell(column.index(), height as int),
    {
        column.to_idx() * BOARD_HEIGHT + height as usize
    }

    /// The row in which the next piece of `column`, which must not be full,
    /// comes to rest.
    pub fn target_row(&self, column: Column) -> (r: u8)
        requires
            self.wf(),
            !self@.column_full(column.index()),
        ensures
            r == self@.target_row(column.index()),
            r < BOARD_HEIGHT,
    {
        let height: u8 = self.column_height(column);
        assert(0 <= self@.heights[column.index()] <= BOARD_HEIGHT);
        if self.gravity_down {
            height
        } else {
            BOARD_HEIGHT as u8 - (height + 1)
        }
    }

    /// Puts a piece of `colour` into `column`, which must not be full.
    pub fn place_on_column(&mut self, column: Column, colour: Colour)
        requires
            old(self).wf(),
            !old(self)@.column_full(column.index()),
        ensures
            final(self).wf(),
            final(self)@ == old(self)@.placed(column.index(), colour),
    {
        proof {
            old(self)@.lemma_placed(column.index(), colour);
        }
        let height: u8 = self.target_row(column);
        assert(0 <= self@.heights[column.index()] < BOARD_HEIGHT);

        let idx = Board::index_of(column, height);
        self.tiles.set(idx, colour.to_bool());
        self.present.set(idx, true);
        let at = column.to_idx();
        let raised: u8 = self.heights[at] + 1;
        self.heights[at] = raised;
        assert(self@.heights =~= old(self)@.placed(column.index(), colour).heights);
    }

    /// The piece in `column` at `height`, if there is one; `None` too where
    /// `height` is above the board.
    pub fn piece_at(&self, column: Column, height: u8) -> (r: Option<Colour>)
        requires
            self.wf(),
        ensures
            r == self@.piece(column.index(), height as int),
    {
        if height as usize >= BOARD_HEIGHT {
            return None;
        }
        let idx = Board::index_of(column, height);
        if self.present.get(idx) {
            Some(Colour::from_bool(self.tiles.get(idx)))
        } else {
            None
        }
    }

    /// The columns that still take a piece.
    pub fn allowed_columns(&self) -> (r: AllowedColumnsIterator)
        ensures
            r.wf(),
            r@ == self@.open_columns(),
    {
        AllowedColumnsIterator::from_board(self)
    }

    /// Turns gravity: every column's stack moves to the other end of the
    /// column, and new pieces settle there from now on.
    pub fn flip(&mut self)
        requires
            old(self).wf(),
        ensures
            final(self).wf(),
            final(self)@ == old(self)@.flipped(),
    {
        let ghost before = self@;
        let columns = Column::all();
        let mut k: usize = 0;
        while k < BOARD_WIDTH
            invariant
                k <= BOARD_WIDTH,
                columns@ == Column::all_columns(),
                before.wf(),
                before == old(self)@,
                self.heights == old(self).heights,
                self.gravity_down == old(self).gravity_down,
                self.present@.len() == BITS_LEN,
                self.tiles@.len() == BITS_LEN,
                forall|i: int|
                    0 <= i < BITS_LEN ==> #[trigger] self.present@[i] == (if i < 6 * k {
                        before.turned_bit(before.present, i)
                    } else {
                        before.present[i]
                    }),
                forall|i: int|
                    0 <= i < BITS_LEN ==> #[trigger] self.tiles@[i] == (if i < 6 * k {
                        before.turned_bit(before.tiles, i)
                    } else {
                        before.tiles[i]
                    }),
            decreases BOARD_WIDTH - k,
        {
            let column = columns[k];
            assert(column.index() == k);
            let idx = Board::index_of(column, 0);
            let height: u8 = self.column_height(column);
            assert(0 <= before.heights[k as int] <= BOARD_HEIGHT);
            assert(height == before.heights[k as int]);
            let ghost present_then = self.present@;
            let ghost tiles_then = self.tiles@;
            if height != 0 {
                let shift: usize = BOARD_HEIGHT - height as usize;
                if self.gravity_down {
                    self.present.shift_end(idx, idx + BOARD_HEIGHT, shift);
                    self.tiles.shift_end(idx, idx + BOARD_HEIGHT, shift);
                } else {
                    self.present.shift_start(idx, idx + BOARD_HEIGHT, shift);
                    self.tiles.shift_start(idx, idx + BOARD_HEIGHT, shift);
                }
            }
            assert forall|i: int| 0 <= i < BITS_LEN implies #[trigger] self.present@[i] == (if i
                < 6 * (k + 1) {
                before.turned_bit(before.present, i)
            } else {
                before.present[i]
            }) && #[trigger] self.tiles@[i] == (if i < 6 * (k + 1) {
                before.turned_bit(before.tiles, i)
            } else {
                before.tiles[i]
            }) by {
                assert(present_then[i] == (if i < 6 * k {
                    before.turned_bit(before.present, i)
                } else {
                    before.present[i]
                }));
                assert(tiles_then[i] == (if i < 6 * k {
                    before.turned_bit(before.tiles, i)
                } else {
                    before.tiles[i]
                }));
                if 6 * k <= i < 6 * (k + 1) {
                    assert(i / 6 == k && i < CELLS);
                    if height != 0 {
                        let by = BOARD_HEIGHT - height;
                        if self.gravity_down {
                            if i - by >= 6 * k {
                                assert(present_then[i - by] == before.present[i - by]);
                                assert(tiles_then[i - by] == before.tiles[i - by]);
                            }
                        } else {
                            if i + by < 6 * k + 6 {
                                assert(present_then[i + by] == before.present[i + by]);
                                assert(tiles_then[i + by] == before.tiles[i + by]);
                            }
                        }
                    }
                }
            }
            k += 1;
        }
        self.gravity_down = !self.gravity_down;
        proof {
            before.lemma_flipped();
            assert(self@.present =~= before.flipped().present);
            assert(self@.tiles =~= before.flipped().tiles);
            assert(self@.heights =~= before.flipped().heights);
        }
    }
}

/// The columns that take a piece, as one bit a column.
#[derive(Debug)]
pub struct AllowedColumnsIterator {
    allowed: Bits,
}

impl View for AllowedColumnsIterator {
    type V = Seq<Column>;

    /// The columns that it holds, in ascending order.
    closed spec fn view(&self) -> Seq<Column> {
        columns_where(|c: int| self.allowed@[c], BOARD_WIDTH as int)
    }
}

impl AllowedColumnsIterator {
    /// The invariant: no bit is set but those of columns.
    pub closed spec fn wf(&self) -> bool {
        &&& self.allowed@.len() == BITS_LEN
        &&& forall|i: int| BOARD_WIDTH <= i < BITS_LEN ==> !#[trigger] self.allowed@[i]
    }

    /// The columns of `board` that are not full.
    pub fn from_board(board: &Board) -> (r: AllowedColumnsIterator)
        ensures
            r.wf(),
            r@ == board@.open_columns(),
    {
        let mut allowed = Bits::zero();
        let columns = Column::all();
        let mut k: usize = 0;
        while k < BOARD_WIDTH
            invariant
                k <= BOARD_WIDTH,
                columns@ == Column::all_columns(),
                allowed@.len() == BITS_LEN,
                forall|i: int| 0 <= i < k ==> #[trigger] allowed@[i] == !board@.column_full(i),
                forall|i: int| k <= i < BITS_LEN ==> !#[trigger] allowed@[i],
            decreases BOARD_WIDTH - k,
        {
            let col = columns[k];
            if !board.column_full(col) {
                allowed.set(col.to_idx(), true);
            }
            k += 1;
        }
        let r = AllowedColumnsIterator { allowed };
        proof {
            lemma_columns_where_agree(
                |c: int| r.allowed@[c],
                |c: int| !board@.column_full(c),
                BOARD_WIDTH as int,
            );
        }
        r
    }

    /// No column at all.
    pub fn new_empty() -> (r: AllowedColumnsIterator)
        ensures
            r.wf(),
            r@ == Seq::<Column>::empty(),
    {
        let r = AllowedColumnsIterator { allowed: Bits::zero() };
        proof {
            lemma_columns_where_agree(|c: int| r.allowed@[c], |c: int| false, BOARD_WIDTH as int);
            lemma_columns_where_none(BOARD_WIDTH as int);
        }
        r
    }

    /// The columns in ascending order.
    pub fn into_vec(self) -> (r: Vec<Column>)
        requires
            self.wf(),
        ensures
            r@ == self@,
    {
        let mut r: Vec<Column> = Vec::new();
        let mut idx: u8 = 0;
        while idx < BOARD_WIDTH as u8
            invariant
                idx <= BOARD_WIDTH,
                self.allowed@.len() == BITS_LEN,
                r@ == columns_where(|c: int| self.allowed@[c], idx as int),
            decreases BOARD_WIDTH - idx,
        {
            if self.allowed.get(idx as usize) {
                match Column::from_idx(idx) {
                    Some(col) => r.push(col),
                    None => {},
                }
            }
            idx += 1;
        }
        r
    }
}

/// Where nothing is chosen, `columns_where` is empty.
proof fn lemma_columns_where_none(n: int)
    ensures
        columns_where(|c: int| false, n) == Seq::<Column>::empty(),
    decreases n,
{
    if n > 0 {
        lemma_columns_where_none(n - 1);
    }
}

} // verus!
