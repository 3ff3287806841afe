use vstd::prelude::*;
use crate::board::Board;
use crate::colour::{Colour, Winner};
use crate::column::{row_offset, Column, BOARD_HEIGHT, BOARD_WIDTH};
use crate::model::{BoardModel, CELLS};

verus! {

/// Number of rays that leave a cell.
pub const RAYS: usize = 8;

/// Number of axes through a cell; the rays `i` and `7 - i` lie on one axis.
pub const AXES: usize = 4;

/// The step of ray `i` across the columns.
pub open spec fn ray_dx(i: int) -> int {
    if i == 0 || i == 3 || i == 5 {
        -1
    } else if i == 1 || i == 6 {
        0
    } else {
        1
    }
}

/// The step of ray `i` across the rows.
pub open spec fn ray_dy(i: int) -> int {
    if i <= 2 {
        1
    } else if i <= 4 {
        0
    } else {
        -1
    }
}

/// The axis on which ray `i` lies: 0 for `\`, 1 for `|`, 2 for `/`, 3 for `-`.
pub open spec fn ray_axis(i: int) -> int {
    if i < 4 {
        i
    } else {
        7 - i
    }
}

impl BoardModel {
    /// Whether the cell in column `c` and row `r` holds a piece of `colour`.
    #[verifier::opaque]
    pub open spec fn holds(self, c: int, r: int, colour: Colour) -> bool {
        self.piece(c, r) == Some(colour)
    }

    /// Whether the four cells that start at column `c` and row `r` and go on
    /// by steps of `dx` columns and `dy` rows all hold a piece of `colour`.
    pub open spec fn line_from(self, c: int, r: int, dx: int, dy: int, colour: Colour) -> bool {
        &&& self.holds(c, r, colour)
        &&& self.holds(c + dx, r + dy, colour)
        &&& self.holds(c + 2 * dx, r + 2 * dy, colour)
        &&& self.holds(c + 3 * dx, r + 3 * dy, colour)
    }

    /// Whether the cell in column `c` and row `r` is one of four in a row of
    /// `colour` along the steps `dx` and `dy`.
    pub open spec fn four_on_axis(self, c: int, r: int, dx: int, dy: int, colour: Colour) -> bool {
        ||| self.line_from(c, r, dx, dy, colour)
        ||| self.line_from(c - dx, r - dy, dx, dy, colour)
        ||| self.line_from(c - 2 * dx, r - 2 * dy, dx, dy, colour)
        ||| self.line_from(c - 3 * dx, r - 3 * dy, dx, dy, colour)
    }

    /// Whether the cell in column `c` and row `r` is one of four in a row of
    /// `colour` along a diagonal, its column or its row.
    pub open spec fn four_through(self, c: int, r: int, colour: Colour) -> bool {
        ||| self.four_on_axis(c, r, -1, 1, colour)
        ||| self.four_on_axis(c, r, 0, 1, colour)
        ||| self.four_on_axis(c, r, 1, 1, colour)
        ||| self.four_on_axis(c, r, 1, 0, colour)
    }

    /// What the piece in column `c` and row `r` decides: its colour wins
    /// where it is one of four in a row; else the game is tied where the
    /// board is full; else, and where the cell is empty, nothing is decided.
    pub open spec fn check_win(self, c: int, r: int) -> Option<Winner> {
        match self.piece(c, r) {
            None => None,
            Some(colour) => if self.four_through(c, r, colour) {
                Some(Winner::of_colour(colour))
            } else if self.full() {
                Some(Winner::Tie)
            } else {
                None
            },
        }
    }

    /// The first decision that a cell from bit `k` on gives, the cells taken
    /// column by column and in each column from row 0 up.
    pub open spec fn scan_from(self, k: int) -> Option<Winner>
        decreases CELLS - k,
    {
        if k < 0 || k >= CELLS {
            None
        } else {
            match self.check_win(k / 6, k % 6) {
                Some(w) => Some(w),
                None => self.scan_from(k + 1),
            }
        }
    }

    /// The first decision that any cell gives.
    pub open spec fn check_win_all(self) -> Option<Winner> {
        self.scan_from(0)
    }

    /// Whether the first `depth` cells of the ray from column `c` and row `r`
    /// by steps `dx` and `dy` all hold a piece of `colour`.
    pub open spec fn ray_reaches(
        self,
        c: int,
        r: int,
        dx: int,
        dy: int,
        colour: Colour,
        depth: int,
    ) -> bool
        decreases depth,
    {
        if depth <= 0 {
            true
        } else {
            self.ray_reaches(c, r, dx, dy, colour, depth - 1) && self.holds(
                c + dx * depth,
                r + dy * depth,
                colour,
            )
        }
    }

    /// How many cells of `colour` the ray holds before its first other cell,
    /// counted among its first `depth` cells.
    pub open spec fn ray_count(
        self,
        c: int,
        r: int,
        dx: int,
        dy: int,
        colour: Colour,
        depth: int,
    ) -> int
        decreases depth,
    {
        if depth <= 0 {
            0
        } else {
            self.ray_count(c, r, dx, dy, colour, depth - 1) + if self.ray_reaches(
                c,
                r,
                dx,
                dy,
                colour,
                depth,
            ) {
                1int
            } else {
                0int
            }
        }
    }

    /// A ray holds at most as many cells as were looked at.
    pub proof fn lemma_ray_count_bound(
        self,
        c: int,
        r: int,
        dx: int,
        dy: int,
        colour: Colour,
        depth: int,
    )
        requires
            0 <= depth,
        ensures
            0 <= self.ray_count(c, r, dx, dy, colour, depth) <= depth,
        decreases depth,
    {
        if depth > 0 {
            self.lemma_ray_count_bound(c, r, dx, dy, colour, depth - 1);
        }
    }

    /// A cell is one of four in a row along an axis exactly where its two
    /// rays on that axis hold three or more cells of its colour between them.
    pub proof fn lemma_rays_count_four(self, c: int, r: int, dx: int, dy: int, colour: Colour)
        requires
            self.holds(c, r, colour),
        ensures
            self.four_on_axis(c, r, dx, dy, colour) <==> 1 + self.ray_count(
                c,
                r,
                dx,
                dy,
                colour,
                4,
            ) + self.ray_count(c, r, -dx, -dy, colour, 4) >= 4,
    {
        reveal_with_fuel(BoardModel::ray_count, 5);
        reveal_with_fuel(BoardModel::ray_reaches, 5);
        assert(self.holds(c + dx * 1, r + dy * 1, colour) == self.holds(c + dx, r + dy, colour));
        assert(self.holds(c + dx * 2, r + dy * 2, colour) == self.holds(
            c + 2 * dx,
            r + 2 * dy,
            colour,
        ));
        assert(self.holds(c + dx * 3, r + dy * 3, colour) == self.holds(
            c + 3 * dx,
            r + 3 * dy,
            colour,
        ));
        assert(self.holds(c + (-dx) * 1, r + (-dy) * 1, colour) == self.holds(
            c - dx,
            r - dy,
            colour,
        ));
        assert(self.holds(c + (-dx) * 2, r + (-dy) * 2, colour) == self.holds(
            c - 2 * dx,
            r - 2 * dy,
            colour,
        ));
        assert(self.holds(c + (-dx) * 3, r + (-dy) * 3, colour) == self.holds(
            c - 3 * dx,
            r - 3 * dy,
            colour,
        ));
        assert(self.holds(c - dx + 2 * dx, r - dy + 2 * dy, colour) == self.holds(
            c + dx,
            r + dy,
            colour,
        ));
        assert(self.holds(c - dx + 3 * dx, r - dy + 3 * dy, colour) == self.holds(
            c + 2 * dx,
            r + 2 * dy,
            colour,
        ));
        assert(self.holds(c - 2 * dx + 3 * dx, r - 2 * dy + 3 * dy, colour) == self.holds(
            c + dx,
            r + dy,
            colour,
        ));
    }

    /// A line of four is the same line read from its other end.
    pub proof fn lemma_line_reversed(self, c: int, r: int, dx: int, dy: int, colour: Colour)
        ensures
            self.line_from(c, r, dx, dy, colour) == self.line_from(
                c + 3 * dx,
                r + 3 * dy,
                -dx,
                -dy,
                colour,
            ),
            self.four_on_axis(c, r, dx, dy, colour) == self.four_on_axis(c, r, -dx, -dy, colour),
    {
        assert(self.holds(c + 3 * dx + 2 * (-dx), r + 3 * dy + 2 * (-dy), colour) == self.holds(
            c + dx,
            r + dy,
            colour,
        ));
        assert(self.holds(c + 3 * dx + 3 * (-dx), r + 3 * dy + 3 * (-dy), colour) == self.holds(
            c,
            r,
            colour,
        ));
    }

    /// The scan decides nothing exactly where no cell decides anything, and
    /// what it decides, some cell decides.
    pub proof fn lemma_scan(self, k: int)
        requires
            0 <= k <= CELLS,
        ensures
            self.scan_from(k) is None <==> forall|j: int|
                k <= j < CELLS ==> (#[trigger] self.check_win(j / 6, j % 6)) is None,
            self.scan_from(k) is Some ==> exists|j: int|
                k <= j < CELLS && #[trigger] self.check_win(j / 6, j % 6) == self.scan_from(k),
        decreases CELLS - k,
    {
        if k < CELLS {
            self.lemma_scan(k + 1);
            if self.check_win(k / 6, k % 6) is None {
                if self.scan_from(k) is Some {
                    let j = choose|j: int|
                        k + 1 <= j < CELLS && #[trigger] self.check_win(j / 6, j % 6)
                            == self.scan_from(k + 1);
                    assert(k <= j < CELLS && self.check_win(j / 6, j % 6) == self.scan_from(k));
                }
            } else {
                assert(k <= k < CELLS && self.check_win(k / 6, k % 6) == self.scan_from(k));
            }
        }
    }

    /// Where the scan of the whole board decides nothing, no cell is one of
    /// four in a row and, if a piece has been placed, the board is not full.
    pub proof fn lemma_scan_none(self)
        requires
            self.check_win_all() is None,
        ensures
            forall|c: int, r: int| (#[trigger] self.check_win(c, r)) is None,
            forall|c: int, r: int, colour: Colour|
                #[trigger] self.holds(c, r, colour) ==> !self.four_through(c, r, colour),
    {
        self.lemma_scan(0);
        assert forall|c: int, r: int| (#[trigger] self.check_win(c, r)) is None by {
            if Self::on_board(c, r) {
                let j = Self::cell(c, r);
                assert(j / 6 == c && j % 6 == r);
                assert(self.check_win(j / 6, j % 6) is None);
            }
        }
        assert forall|c: int, r: int, colour: Colour| #[trigger]
            self.holds(c, r, colour) implies !self.four_through(c, r, colour) by {
            reveal(BoardModel::holds);
            assert(self.check_win(c, r) is None);
        }
    }
}

impl BoardModel {
    /// A line of four of `colour` along ray `i` decides for `colour` at each
    /// of its four cells, whichever of them was filled last.
    pub proof fn lemma_line_decides(self, c: int, r: int, i: int, t: int, colour: Colour)
        requires
            0 <= i < RAYS,
            0 <= t < 4,
            self.line_from(c, r, ray_dx(i), ray_dy(i), colour),
        ensures
            self.four_through(c + t * ray_dx(i), r + t * ray_dy(i), colour),
            self.check_win(c + t * ray_dx(i), r + t * ray_dy(i)) == Some(
                Winner::of_colour(colour),
            ),
    {
        let dx = ray_dx(i);
        let dy = ray_dy(i);
        let x = c + t * dx;
        let y = r + t * dy;
        assert(self.holds(x, y, colour)) by {
            if t == 0 {
                assert(x == c && y == r);
            } else if t == 1 {
                assert(x == c + dx && y == r + dy);
            } else if t == 2 {
                assert(x == c + 2 * dx && y == r + 2 * dy);
            } else {
                assert(x == c + 3 * dx && y == r + 3 * dy);
            }
        }
        assert(self.four_on_axis(x, y, dx, dy, colour)) by {
            if t == 0 {
                assert(x == c && y == r);
            } else if t == 1 {
                assert(x - dx == c && y - dy == r);
            } else if t == 2 {
                assert(x - 2 * dx == c && y - 2 * dy == r);
            } else {
                assert(x - 3 * dx == c && y - 3 * dy == r);
            }
        }
        self.lemma_line_reversed(x, y, dx, dy, colour);
        assert(self.piece(x, y) == Some(colour)) by {
            reveal(BoardModel::holds);
        }
    }

    /// Four in a row through one cell after a piece was placed either stood
    /// there before, or is of the placed colour and passes through the
    /// placed cell.
    proof fn lemma_axis_after_place(
        self,
        c: int,
        placed: Colour,
        x: int,
        y: int,
        dx: int,
        dy: int,
        colour: Colour,
    )
        requires
            self.wf(),
            0 <= c < BOARD_WIDTH,
            !self.column_full(c),
            self.placed(c, placed).four_on_axis(x, y, dx, dy, colour),
        ensures
            self.four_on_axis(x, y, dx, dy, colour) || (colour == placed && self.placed(
                c,
                placed,
            ).four_on_axis(c, self.target_row(c), dx, dy, placed)),
    {
        let p = self.placed(c, placed);
        let row = self.target_row(c);
        self.lemma_placed(c, placed);
        assert forall|a: int, b: int, k: Colour| #[trigger] p.holds(a, b, k) == (if a == c && b
            == row {
            k == placed
        } else {
            self.holds(a, b, k)
        }) by {
            reveal(BoardModel::holds);
        }
        if p.line_from(x, y, dx, dy, colour) {
            self.lemma_line_after_place(c, placed, x, y, dx, dy, colour);
        } else if p.line_from(x - dx, y - dy, dx, dy, colour) {
            self.lemma_line_after_place(c, placed, x - dx, y - dy, dx, dy, colour);
        } else if p.line_from(x - 2 * dx, y - 2 * dy, dx, dy, colour) {
            self.lemma_line_after_place(c, placed, x - 2 * dx, y - 2 * dy, dx, dy, colour);
        } else {
            self.lemma_line_after_place(c, placed, x - 3 * dx, y - 3 * dy, dx, dy, colour);
        }
    }

    /// A line of four after a piece was placed either stood there before, or
    /// is of the placed colour and passes through the placed cell.
    proof fn lemma_line_after_place(
        self,
        c: int,
        placed: Colour,
        x: int,
        y: int,
        dx: int,
        dy: int,
        colour: Colour,
    )
        requires
            forall|a: int, b: int, k: Colour| #[trigger]
                self.placed(c, placed).holds(a, b, k) == (if a == c && b == self.target_row(c) {
                    k == placed
                } else {
                    self.holds(a, b, k)
                }),
            self.placed(c, placed).line_from(x, y, dx, dy, colour),
        ensures
            self.line_from(x, y, dx, dy, colour) || (colour == placed && self.placed(
                c,
                placed,
            ).four_on_axis(c, self.target_row(c), dx, dy, placed)),
    {
        let p = self.placed(c, placed);
        let row = self.target_row(c);
        if x == c && y == row {
            assert(p.holds(x, y, colour));
        } else if x + dx == c && y + dy == row {
            assert(p.holds(x + dx, y + dy, colour));
            assert(c - dx == x && row - dy == y);
        } else if x + 2 * dx == c && y + 2 * dy == row {
            assert(p.holds(x + 2 * dx, y + 2 * dy, colour));
            assert(c - 2 * dx == x && row - 2 * dy == y);
        } else if x + 3 * dx == c && y + 3 * dy == row {
            assert(p.holds(x + 3 * dx, y + 3 * dy, colour));
            assert(c - 3 * dx == x && row - 3 * dy == y);
        } else {
            assert(p.holds(x, y, colour) == self.holds(x, y, colour));
            assert(p.holds(x + dx, y + dy, colour) == self.holds(x + dx, y + dy, colour));
            assert(p.holds(x + 2 * dx, y + 2 * dy, colour) == self.holds(
                x + 2 * dx,
                y + 2 * dy,
                colour,
            ));
            assert(p.holds(x + 3 * dx, y + 3 * dy, colour) == self.holds(
                x + 3 * dx,
                y + 3 * dy,
                colour,
            ));
        }
    }

    /// Where no cell decided anything and the piece just placed decides
    /// nothing either, still no cell decides anything.
    pub proof fn lemma_place_keeps_undecided(self, c: int, placed: Colour)
        requires
            self.wf(),
            0 <= c < BOARD_WIDTH,
            !self.column_full(c),
            self.check_win_all() is None,
            self.placed(c, placed).check_win(c, self.target_row(c)) is None,
        ensures
            self.placed(c, placed).check_win_all() is None,
            !self.placed(c, placed).full(),
    {
        let p = self.placed(c, placed);
        let row = self.target_row(c);
        self.lemma_placed(c, placed);
        self.lemma_scan_none();
        assert(p.piece(c, row) == Some(placed));
        assert(!p.four_through(c, row, placed) && !p.full());
        assert forall|j: int| 0 <= j < CELLS implies (#[trigger] p.check_win(j / 6, j % 6))
            is None by {
            let x = j / 6;
            let y = j % 6;
            if !(x == c && y == row) {
                assert(p.piece(x, y) == self.piece(x, y));
                if let Some(colour) = p.piece(x, y) {
                    assert(self.holds(x, y, colour)) by {
                        reveal(BoardModel::holds);
                    }
                    assert(!self.four_through(x, y, colour));
                    if p.four_on_axis(x, y, -1, 1, colour) {
                        self.lemma_axis_after_place(c, placed, x, y, -1, 1, colour);
                    }
                    if p.four_on_axis(x, y, 0, 1, colour) {
                        self.lemma_axis_after_place(c, placed, x, y, 0, 1, colour);
                    }
                    if p.four_on_axis(x, y, 1, 1, colour) {
                        self.lemma_axis_after_place(c, placed, x, y, 1, 1, colour);
                    }
                    if p.four_on_axis(x, y, 1, 0, colour) {
                        self.lemma_axis_after_place(c, placed, x, y, 1, 0, colour);
                    }
                    assert(!p.four_through(x, y, colour));
                }
            }
        }
        p.lemma_scan(0);
    }
}

/// How far ray `i` has been followed while the rays are taken in turn to
/// `depth`: the rays below `done` to `depth`, the others one cell less.
pub open spec fn followed(i: int, done: int, depth: int) -> int {
    if i < done {
        depth
    } else {
        depth - 1
    }
}

impl BoardModel {
    /// Whether ray `i` from column `c` and row `r` has met nothing but
    /// `colour` as far as it has been followed.
    pub open spec fn ray_open(
        self,
        c: int,
        r: int,
        colour: Colour,
        i: int,
        done: int,
        depth: int,
    ) -> bool {
        self.ray_reaches(c, r, ray_dx(i), ray_dy(i), colour, followed(i, done, depth))
    }

    /// The cells of `colour` counted on axis `a` so far: the cell in column
    /// `c` and row `r` itself and what its two rays on that axis hold.
    pub open spec fn axis_count(
        self,
        c: int,
        r: int,
        colour: Colour,
        a: int,
        done: int,
        depth: int,
    ) -> int {
        1 + self.ray_count(c, r, ray_dx(a), ray_dy(a), colour, followed(a, done, depth))
            + self.ray_count(
            c,
            r,
            ray_dx(7 - a),
            ray_dy(7 - a),
            colour,
            followed(7 - a, done, depth),
        )
    }

    /// What following ray `i` one cell further, to `depth`, does to the rays
    /// and the counts: `hit` says whether the ray was still open and that
    /// cell holds `colour`.
    pub proof fn lemma_follow_ray(
        self,
        c: int,
        r: int,
        colour: Colour,
        i: int,
        depth: int,
        hit: bool,
    )
        requires
            0 <= i < RAYS,
            1 <= depth,
            hit == (self.ray_open(c, r, colour, i, i, depth) && self.holds(
                c + ray_dx(i) * depth,
                r + ray_dy(i) * depth,
                colour,
            )),
        ensures
            self.ray_open(c, r, colour, i, i + 1, depth) == hit,
            forall|j: int|
                0 <= j < RAYS && j != i ==> #[trigger] self.ray_open(c, r, colour, j, i + 1, depth)
                    == self.ray_open(c, r, colour, j, i, depth),
            forall|a: int|
                0 <= a < AXES ==> #[trigger] self.axis_count(c, r, colour, a, i + 1, depth)
                    == self.axis_count(c, r, colour, a, i, depth) + if hit && a == ray_axis(i) {
                        1int
                    } else {
                        0int
                    },
            0 <= self.axis_count(c, r, colour, ray_axis(i), i, depth) <= 1 + 2 * depth,
    {
        self.lemma_ray_count_bound(
            c,
            r,
            ray_dx(ray_axis(i)),
            ray_dy(ray_axis(i)),
            colour,
            followed(ray_axis(i), i, depth),
        );
        self.lemma_ray_count_bound(
            c,
            r,
            ray_dx(7 - ray_axis(i)),
            ray_dy(7 - ray_axis(i)),
            colour,
            followed(7 - ray_axis(i), i, depth),
        );
    }

    /// Once every ray has been followed over four cells, an axis counts four
    /// or more exactly where the cell is one of four in a row along it.
    pub proof fn lemma_axis_count_four(self, c: int, r: int, colour: Colour)
        requires
            self.holds(c, r, colour),
        ensures
            self.four_on_axis(c, r, -1, 1, colour) <==> self.axis_count(c, r, colour, 0, 0, 5)
                >= 4,
            self.four_on_axis(c, r, 0, 1, colour) <==> self.axis_count(c, r, colour, 1, 0, 5)
                >= 4,
            self.four_on_axis(c, r, 1, 1, colour) <==> self.axis_count(c, r, colour, 2, 0, 5)
                >= 4,
            self.four_on_axis(c, r, 1, 0, colour) <==> self.axis_count(c, r, colour, 3, 0, 5)
                >= 4,
    {
        self.lemma_rays_count_four(c, r, -1, 1, colour);
        self.lemma_rays_count_four(c, r, 0, 1, colour);
        self.lemma_rays_count_four(c, r, 1, 1, colour);
        self.lemma_rays_count_four(c, r, 1, 0, colour);
    }
}

impl Board {
    /// What the piece in `column` at `height` decides: its colour wins where
    /// it is one of four in a row; else the game is tied where the board is
    /// full; else, and where the cell is empty, nothing is decided.
    pub fn check_win(&self, column: Column, height: u8) -> (r: Option<Winner>)
        requires
            self.wf(),
        ensures
            r == self@.check_win(column.index(), height as int),
    {
        let colour = match self.piece_at(column, height) {
            Some(c) => c,
            None => {
                return None;
            },
        };
        let ghost m = self@;
        let ghost c = column.index();
        let ghost r0 = height as int;
        assert(m.holds(c, r0, colour)) by {
            reveal(BoardModel::holds);
        }

        // 0:\ 1:| 2:/ 3:-
        let mut count: [u8; 4] = [1u8;4];
        let mut stopped: [bool; 8] = [false;8];

        let mut depth: i8 = 1;
        while depth <= 4
            invariant
                1 <= depth <= 5,
                self.wf(),
                m == self@,
                c == column.index(),
                r0 == height as int,
                forall|i: int|
                    0 <= i < RAYS ==> #[trigger] stopped@[i] == !m.ray_open(
                        c,
                        r0,
                        colour,
                        i,
                        0,
                        depth as int,
                    ),
                forall|a: int|
                    0 <= a < AXES ==> #[trigger] count@[a] == m.axis_count(
                        c,
                        r0,
                        colour,
                        a,
                        0,
                        depth as int,
                    ),
            decreases 5 - depth,
        {
            let mut i: usize = 0;
            while i < RAYS
                invariant
                    1 <= depth <= 4,
                    i <= RAYS,
                    self.wf(),
                    m == self@,
                    c == column.index(),
                    r0 == height as int,
                    forall|j: int|
                        0 <= j < RAYS ==> #[trigger] stopped@[j] == !m.ray_open(
                            c,
                            r0,
                            colour,
                            j,
                            i as int,
                            depth as int,
                        ),
                    forall|a: int|
                        0 <= a < AXES ==> #[trigger] count@[a] == m.axis_count(
                            c,
                            r0,
                            colour,
                            a,
                            i as int,
                            depth as int,
                        ),
                decreases RAYS - i,
            {
                let ghost count_then = count@;
                let ghost stopped_then = stopped@;
                let (dx, dy, axis) = direction(i);
                proof {
                    if stopped[i as int] {
                        m.lemma_follow_ray(c, r0, colour, i as int, depth as int, false);
                    }
                }
                if !stopped[i] {
                    assert(-4 <= dx * depth <= 4 && -4 <= dy * depth <= 4) by (nonlinear_arith)
                        requires
                            -1 <= dx <= 1,
                            -1 <= dy <= 1,
                            1 <= depth <= 4,
                    ;
                    let same = match column.offset(dx * depth) {
                        Some(check_col) => match row_offset(height, dy * depth) {
                            Some(check_row) => match self.piece_at(check_col, check_row) {
                                Some(found) => found == colour,
                                None => false,
                            },
                            None => false,
                        },
                        None => false,
                    };
                    assert(same == m.holds(c + dx * depth, r0 + dy * depth, colour)) by {
                        reveal(BoardModel::holds);
                    }
                    proof {
                        m.lemma_follow_ray(c, r0, colour, i as int, depth as int, same);
                    }
                    if same {
                        count[axis] = count[axis] + 1;
                    } else {
                        stopped[i] = true;
                    }
                }
                assert forall|j: int| 0 <= j < RAYS implies #[trigger] stopped@[j] == !m.ray_open(
                    c,
                    r0,
                    colour,
                    j,
                    i + 1,
                    depth as int,
                ) by {
                    assert(stopped_then[j] == !m.ray_open(c, r0, colour, j, i as int, depth as int));
                }
                assert forall|a: int| 0 <= a < AXES implies #[trigger] count@[a] == m.axis_count(
                    c,
                    r0,
                    colour,
                    a,
                    i + 1,
                    depth as int,
                ) by {
                    assert(count_then[a] == m.axis_count(c, r0, colour, a, i as int, depth as int));
                }
                i += 1;
            }
            depth += 1;
        }

        proof {
            m.lemma_axis_count_four(c, r0, colour);
            assert(count@[0] == m.axis_count(c, r0, colour, 0, 0, 5));
            assert(count@[1] == m.axis_count(c, r0, colour, 1, 0, 5));
            assert(count@[2] == m.axis_count(c, r0, colour, 2, 0, 5));
            assert(count@[3] == m.axis_count(c, r0, colour, 3, 0, 5));
        }
        let mut a: usize = 0;
        while a < AXES
            invariant
                a <= AXES,
                m == self@,
                c == column.index(),
                r0 == height as int,
                m.piece(c, r0) == Some(colour),
                m.four_through(c, r0, colour) <==> exists|b: int|
                    0 <= b < AXES && #[trigger] count@[b] >= 4,
                forall|b: int| 0 <= b < a ==> #[trigger] count@[b] < 4,
            decreases AXES - a,
        {
            if count[a] >= 4 {
                return Some(Winner::from_colour(colour));
            }
            a += 1;
        }

        let columns = Column::all();
        let mut k: usize = 0;
        while k < BOARD_WIDTH
            invariant
                k <= BOARD_WIDTH,
                m == self@,
                columns@ == Column::all_columns(),
                c == column.index(),
                r0 == height as int,
                m.piece(c, r0) == Some(colour),
                !m.four_through(c, r0, colour),
                forall|j: int| 0 <= j < k ==> #[trigger] m.column_full(j),
            decreases BOARD_WIDTH - k,
        {
            if !self.column_full(columns[k]) {
                assert(!m.column_full(k as int));
                return None;
            }
            k += 1;
        }

        Some(Winner::Tie)
    }

    /// The first decision that any cell gives, the cells taken column by
    /// column and in each column from row 0 up.
    pub fn check_win_all(&self) -> (r: Option<Winner>)
        requires
            self.wf(),
        ensures
            r == self@.check_win_all(),
    {
        let columns = Column::all();
        let mut k: usize = 0;
        while k < BOARD_WIDTH
            invariant
                k <= BOARD_WIDTH,
                self.wf(),
                columns@ == Column::all_columns(),
                self@.check_win_all() == self@.scan_from(6 * k),
            decreases BOARD_WIDTH - k,
        {
            let mut h: u8 = 0;
            while h < BOARD_HEIGHT as u8
                invariant
                    k < BOARD_WIDTH,
                    h <= BOARD_HEIGHT,
                    self.wf(),
                    columns@ == Column::all_columns(),
                    self@.check_win_all() == self@.scan_from(6 * k + h),
                decreases BOARD_HEIGHT - h,
            {
                assert((6 * k + h) / 6 == k && (6 * k + h) % 6 == h as int);
                if let Some(win) = self.check_win(columns[k], h) {
                    return Some(win);
                }
                h += 1;
            }
            k += 1;
        }

        None
    }
}

/// The steps of ray `i` across columns and rows, and its axis.
pub fn direction(i: usize) -> (r: (i8, i8, usize))
    requires
        i < RAYS,
    ensures
        r.0 == ray_dx(i as int),
        r.1 == ray_dy(i as int),
        r.2 == ray_axis(i as int),
{
    match i {
        0 => (-1, 1, 0),
        1 => (0, 1, 1),
        2 => (1, 1, 2),
        3 => (-1, 0, 3),
        4 => (1, 0, 3),
        5 => (-1, -1, 2),
        6 => (0, -1, 1),
        _ => (1, -1, 0),
    }
}

} // verus!
