use vstd::prelude::*;
use crate::board::{AllowedColumnsIterator, Board};
use crate::colour::{Colour, Winner};
use crate::column::{Column, BOARD_HEIGHT, BOARD_WIDTH};
use crate::fitness::Fitness;
use crate::model::{BoardModel, CELLS};

verus! {

/// Why a move was refused.
#[derive(Debug, Clone, Copy, PartialEq, Eq, Structural)]
pub enum MoveError {
    /// The game has been decided.
    GameOver,
    /// The column holds as many pieces as it can.
    ColumnFull(Column),
}

/// What a game is, as mathematics: the board, whose turn it is, how the game
/// ended if it has, whether gravity turns, and the moves made since it last
/// did.
pub struct GameModel {
    pub board: BoardModel,
    pub current_colour: Colour,
    pub winner: Option<Winner>,
    pub flipping: bool,
    pub round: int,
}

impl GameModel {
    /// The game before the first move.
    pub open spec fn start(starting_colour: Colour, flipping: bool) -> GameModel {
        GameModel {
            board: BoardModel::empty(),
            current_colour: starting_colour,
            winner: None,
            flipping,
            round: 0,
        }
    }

    /// The invariant of a game. The board is well formed. While nothing is
    /// decided, no piece is one of four in a row and the board is not full;
    /// once the game is decided, some cell of the board shows that outcome.
    /// The round counts no more moves than pieces have been placed, and
    /// stays below 2 where gravity turns; where it does not, it points down.
    pub open spec fn wf(self) -> bool {
        &&& self.board.wf()
        &&& 0 <= self.round <= self.board.pieces()
        &&& self.flipping ==> self.round < 2
        &&& !self.flipping ==> self.board.gravity_down
        &&& match self.winner {
            None => !self.board.full() && self.board.check_win_all() is None,
            Some(w) => exists|c: int, r: int|
                BoardModel::on_board(c, r) && #[trigger] self.board.check_win(c, r) == Some(w),
        }
    }

    /// The game after the player to move has put a piece into column `c`,
    /// which takes one, while nothing was decided.
    ///
    /// The piece is placed and the turn passes. If the placed piece decides
    /// the game, that is the outcome and nothing else happens. Else the round
    /// goes up by one; where gravity turns and this was the second round, the
    /// round starts again, gravity turns, and the first decision that any
    /// cell of the turned board gives is the outcome.
    pub open spec fn after_move(self, c: int) -> GameModel {
        let placed = self.board.placed(c, self.current_colour);
        let next = self.current_colour.inverted();
        match placed.check_win(c, self.board.target_row(c)) {
            Some(w) => GameModel {
                board: placed,
                current_colour: next,
                winner: Some(w),
                flipping: self.flipping,
                round: self.round,
            },
            None => if self.flipping && self.round + 1 == 2 {
                GameModel {
                    board: placed.flipped(),
                    current_colour: next,
                    winner: placed.flipped().check_win_all(),
                    flipping: self.flipping,
                    round: 0,
                }
            } else {
                GameModel {
                    board: placed,
                    current_colour: next,
                    winner: None,
                    flipping: self.flipping,
                    round: self.round + 1,
                }
            },
        }
    }
}

impl GameModel {
    /// The game before the first move is well formed.
    pub proof fn lemma_start_wf(starting_colour: Colour, flipping: bool)
        ensures
            Self::start(starting_colour, flipping).wf(),
    {
        let b = BoardModel::empty();
        BoardModel::lemma_empty();
        assert forall|j: int| 0 <= j < CELLS implies (#[trigger] b.check_win(j / 6, j % 6))
            is None by {
            assert(b.piece(j / 6, j % 6) is None);
        }
        b.lemma_scan(0);
    }

    /// A move keeps the game well formed.
    pub proof fn lemma_after_move_wf(self, c: int)
        requires
            self.wf(),
            self.winner is None,
            0 <= c < BOARD_WIDTH,
            !self.board.column_full(c),
        ensures
            self.after_move(c).wf(),
    {
        let placed = self.board.placed(c, self.current_colour);
        let row = self.board.target_row(c);
        self.board.lemma_placed(c, self.current_colour);
        assert(placed.pieces() == self.board.pieces() + 1);
        match placed.check_win(c, row) {
            Some(w) => {
                assert(BoardModel::on_board(c, row) && placed.check_win(c, row) == Some(w));
            },
            None => {
                self.board.lemma_place_keeps_undecided(c, self.current_colour);
                if self.flipping && self.round + 1 == 2 {
                    let turned = placed.flipped();
                    placed.lemma_flipped();
                    turned.lemma_scan(0);
                    assert(0 <= turned.pieces());
                    match turned.check_win_all() {
                        Some(w) => {
                            let j = choose|j: int|
                                0 <= j < CELLS && #[trigger] turned.check_win(j / 6, j % 6)
                                    == turned.scan_from(0);
                            assert(BoardModel::on_board(j / 6, j % 6) && turned.check_win(
                                j / 6,
                                j % 6,
                            ) == Some(w));
                        },
                        None => {},
                    }
                }
            },
        }
    }

    /// The piece that completes four in a row of its colour, along a
    /// diagonal, its column or its row, wins the game for that colour at
    /// once, wherever in the row it lands.
    pub proof fn lemma_completing_piece_wins(self, c: int)
        requires
            self.wf(),
            self.winner is None,
            0 <= c < BOARD_WIDTH,
            !self.board.column_full(c),
            self.board.placed(c, self.current_colour).four_through(
                c,
                self.board.target_row(c),
                self.current_colour,
            ),
        ensures
            self.after_move(c).winner == Some(Winner::of_colour(self.current_colour)),
    {
        self.board.lemma_placed(c, self.current_colour);
    }

    /// A move ends the game in a tie exactly where it fills the board and the
    /// placed piece is not one of four in a row; a tied game has a full board.
    pub proof fn lemma_tie(self, c: int)
        requires
            self.wf(),
            self.winner is None,
            0 <= c < BOARD_WIDTH,
            !self.board.column_full(c),
        ensures
            self.after_move(c).winner == Some(Winner::Tie) <==> self.board.placed(
                c,
                self.current_colour,
            ).full() && !self.board.placed(c, self.current_colour).four_through(
                c,
                self.board.target_row(c),
                self.current_colour,
            ),
            self.after_move(c).winner == Some(Winner::Tie) ==> self.after_move(c).board.full(),
    {
        let placed = self.board.placed(c, self.current_colour);
        let row = self.board.target_row(c);
        self.board.lemma_placed(c, self.current_colour);
        if placed.check_win(c, row) is None {
            if self.flipping && self.round + 1 == 2 {
                let turned = placed.flipped();
                placed.lemma_flipped();
                turned.lemma_scan(0);
            }
        }
    }

    /// In a well-formed game a tie stands only on a full board, and a win
    /// only where a piece of the winning colour is one of four in a row.
    pub proof fn lemma_outcome_shown(self)
        requires
            self.wf(),
        ensures
            self.winner == Some(Winner::Tie) ==> self.board.full(),
            forall|colour: Colour|
                self.winner == Some(Winner::of_colour(colour)) ==> exists|c: int, r: int|
                    #[trigger] self.board.piece(c, r) == Some(colour) && self.board.four_through(
                        c,
                        r,
                        colour,
                    ),
            self.winner is None ==> forall|c: int, r: int, colour: Colour|
                self.board.piece(c, r) == Some(colour) ==> !#[trigger] self.board.four_through(
                    c,
                    r,
                    colour,
                ),
    {
        if let Some(w) = self.winner {
            let (c, r) = choose|c: int, r: int|
                BoardModel::on_board(c, r) && #[trigger] self.board.check_win(c, r) == Some(w);
            assert forall|colour: Colour| self.winner == Some(Winner::of_colour(colour)) implies
                exists|c: int, r: int| #[trigger]
                self.board.piece(c, r) == Some(colour) && self.board.four_through(c, r, colour) by {
                assert(self.board.piece(c, r) == Some(colour) && self.board.four_through(
                    c,
                    r,
                    colour,
                ));
            }
        } else {
            self.board.lemma_scan_none();
            assert forall|c: int, r: int, colour: Colour|
                self.board.piece(c, r) == Some(colour) implies !#[trigger] self.board.four_through(
                c,
                r,
                colour,
            ) by {
                assert(self.board.holds(c, r, colour)) by {
                    reveal(BoardModel::holds);
                }
            }
        }
    }
}

/// A game between two colours.
#[derive(Debug, Clone, Copy)]
pub struct Game {
    state: Board,
    current_colour: Colour,
    winner: Option<Winner>,
    flipping: bool,
    round: u8,
}

impl View for Game {
    type V = GameModel;

    closed spec fn view(&self) -> GameModel {
        GameModel {
            board: self.state@,
            current_colour: self.current_colour,
            winner: self.winner,
            flipping: self.flipping,
            round: self.round as int,
        }
    }
}

impl Game {
    /// The invariant that every game made by this library keeps.
    pub open spec fn wf(&self) -> bool {
        self@.wf()
    }

    /// A game on an empty board in which `starting_colour` moves first and
    /// gravity turns after every second move if `flipping` says so.
    pub fn new(starting_colour: Colour, flipping: bool) -> (r: Game)
        ensures
            r.wf(),
            r@ == GameModel::start(starting_colour, flipping),
    {
        proof {
            GameModel::lemma_start_wf(starting_colour, flipping);
        }
        Game {
            state: Board::new(),
            current_colour: starting_colour,
            winner: None,
            flipping,
            round: 0,
        }
    }

    /// Lets the player to move put a piece into `column`.
    ///
    /// Fails with `GameOver` once the game is decided, and with `ColumnFull`
    /// where the column takes no piece; the game is then left as it was.
    pub fn make_move(&mut self, column: Column) -> (r: Result<(), MoveError>)
        requires
            old(self).wf(),
        ensures
            final(self).wf(),
            match r {
                Err(MoveError::GameOver) => old(self)@.winner is Some && *final(self) == *old(
                    self,
                ),
                Err(MoveError::ColumnFull(full)) => old(self)@.winner is None && old(
                    self,
                )@.board.column_full(column.index()) && full == column && *final(self) == *old(
                    self,
                ),
                Ok(()) => old(self)@.winner is None && !old(self)@.board.column_full(
                    column.index(),
                ) && final(self)@ == old(self)@.after_move(column.index()),
            },
    {
        if self.is_finished() {
            return Err(MoveError::GameOver);
        }
        if self.state.column_full(column) {
            return Err(MoveError::ColumnFull(column));
        }
        proof {
            old(self)@.lemma_after_move_wf(column.index());
            old(self)@.board.lemma_placed(column.index(), old(self)@.current_colour);
        }

        let height: u8 = self.state.target_row(column);
        self.state.place_on_column(column, self.current_colour);

        self.current_colour = self.current_colour.invert();

        if let Some(winner) = self.state.check_win(column, height) {
            self.winner = Some(winner);
            return Ok(());
        }
        assert(self.round <= old(self)@.board.pieces() <= 42);
        self.round += 1;

        if self.round == 2 && self.flipping {
            self.round = 0;
            self.state.flip();
            if let Some(winner) = self.state.check_win_all() {
                self.winner = Some(winner);
            }
        }
        Ok(())
    }

    pub fn is_finished(&self) -> (r: bool)
        ensures
            r == self@.winner is Some,
    {
        self.winner.is_some()
    }

    pub fn winner(&self) -> (r: Option<Winner>)
        ensures
            r == self@.winner,
    {
        self.winner
    }

    pub fn current_colour(&self) -> (r: Colour)
        ensures
            r == self@.current_colour,
    {
        self.current_colour
    }

    pub fn state(&self) -> (r: &Board)
        ensures
            r@ == self@.board,
    {
        &self.state
    }

    /// Whether gravity turns after every second move.
    pub fn flipping(&self) -> (r: bool)
        ensures
            r == self@.flipping,
    {
        self.flipping
    }

    /// The moves made since gravity last turned, or since the start.
    pub fn round(&self) -> (r: u8)
        ensures
            r == self@.round,
    {
        self.round
    }

    /// Whether it is `player`'s turn, and the columns that a move can go
    /// into: none once the game is decided, else those that are not full.
    pub fn actions(&self, player: Colour) -> (r: (bool, AllowedColumnsIterator))
        ensures
            r.0 == (player == self@.current_colour),
            r.1.wf(),
            r.1@ == (if self@.winner is Some {
                Seq::<Column>::empty()
            } else {
                self@.board.open_columns()
            }),
    {
        let actions = if self.is_finished() {
            AllowedColumnsIterator::new_empty()
        } else {
            self.state.allowed_columns()
        };

        (player == self.current_colour(), actions)
    }

    /// Makes the move `action`, which must be one that `actions` offers, and
    /// says what the game is then worth to `player`.
    pub fn execute(&mut self, action: &Column, player: Colour) -> (r: Fitness)
        requires
            old(self).wf(),
            old(self)@.winner is None,
            !old(self)@.board.column_full(action.index()),
        ensures
            final(self).wf(),
            final(self)@ == old(self)@.after_move(action.index()),
            r == Fitness::of_outcome(final(self)@.winner, player),
    {
        self.make_move(*action).unwrap();

        Fitness::from_outcome(self.winner(), player)
    }

    /// Whether no outcome is better than `fitness`.
    pub fn is_upper_bound(&self, fitness: Fitness, _player: Colour) -> (r: bool)
        ensures
            r == (fitness == Fitness::Win),
    {
        fitness == Fitness::Win
    }

    /// Whether no outcome is worse than `fitness`.
    pub fn is_lower_bound(&self, fitness: Fitness, _player: Colour) -> (r: bool)
        ensures
            r == (fitness == Fitness::Loss),
    {
        fitness == Fitness::Loss
    }
}

impl BoardModel {
    /// The number of pieces on the board.
    pub open spec fn pieces(self) -> int {
        self.heights[0] + self.heights[1] + self.heights[2] + self.heights[3] + self.heights[4]
            + self.heights[5] + self.heights[6]
    }
}

} // verus!
