use connect_four::board::{AllowedColumnsIterator, Board};
use connect_four::colour::{Colour, Winner};
use connect_four::column::Column;

use Colour::{Red, Yellow};

fn cells(board: &Board) -> Vec<Option<Colour>> {
    let mut out = Vec::new();
    for c in Column::all() {
        for r in 0..6u8 {
            out.push(board.piece_at(c, r));
        }
    }
    out
}

fn heights(board: &Board) -> Vec<u8> {
    Column::all().iter().map(|c| board.column_height(*c)).collect()
}

fn column_cells(board: &Board, column: Column) -> Vec<Option<Colour>> {
    (0..6u8).map(|r| board.piece_at(column, r)).collect()
}

fn fill(board: &mut Board, column: Column, colours: &[Colour]) {
    for colour in colours {
        board.place_on_column(column, *colour);
    }
}

#[test]
fn new_board_is_empty() {
    let board = Board::new();
    assert_eq!(heights(&board), vec![0; 7]);
    assert!(cells(&board).iter().all(|p| p.is_none()));
    assert!(board.gravity_down());
    for c in Column::all() {
        assert!(!board.column_full(c));
    }
    assert_eq!(board.allowed_columns().into_vec(), Column::all().to_vec());
    assert_eq!(board.check_win_all(), None);
}

#[test]
fn index_of_is_column_major() {
    assert_eq!(Board::index_of(Column::A, 0), 0);
    assert_eq!(Board::index_of(Column::A, 5), 5);
    assert_eq!(Board::index_of(Column::B, 0), 6);
    assert_eq!(Board::index_of(Column::C, 4), 16);
    assert_eq!(Board::index_of(Column::G, 5), 41);
}

#[test]
fn place_fills_upward_while_gravity_is_down() {
    let mut board = Board::new();
    assert_eq!(board.target_row(Column::C), 0);
    board.place_on_column(Column::C, Red);
    assert_eq!(board.column_height(Column::C), 1);
    assert_eq!(board.piece_at(Column::C, 0), Some(Red));
    assert_eq!(board.piece_at(Column::C, 1), None);
    assert_eq!(board.target_row(Column::C), 1);
    board.place_on_column(Column::C, Yellow);
    assert_eq!(board.column_height(Column::C), 2);
    assert_eq!(board.piece_at(Column::C, 0), Some(Red));
    assert_eq!(board.piece_at(Column::C, 1), Some(Yellow));
    assert_eq!(heights(&board), vec![0, 0, 2, 0, 0, 0, 0]);
    let others = cells(&board).iter().filter(|p| p.is_some()).count();
    assert_eq!(others, 2);
}

#[test]
fn heights_count_the_placements() {
    let mut board = Board::new();
    for n in 1..=6u8 {
        assert!(!board.column_full(Column::E));
        board.place_on_column(Column::E, if n % 2 == 0 { Red } else { Yellow });
        assert_eq!(board.column_height(Column::E), n);
        assert_eq!(heights(&board), vec![0, 0, 0, 0, n, 0, 0]);
    }
    assert!(board.column_full(Column::E));
    assert_eq!(
        column_cells(&board, Column::E),
        vec![Some(Yellow), Some(Red), Some(Yellow), Some(Red), Some(Yellow), Some(Red)]
    );
}

#[test]
fn heights_count_the_placements_across_flips() {
    let mut board = Board::new();
    let order = [
        Column::A,
        Column::C,
        Column::A,
        Column::G,
        Column::C,
        Column::A,
        Column::A,
        Column::G,
        Column::A,
        Column::A,
    ];
    let mut want = vec![0u8; 7];
    for (n, column) in order.iter().enumerate() {
        board.place_on_column(*column, if n % 3 == 0 { Red } else { Yellow });
        want[column.to_idx()] += 1;
        if n % 2 == 1 {
            board.flip();
        }
        assert_eq!(heights(&board), want);
    }
    assert_eq!(want, vec![6, 0, 2, 0, 0, 0, 2]);
    assert!(board.column_full(Column::A));
}

#[test]
fn piece_at_above_the_board_is_none() {
    let mut board = Board::new();
    fill(&mut board, Column::A, &[Red; 6]);
    fill(&mut board, Column::B, &[Yellow; 6]);
    assert_eq!(board.piece_at(Column::A, 6), None);
    assert_eq!(board.piece_at(Column::A, 7), None);
    assert_eq!(board.piece_at(Column::G, 200), None);
    assert_eq!(board.piece_at(Column::A, 255), None);
}

#[test]
fn allowed_columns_leave_out_the_full_ones() {
    let mut board = Board::new();
    fill(&mut board, Column::A, &[Red, Yellow, Red, Yellow, Red, Yellow]);
    fill(&mut board, Column::D, &[Yellow, Red, Yellow, Red, Yellow, Red]);
    fill(&mut board, Column::G, &[Red, Yellow, Red, Yellow, Red]);
    assert_eq!(
        board.allowed_columns().into_vec(),
        vec![Column::B, Column::C, Column::E, Column::F, Column::G]
    );
    board.place_on_column(Column::G, Yellow);
    assert_eq!(
        AllowedColumnsIterator::from_board(&board).into_vec(),
        vec![Column::B, Column::C, Column::E, Column::F]
    );
    assert_eq!(
        board.allowed_columns().into_vec(),
        board.allowed_columns().into_vec()
    );
}

#[test]
fn empty_allowed_columns_hold_nothing() {
    assert_eq!(AllowedColumnsIterator::new_empty().into_vec(), Vec::<Column>::new());
}

#[test]
fn flip_moves_a_stack_to_the_other_end() {
    let mut board = Board::new();
    fill(&mut board, Column::B, &[Red, Yellow, Yellow]);
    fill(&mut board, Column::F, &[Yellow]);
    board.flip();
    assert!(!board.gravity_down());
    assert_eq!(heights(&board), vec![0, 3, 0, 0, 0, 1, 0]);
    assert_eq!(
        column_cells(&board, Column::B),
        vec![None, None, None, Some(Red), Some(Yellow), Some(Yellow)]
    );
    assert_eq!(
        column_cells(&board, Column::F),
        vec![None, None, None, None, None, Some(Yellow)]
    );
    assert_eq!(column_cells(&board, Column::A), vec![None; 6]);
    assert_eq!(column_cells(&board, Column::C), vec![None; 6]);
    assert_eq!(cells(&board).iter().filter(|p| p.is_some()).count(), 4);
}

#[test]
fn flip_back_moves_a_stack_down_again() {
    let mut board = Board::new();
    fill(&mut board, Column::B, &[Red, Yellow]);
    board.flip();
    assert_eq!(board.target_row(Column::B), 3);
    board.place_on_column(Column::B, Red);
    assert_eq!(
        column_cells(&board, Column::B),
        vec![None, None, None, Some(Red), Some(Red), Some(Yellow)]
    );
    assert_eq!(board.target_row(Column::D), 5);
    board.place_on_column(Column::D, Yellow);
    assert_eq!(board.piece_at(Column::D, 5), Some(Yellow));
    board.flip();
    assert!(board.gravity_down());
    assert_eq!(
        column_cells(&board, Column::B),
        vec![Some(Red), Some(Red), Some(Yellow), None, None, None]
    );
    assert_eq!(
        column_cells(&board, Column::D),
        vec![Some(Yellow), None, None, None, None, None]
    );
    assert_eq!(heights(&board), vec![0, 3, 0, 1, 0, 0, 0]);
}

#[test]
fn flip_leaves_full_and_empty_columns() {
    let mut board = Board::new();
    let stack = [Red, Red, Yellow, Red, Yellow, Yellow];
    fill(&mut board, Column::C, &stack);
    let before = cells(&board);
    board.flip();
    assert_eq!(cells(&board), before);
    assert!(!board.gravity_down());
    assert!(board.column_full(Column::C));
    assert_eq!(board.allowed_columns().into_vec().len(), 6);
}

#[test]
fn flip_twice_restores_the_board() {
    let mut board = Board::new();
    fill(&mut board, Column::A, &[Red]);
    fill(&mut board, Column::B, &[Yellow, Red]);
    fill(&mut board, Column::C, &[Yellow, Yellow, Red]);
    fill(&mut board, Column::D, &[Red, Yellow, Red, Yellow]);
    fill(&mut board, Column::E, &[Red, Red, Yellow, Yellow, Red]);
    fill(&mut board, Column::F, &[Yellow, Red, Red, Yellow, Red, Yellow]);
    let before = cells(&board);
    let heights_before = heights(&board);
    board.flip();
    assert_ne!(cells(&board), before);
    assert_eq!(heights(&board), heights_before);
    board.flip();
    assert_eq!(cells(&board), before);
    assert_eq!(heights(&board), heights_before);
    assert!(board.gravity_down());

    board.flip();
    board.place_on_column(Column::G, Red);
    board.place_on_column(Column::A, Yellow);
    let up = cells(&board);
    board.flip();
    board.flip();
    assert_eq!(cells(&board), up);
    assert!(!board.gravity_down());
}

#[test]
fn flip_keeps_neighbouring_columns_apart() {
    let mut board = Board::new();
    fill(&mut board, Column::A, &[Red, Red, Red, Red, Red]);
    fill(&mut board, Column::B, &[Yellow]);
    fill(&mut board, Column::C, &[Red, Red, Red, Red, Red]);
    board.flip();
    assert_eq!(
        column_cells(&board, Column::A),
        vec![None, Some(Red), Some(Red), Some(Red), Some(Red), Some(Red)]
    );
    assert_eq!(
        column_cells(&board, Column::B),
        vec![None, None, None, None, None, Some(Yellow)]
    );
    assert_eq!(
        column_cells(&board, Column::C),
        vec![None, Some(Red), Some(Red), Some(Red), Some(Red), Some(Red)]
    );
    board.flip();
    assert_eq!(
        column_cells(&board, Column::B),
        vec![Some(Yellow), None, None, None, None, None]
    );
    assert_eq!(board.piece_at(Column::A, 5), None);
    assert_eq!(board.piece_at(Column::C, 0), Some(Red));
}

#[test]
fn check_win_on_an_empty_cell_is_none() {
    let mut board = Board::new();
    fill(&mut board, Column::A, &[Red, Red, Red, Red]);
    assert_eq!(board.check_win(Column::A, 4), None);
    assert_eq!(board.check_win(Column::B, 0), None);
    assert_eq!(board.check_win(Column::A, 9), None);
}

#[test]
fn check_win_vertical() {
    let mut board = Board::new();
    fill(&mut board, Column::D, &[Yellow, Red, Red, Red]);
    assert_eq!(board.check_win(Column::D, 3), None);
    assert_eq!(board.check_win_all(), None);
    board.place_on_column(Column::D, Red);
    for r in 1..5u8 {
        assert_eq!(board.check_win(Column::D, r), Some(Winner::Red));
    }
    assert_eq!(board.check_win(Column::D, 0), None);
    assert_eq!(board.check_win_all(), Some(Winner::Red));
}

#[test]
fn check_win_horizontal_completed_in_the_middle() {
    let mut board = Board::new();
    fill(&mut board, Column::B, &[Yellow]);
    fill(&mut board, Column::C, &[Yellow]);
    fill(&mut board, Column::E, &[Yellow]);
    assert_eq!(board.check_win(Column::C, 0), None);
    assert_eq!(board.check_win(Column::E, 0), None);
    board.place_on_column(Column::D, Yellow);
    for c in [Column::B, Column::C, Column::D, Column::E] {
        assert_eq!(board.check_win(c, 0), Some(Winner::Yellow));
    }
    assert_eq!(board.check_win_all(), Some(Winner::Yellow));
}

#[test]
fn check_win_rising_diagonal() {
    let mut board = Board::new();
    fill(&mut board, Column::D, &[Red]);
    fill(&mut board, Column::E, &[Yellow, Red]);
    fill(&mut board, Column::F, &[Yellow, Yellow, Red]);
    fill(&mut board, Column::G, &[Yellow, Red, Yellow]);
    assert_eq!(board.check_win_all(), None);
    board.place_on_column(Column::G, Red);
    assert_eq!(board.check_win(Column::G, 3), Some(Winner::Red));
    assert_eq!(board.check_win(Column::D, 0), Some(Winner::Red));
    assert_eq!(board.check_win(Column::E, 1), Some(Winner::Red));
    assert_eq!(board.check_win(Column::F, 2), Some(Winner::Red));
    assert_eq!(board.check_win(Column::E, 0), None);
    assert_eq!(board.check_win(Column::G, 2), None);
}

#[test]
fn check_win_falling_diagonal() {
    let mut board = Board::new();
    fill(&mut board, Column::A, &[Red, Yellow, Red, Yellow]);
    fill(&mut board, Column::B, &[Red, Red, Yellow]);
    fill(&mut board, Column::D, &[Yellow]);
    assert_eq!(board.check_win_all(), None);
    fill(&mut board, Column::C, &[Red, Yellow]);
    assert_eq!(board.check_win(Column::C, 1), Some(Winner::Yellow));
    assert_eq!(board.check_win(Column::A, 3), Some(Winner::Yellow));
    assert_eq!(board.check_win(Column::B, 2), Some(Winner::Yellow));
    assert_eq!(board.check_win(Column::D, 0), Some(Winner::Yellow));
    assert_eq!(board.check_win(Column::C, 0), None);
    assert_eq!(board.check_win_all(), Some(Winner::Yellow));
}

#[test]
fn check_win_needs_four_on_one_axis() {
    let mut board = Board::new();
    // three along the row and three up the column through one cell
    fill(&mut board, Column::A, &[Red, Red, Red]);
    fill(&mut board, Column::B, &[Red]);
    fill(&mut board, Column::C, &[Red]);
    assert_eq!(board.check_win(Column::A, 0), None);
    assert_eq!(board.check_win_all(), None);
}

#[test]
fn check_win_stops_at_another_colour() {
    let mut board = Board::new();
    fill(&mut board, Column::A, &[Red]);
    fill(&mut board, Column::B, &[Red]);
    fill(&mut board, Column::C, &[Yellow]);
    fill(&mut board, Column::D, &[Red]);
    fill(&mut board, Column::E, &[Red]);
    fill(&mut board, Column::F, &[Red]);
    for c in [Column::A, Column::B, Column::C, Column::D, Column::E, Column::F] {
        assert_eq!(board.check_win(c, 0), None);
    }
    board.place_on_column(Column::G, Red);
    assert_eq!(board.check_win(Column::G, 0), Some(Winner::Red));
    assert_eq!(board.check_win(Column::D, 0), Some(Winner::Red));
    assert_eq!(board.check_win(Column::B, 0), None);
    assert_eq!(board.check_win(Column::C, 0), None);
}

#[test]
fn check_win_counts_a_run_of_seven() {
    let mut board = Board::new();
    for c in [Column::A, Column::B, Column::C, Column::E, Column::F, Column::G] {
        board.place_on_column(c, Yellow);
    }
    assert_eq!(board.check_win_all(), None);
    board.place_on_column(Column::D, Yellow);
    for c in Column::all() {
        assert_eq!(board.check_win(c, 0), Some(Winner::Yellow));
    }
}

#[test]
fn check_win_all_takes_the_first_cell_in_column_order() {
    let mut board = Board::new();
    fill(&mut board, Column::B, &[Yellow, Yellow, Yellow, Yellow]);
    fill(&mut board, Column::A, &[Red, Red, Red, Red]);
    assert_eq!(board.check_win(Column::B, 0), Some(Winner::Yellow));
    assert_eq!(board.check_win_all(), Some(Winner::Red));

    let mut other = Board::new();
    fill(&mut other, Column::F, &[Red, Red, Red, Red]);
    fill(&mut other, Column::C, &[Red, Yellow, Yellow, Yellow, Yellow]);
    assert_eq!(other.check_win_all(), Some(Winner::Yellow));
}

#[test]
fn check_win_after_a_flip_reads_the_moved_cells() {
    let mut board = Board::new();
    fill(&mut board, Column::A, &[Red, Yellow]);
    fill(&mut board, Column::B, &[Red, Red, Yellow]);
    fill(&mut board, Column::C, &[Yellow]);
    fill(&mut board, Column::D, &[Red, Yellow]);
    assert_eq!(board.check_win_all(), None);
    board.flip();
    // the top row now holds the last piece of each column
    assert_eq!(board.piece_at(Column::A, 5), Some(Yellow));
    assert_eq!(board.piece_at(Column::B, 5), Some(Yellow));
    assert_eq!(board.piece_at(Column::C, 5), Some(Yellow));
    assert_eq!(board.piece_at(Column::D, 5), Some(Yellow));
    assert_eq!(board.check_win(Column::C, 5), Some(Winner::Yellow));
    assert_eq!(board.check_win(Column::A, 4), None);
    assert_eq!(board.check_win_all(), Some(Winner::Yellow));
}

#[test]
fn full_board_without_four_is_a_tie() {
    // columns read from row 0 up
    let columns = [
        [Yellow, Yellow, Red, Yellow, Red, Yellow],
        [Red, Red, Yellow, Red, Yellow, Red],
        [Yellow, Red, Yellow, Yellow, Red, Yellow],
        [Yellow, Red, Red, Yellow, Red, Yellow],
        [Red, Yellow, Red, Yellow, Red, Red],
        [Red, Yellow, Red, Red, Yellow, Yellow],
        [Red, Yellow, Yellow, Red, Yellow, Red],
    ];
    let mut board = Board::new();
    for (c, stack) in Column::all().iter().zip(columns.iter()) {
        for (r, colour) in stack.iter().enumerate() {
            if *c == Column::G && r == 5 {
                assert_eq!(board.check_win_all(), None);
            }
            board.place_on_column(*c, *colour);
        }
    }
    assert_eq!(board.allowed_columns().into_vec(), Vec::<Column>::new());
    for c in Column::all() {
        for r in 0..6u8 {
            assert_eq!(board.check_win(c, r), Some(Winner::Tie));
        }
    }
    assert_eq!(board.check_win_all(), Some(Winner::Tie));
}

#[test]
fn full_board_with_four_is_a_win() {
    let mut board = Board::new();
    for c in Column::all() {
        let stack = if c.to_idx() % 2 == 0 {
            [Red, Yellow, Red, Yellow, Red, Yellow]
        } else {
            [Yellow, Red, Yellow, Red, Yellow, Red]
        };
        fill(&mut board, c, &stack);
    }
    // every diagonal is of one colour
    assert_eq!(board.check_win(Column::D, 2), Some(Winner::Yellow));
    assert_eq!(board.check_win(Column::A, 0), Some(Winner::Red));
    assert_eq!(board.check_win(Column::A, 5), Some(Winner::Yellow));
    assert_eq!(board.check_win(Column::G, 5), Some(Winner::Yellow));
    assert_eq!(board.check_win_all(), Some(Winner::Red));
}
