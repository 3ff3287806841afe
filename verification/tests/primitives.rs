use connect_four::colour::{Colour, Winner};
use connect_four::column::{row_offset, Column, BOARD_HEIGHT, BOARD_WIDTH};
use connect_four::fitness::Fitness;
use connect_four::win::direction;

#[test]
fn board_is_seven_by_six() {
    assert_eq!(BOARD_WIDTH, 7);
    assert_eq!(BOARD_HEIGHT, 6);
}

#[test]
fn colour_invert_swaps_the_two_colours() {
    assert_eq!(Colour::Red.invert(), Colour::Yellow);
    assert_eq!(Colour::Yellow.invert(), Colour::Red);
    assert_eq!(Colour::Red.invert().invert(), Colour::Red);
    assert_eq!(Colour::Yellow.invert().invert(), Colour::Yellow);
}

#[test]
fn colour_bit_round_trip() {
    assert!(Colour::Red.to_bool());
    assert!(!Colour::Yellow.to_bool());
    assert_eq!(Colour::from_bool(true), Colour::Red);
    assert_eq!(Colour::from_bool(false), Colour::Yellow);
    assert_eq!(Colour::from_bool(Colour::Red.to_bool()), Colour::Red);
    assert_eq!(Colour::from_bool(Colour::Yellow.to_bool()), Colour::Yellow);
}

#[test]
fn colour_letters() {
    assert_eq!(Colour::Red.letter(), 'R');
    assert_eq!(Colour::Yellow.letter(), 'Y');
}

#[test]
fn winner_from_colour_and_back() {
    assert_eq!(Winner::from_colour(Colour::Red), Winner::Red);
    assert_eq!(Winner::from_colour(Colour::Yellow), Winner::Yellow);
    assert_eq!(Winner::Red.to_colour(), Some(Colour::Red));
    assert_eq!(Winner::Yellow.to_colour(), Some(Colour::Yellow));
    assert_eq!(Winner::Tie.to_colour(), None);
}

#[test]
fn column_all_is_ascending() {
    let all = Column::all();
    assert_eq!(
        all,
        [Column::A, Column::B, Column::C, Column::D, Column::E, Column::F, Column::G]
    );
    for (i, c) in all.iter().enumerate() {
        assert_eq!(c.to_idx(), i);
    }
}

#[test]
fn column_from_idx_accepts_the_board_only() {
    assert_eq!(Column::from_idx(0), Some(Column::A));
    assert_eq!(Column::from_idx(3), Some(Column::D));
    assert_eq!(Column::from_idx(6), Some(Column::G));
    assert_eq!(Column::from_idx(7), None);
    assert_eq!(Column::from_idx(128), None);
    assert_eq!(Column::from_idx(255), None);
    for c in Column::all() {
        assert_eq!(Column::from_idx(c.to_idx() as u8), Some(c));
    }
}

#[test]
fn column_offset_within_the_board() {
    assert_eq!(Column::D.offset(0), Some(Column::D));
    assert_eq!(Column::D.offset(3), Some(Column::G));
    assert_eq!(Column::D.offset(-3), Some(Column::A));
    assert_eq!(Column::A.offset(6), Some(Column::G));
    assert_eq!(Column::G.offset(-6), Some(Column::A));
    assert_eq!(Column::B.offset(1), Some(Column::C));
    assert_eq!(Column::B.offset(-1), Some(Column::A));
}

#[test]
fn column_offset_off_the_board() {
    assert_eq!(Column::A.offset(-1), None);
    assert_eq!(Column::G.offset(1), None);
    assert_eq!(Column::A.offset(7), None);
    assert_eq!(Column::D.offset(4), None);
    assert_eq!(Column::D.offset(-4), None);
    assert_eq!(Column::A.offset(-128), None);
    assert_eq!(Column::G.offset(-128), None);
    assert_eq!(Column::A.offset(127), None);
    assert_eq!(Column::G.offset(127), None);
}

#[test]
fn column_letters() {
    let letters: Vec<char> = Column::all().iter().map(|c| c.letter()).collect();
    assert_eq!(letters, vec!['A', 'B', 'C', 'D', 'E', 'F', 'G']);
}

#[test]
fn row_offset_within_the_board() {
    assert_eq!(row_offset(0, 0), Some(0));
    assert_eq!(row_offset(2, 3), Some(5));
    assert_eq!(row_offset(5, -5), Some(0));
    assert_eq!(row_offset(0, 5), Some(5));
    assert_eq!(row_offset(3, -1), Some(2));
}

#[test]
fn row_offset_off_the_board() {
    assert_eq!(row_offset(0, -1), None);
    assert_eq!(row_offset(5, 1), None);
    assert_eq!(row_offset(2, 4), None);
    assert_eq!(row_offset(0, 6), None);
    assert_eq!(row_offset(0, -128), None);
    assert_eq!(row_offset(5, 127), None);
    assert_eq!(row_offset(255, 1), None);
    assert_eq!(row_offset(200, -128), None);
    assert_eq!(row_offset(6, 0), None);
}

#[test]
fn row_offset_brings_a_high_row_back() {
    assert_eq!(row_offset(9, -4), Some(5));
    assert_eq!(row_offset(100, -100), Some(0));
}

#[test]
fn fitness_is_ordered_loss_tie_win() {
    assert!(Fitness::Loss < Fitness::Tie);
    assert!(Fitness::Tie < Fitness::Win);
    assert!(Fitness::Loss < Fitness::Win);
    assert!(Fitness::Win > Fitness::Tie);
    assert!(Fitness::Tie >= Fitness::Tie);
    assert!(!(Fitness::Win < Fitness::Win));
    assert_eq!(Fitness::Loss.max(Fitness::Win), Fitness::Win);
    assert_eq!(Fitness::Tie.min(Fitness::Loss), Fitness::Loss);
    let mut all = vec![Fitness::Win, Fitness::Loss, Fitness::Tie];
    all.sort();
    assert_eq!(all, vec![Fitness::Loss, Fitness::Tie, Fitness::Win]);
}

#[test]
fn fitness_partial_order_agrees_with_total_order() {
    let all = [Fitness::Loss, Fitness::Tie, Fitness::Win];
    for a in all {
        for b in all {
            assert_eq!(a.partial_cmp(&b), Some(a.cmp(&b)));
        }
    }
}

#[test]
fn fitness_from_outcome() {
    assert_eq!(Fitness::from_outcome(None, Colour::Red), Fitness::Tie);
    assert_eq!(Fitness::from_outcome(None, Colour::Yellow), Fitness::Tie);
    assert_eq!(Fitness::from_outcome(Some(Winner::Tie), Colour::Red), Fitness::Tie);
    assert_eq!(Fitness::from_outcome(Some(Winner::Tie), Colour::Yellow), Fitness::Tie);
    assert_eq!(Fitness::from_outcome(Some(Winner::Red), Colour::Red), Fitness::Win);
    assert_eq!(Fitness::from_outcome(Some(Winner::Red), Colour::Yellow), Fitness::Loss);
    assert_eq!(Fitness::from_outcome(Some(Winner::Yellow), Colour::Yellow), Fitness::Win);
    assert_eq!(Fitness::from_outcome(Some(Winner::Yellow), Colour::Red), Fitness::Loss);
}

#[test]
fn directions_pair_up_on_four_axes() {
    let table = [
        (-1, 1, 0),
        (0, 1, 1),
        (1, 1, 2),
        (-1, 0, 3),
        (1, 0, 3),
        (-1, -1, 2),
        (0, -1, 1),
        (1, -1, 0),
    ];
    for (i, want) in table.iter().enumerate() {
        assert_eq!(direction(i), *want);
    }
    for i in 0..8 {
        let (dx, dy, axis) = direction(i);
        let (ox, oy, oaxis) = direction(7 - i);
        assert_eq!((dx, dy), (-ox, -oy));
        assert_eq!(axis, oaxis);
    }
}
