use tictactoe::tictactoe_core::{SpecialBoardChecks, SquareState, TicTacToe, TurnState};

#[test]
fn coordinate_round_trip() {
    let board = TicTacToe::new(4, 3, 3, ' ');
    for y in 0..3 {
        for x in 0..4 {
            let i = board.get_coord_index(x, y);
            assert_eq!(board.get_index_coord(i), (x, y));
        }
    }
    assert_eq!(board.get_coord_index(0, 0), 0);
    assert_eq!(board.get_coord_index(3, 2), 11);
    assert_eq!(board.get_index_coord(5), (1, 1));
}

#[test]
fn new_board_is_empty() {
    let board = TicTacToe::new(3, 3, 3, '.');
    assert_eq!(board.size(), 9);
    assert!(!board.check_draw());
    for i in 0..9 {
        assert_eq!(board.get_square_by_index(i), Some(SquareState::Empty));
    }
    assert_eq!(board.get_square_by_index(9), None);
    assert_eq!(board.get_square(3, 0), None);
    assert_eq!(board.get_square(0, 3), None);
}

#[test]
fn occupied_cell_is_rejected() {
    let mut board = TicTacToe::new(3, 3, 3, ' ');
    assert_eq!(board.set_square(1, 1, SquareState::Filled('X')), TurnState::Continue);
    assert_eq!(board.set_square(1, 1, SquareState::Filled('O')), TurnState::Error);
    assert_eq!(board.get_square(1, 1), Some(SquareState::Filled('X')));
}

#[test]
fn win_along_each_axis() {
    let x = SquareState::Filled('X');
    // row
    let mut board = TicTacToe::new(3, 3, 3, ' ');
    assert_eq!(board.set_square(0, 1, x), TurnState::Continue);
    assert_eq!(board.set_square(1, 1, x), TurnState::Continue);
    assert_eq!(board.set_square(2, 1, x), TurnState::Victory);
    // column
    let mut board = TicTacToe::new(3, 3, 3, ' ');
    assert_eq!(board.set_square(2, 0, x), TurnState::Continue);
    assert_eq!(board.set_square(2, 2, x), TurnState::Continue);
    assert_eq!(board.set_square(2, 1, x), TurnState::Victory);
    // falling diagonal, completed in the middle
    let mut board = TicTacToe::new(3, 3, 3, ' ');
    assert_eq!(board.set_square(0, 0, x), TurnState::Continue);
    assert_eq!(board.set_square(2, 2, x), TurnState::Continue);
    assert_eq!(board.set_square(1, 1, x), TurnState::Victory);
    // rising diagonal
    let mut board = TicTacToe::new(3, 3, 3, ' ');
    assert_eq!(board.set_square(0, 2, x), TurnState::Continue);
    assert_eq!(board.set_square(1, 1, x), TurnState::Continue);
    assert_eq!(board.set_square(2, 0, x), TurnState::Victory);
}

#[test]
fn one_cell_short_is_no_win() {
    let x = SquareState::Filled('X');
    let mut board = TicTacToe::new(4, 4, 3, ' ');
    assert_eq!(board.set_square(0, 0, x), TurnState::Continue);
    assert_eq!(board.set_square(1, 1, x), TurnState::Continue);
    // the third cell of the diagonal is missing
    assert_eq!(board.set_square(3, 3, x), TurnState::Continue);
}

#[test]
fn rows_do_not_wrap_around() {
    let x = SquareState::Filled('X');
    let mut board = TicTacToe::new(3, 3, 3, ' ');
    // flat indices 1, 2, 3 are contiguous in memory but not on the board
    assert_eq!(board.set_square_from_index(1, x), TurnState::Continue);
    assert_eq!(board.set_square_from_index(2, x), TurnState::Continue);
    assert_eq!(board.set_square_from_index(3, x), TurnState::Continue);
}

#[test]
fn full_board_without_line_is_a_draw() {
    let x = SquareState::Filled('X');
    let o = SquareState::Filled('O');
    let mut board = TicTacToe::new(3, 3, 3, ' ');
    // X O X
    // X O O
    // O X X
    assert_eq!(board.set_square(0, 0, x), TurnState::Continue);
    assert_eq!(board.set_square(2, 0, x), TurnState::Continue);
    assert_eq!(board.set_square(0, 1, x), TurnState::Continue);
    assert_eq!(board.set_square(1, 2, x), TurnState::Continue);
    assert_eq!(board.set_square(1, 0, o), TurnState::Continue);
    assert_eq!(board.set_square(1, 1, o), TurnState::Continue);
    assert_eq!(board.set_square(2, 1, o), TurnState::Continue);
    assert_eq!(board.set_square(0, 2, o), TurnState::Continue);
    assert_eq!(board.set_square(2, 2, x), TurnState::Draw);
    assert!(board.check_draw());
}

#[test]
fn clear_empties_the_board() {
    let x = SquareState::Filled('X');
    let mut board = TicTacToe::new(3, 3, 3, ' ');
    board.set_square(0, 0, x);
    board.set_square(1, 1, x);
    board.clear();
    assert!(!board.check_draw());
    for i in 0..9 {
        assert_eq!(board.get_square_by_index(i), Some(SquareState::Empty));
    }
}

#[test]
fn winnable_distance_counts() {
    let x = SquareState::Filled('X');
    let o = SquareState::Filled('O');
    let mut board = TicTacToe::new(3, 3, 3, ' ');
    board.set_square(0, 0, x);
    board.set_square(1, 0, x);
    // at the cell of the first X: one more X in row reach, none elsewhere
    let i = board.get_coord_index(0, 0);
    assert_eq!(board.sum_squares_in_winnable_distance(i, x, false), 1);
    assert_eq!(board.sum_squares_in_winnable_distance(i, x, true), 1);
    assert_eq!(board.sum_squares_in_winnable_distance(i, o, false), 0);
}

#[test]
fn neighborhood_and_axis_counts() {
    let x = SquareState::Filled('X');
    let mut board = TicTacToe::new(3, 3, 3, ' ');
    board.set_square(1, 1, x);
    let center = board.get_coord_index(1, 1);
    let corner = board.get_coord_index(0, 0);
    assert_eq!(board.spaces_of_around(center, SquareState::Empty), 8);
    assert_eq!(board.spaces_of_around(corner, SquareState::Empty), 2);
    assert_eq!(board.spaces_of_around(corner, x), 1);
    assert_eq!(board.check_n_of_available_axis(center, x), 4);
    // through a corner only the row, the column and one diagonal can win
    assert_eq!(board.check_n_of_available_axis(corner, x), 3);
}

#[test]
fn run_length_beyond_the_board_never_wins() {
    // a 2-by-2 board cannot hold 3 in a row: the game runs to a draw
    let x = SquareState::Filled('X');
    let o = SquareState::Filled('O');
    let mut board = TicTacToe::new(2, 2, 3, ' ');
    assert_eq!(board.set_square(0, 0, x), TurnState::Continue);
    assert_eq!(board.set_square(1, 0, o), TurnState::Continue);
    assert_eq!(board.set_square(0, 1, x), TurnState::Continue);
    assert_eq!(board.set_square(1, 1, o), TurnState::Draw);
}

#[test]
fn run_length_one_wins_at_once() {
    let mut board = TicTacToe::new(2, 2, 1, ' ');
    assert_eq!(board.set_square(1, 0, SquareState::Filled('X')), TurnState::Victory);
}

#[test]
fn blocked_opponent_spaces_vector() {
    let x = SquareState::Filled('X');
    let o = SquareState::Filled('O');
    let mut board = TicTacToe::new(3, 3, 3, ' ');
    board.set_square(0, 2, o);
    board.set_square(1, 1, o);
    board.set_square(2, 0, x);
    // at (2, 0) the rising diagonal holds both O cells
    let i = board.get_coord_index(2, 0);
    assert_eq!(board.check_blocked_op_spaces(i, o), [0, 0, 0, 2]);
}
