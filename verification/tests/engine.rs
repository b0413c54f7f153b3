use tictactoe::tictactoe_ai_player::Ai;
use tictactoe::tictactoe_core::{SquareState, TicTacToe, TurnState};

/// The game-theoretic value of `board` for the side to move, by a plain
/// exhaustive traversal: 1 when X can force a win, -1 when O can, 0 for
/// a draw under best play.
fn brute_value(board: &TicTacToe, x_to_move: bool) -> i32 {
    let symbol = if x_to_move { 'X' } else { 'O' };
    let mut best: Option<i32> = None;
    for i in 0..board.size() {
        if board.get_square_by_index(i) != Some(SquareState::Empty) {
            continue;
        }
        let mut child = board.clone_board();
        let outcome = match child.set_square_from_index(i, SquareState::Filled(symbol)) {
            TurnState::Victory => {
                if x_to_move {
                    1
                } else {
                    -1
                }
            }
            TurnState::Draw => 0,
            TurnState::Continue => brute_value(&child, !x_to_move),
            TurnState::Error => unreachable!(),
        };
        best = Some(match best {
            None => outcome,
            Some(b) => {
                if x_to_move {
                    b.max(outcome)
                } else {
                    b.min(outcome)
                }
            }
        });
    }
    best.expect("no legal move")
}

/// The value X achieves by playing (x, y) on `board`.
fn brute_value_of_move(board: &TicTacToe, x: usize, y: usize) -> i32 {
    let mut child = board.clone_board();
    match child.set_square(x, y, SquareState::Filled('X')) {
        TurnState::Victory => 1,
        TurnState::Draw => 0,
        TurnState::Continue => brute_value(&child, false),
        TurnState::Error => panic!("agent chose an occupied cell"),
    }
}

#[test]
fn forced_win_is_taken() {
    // X at (0,0) and (1,1), X to move: (2,2) completes the diagonal,
    // and the terminal win score dominates every heuristic score.
    let mut board = TicTacToe::new(3, 3, 3, ' ');
    board.set_square(0, 0, SquareState::Filled('X'));
    board.set_square(1, 1, SquareState::Filled('X'));
    let mut ai = Ai::create(0, 1, 'X', 'O');
    assert_eq!(ai.act(board.clone_board()), (2, 2));
}

#[test]
fn forced_block_is_taken() {
    // O threatens the rising diagonal (0,2)-(1,1)-(2,0); the defense
    // amplification fires only at (2,0), so X blocks there.
    let mut board = TicTacToe::new(3, 3, 3, ' ');
    board.set_square(0, 0, SquareState::Filled('X'));
    board.set_square(0, 2, SquareState::Filled('O'));
    board.set_square(1, 1, SquareState::Filled('O'));
    let mut ai = Ai::create(0, 1, 'X', 'O');
    assert_eq!(ai.act(board.clone_board()), (2, 0));
}

#[test]
fn last_empty_cell_is_chosen() {
    let x = SquareState::Filled('X');
    let o = SquareState::Filled('O');
    let mut board = TicTacToe::new(3, 3, 3, ' ');
    // X O X
    // X O O
    // O X _
    board.set_square(0, 0, x);
    board.set_square(2, 0, x);
    board.set_square(0, 1, x);
    board.set_square(1, 2, x);
    board.set_square(1, 0, o);
    board.set_square(1, 1, o);
    board.set_square(2, 1, o);
    board.set_square(0, 2, o);
    let mut ai = Ai::create(0, 0, 'X', 'O');
    assert_eq!(ai.act(board.clone_board()), (2, 2));
}

#[test]
fn search_matches_plain_minimax() {
    // With no candidate cap and unbounded depth, the cell the agent
    // picks must achieve the value of an exhaustive minimax traversal.
    let x = SquareState::Filled('X');
    let o = SquareState::Filled('O');
    let mut boards: Vec<TicTacToe> = Vec::new();

    let mut b1 = TicTacToe::new(3, 3, 3, ' ');
    b1.set_square(0, 0, x);
    b1.set_square(1, 1, o);
    boards.push(b1);

    let mut b2 = TicTacToe::new(3, 3, 3, ' ');
    b2.set_square(0, 0, x);
    b2.set_square(1, 1, x);
    b2.set_square(0, 1, o);
    boards.push(b2);

    let mut b3 = TicTacToe::new(3, 3, 3, ' ');
    b3.set_square(1, 1, x);
    b3.set_square(0, 1, o);
    b3.set_square(2, 2, x);
    b3.set_square(0, 0, o);
    boards.push(b3);

    for board in &boards {
        let optimal = brute_value(board, true);
        let mut ai = Ai::create(0, 0, 'X', 'O');
        let (cx, cy) = ai.act(board.clone_board());
        assert_eq!(brute_value_of_move(board, cx, cy), optimal);
    }
}

#[test]
fn widening_the_candidate_cap_never_hurts() {
    // A winning move sorts first, so it stays in the kept list for
    // every positive cap: the achieved value never drops as the cap
    // grows.
    let mut board = TicTacToe::new(3, 3, 3, ' ');
    board.set_square(0, 0, SquareState::Filled('X'));
    board.set_square(1, 1, SquareState::Filled('X'));
    let mut previous = i32::MIN;
    for cap in 1..=7 {
        let mut ai = Ai::create(cap, 1, 'X', 'O');
        let (cx, cy) = ai.act(board.clone_board());
        let value = brute_value_of_move(&board, cx, cy);
        assert!(value >= previous);
        previous = value;
    }
    assert_eq!(previous, 1);
}

#[test]
fn heuristic_of_the_opening_center_move() {
    // center: no attack or defense hits, all four axes open (400),
    // eight empty neighbors (80)
    let mut board = TicTacToe::new(3, 3, 3, ' ');
    board.set_square(1, 1, SquareState::Filled('X'));
    let ai = Ai::create(0, 6, 'X', 'O');
    let i = board.get_coord_index(1, 1);
    assert_eq!(ai.get_move_heuristic(&board, SquareState::Filled('X'), i, true), 480);

    let mut board2 = TicTacToe::new(3, 3, 3, ' ');
    board2.set_square(1, 1, SquareState::Filled('O'));
    assert_eq!(ai.get_move_heuristic(&board2, SquareState::Filled('O'), i, false), -480);
}

#[test]
fn two_full_depth_agents_draw() {
    // both sides search every move to the end of the game, so the
    // classic result holds: the game ends in a draw
    let mut board = TicTacToe::new(3, 3, 3, ' ');
    let mut player_x = Ai::create(0, 0, 'X', 'O');
    let mut player_o = Ai::create(0, 0, 'O', 'X');
    let mut x_to_move = true;
    loop {
        let (cx, cy) = if x_to_move {
            player_x.act(board.clone_board())
        } else {
            player_o.act(board.clone_board())
        };
        let symbol = if x_to_move { 'X' } else { 'O' };
        match board.set_square(cx, cy, SquareState::Filled(symbol)) {
            TurnState::Continue => x_to_move = !x_to_move,
            TurnState::Draw => break,
            TurnState::Victory => panic!("optimal play must not lose"),
            TurnState::Error => panic!("agent chose an occupied cell"),
        }
    }
    assert!(board.check_draw());
}

#[test]
fn capped_agent_still_moves_legally() {
    let mut board = TicTacToe::new(4, 4, 3, ' ');
    board.set_square(1, 1, SquareState::Filled('O'));
    let mut ai = Ai::create(3, 2, 'X', 'O');
    let (cx, cy) = ai.act(board.clone_board());
    assert!(cx < 4 && cy < 4);
    assert_eq!(board.get_square(cx, cy), Some(SquareState::Empty));
}
