use tictactoe::tictactoe_core::{SquareState, TurnState};
use tictactoe::tictactoe_game::{AiDifficulties, PlayerType, TicTacToeGame};

#[test]
fn default_one_player_game() {
    let g = TicTacToeGame::load_default_1player_game(AiDifficulties::Hard);
    assert_eq!(g.board.size(), 9);
    assert_eq!(g.player1.square_symbol, 'X');
    assert_eq!(g.player2.square_symbol, 'O');
    assert_eq!(g.player1.name, "Player 1");
    assert_eq!(g.player2.name, "Player 2");
    assert!(matches!(g.player1.p_type, PlayerType::Human));
    match &g.player2.p_type {
        PlayerType::Computer(ai) => {
            assert_eq!(ai.symbol, 'O');
            assert_eq!(ai.op_symbol, 'X');
        }
        PlayerType::Human => panic!("player 2 should be a computer"),
    }
}

#[test]
fn default_ai_game_has_two_computers() {
    let g = TicTacToeGame::load_default_ai_game(AiDifficulties::Easy, AiDifficulties::Medium);
    assert!(matches!(g.player1.p_type, PlayerType::Computer(_)));
    assert!(matches!(g.player2.p_type, PlayerType::Computer(_)));
}

#[test]
fn symbol_changes_follow_into_the_ai() {
    let mut g = TicTacToeGame::load_default_1player_game(AiDifficulties::Medium);
    g.set_player1_symbol('A');
    g.set_player2_symbol('B');
    assert_eq!(g.player1.square_symbol, 'A');
    assert_eq!(g.player2.square_symbol, 'B');
    match &g.player2.p_type {
        PlayerType::Computer(ai) => {
            assert_eq!(ai.symbol, 'B');
            assert_eq!(ai.op_symbol, 'A');
        }
        PlayerType::Human => panic!("player 2 should be a computer"),
    }
}

#[test]
fn change_size_validates_its_arguments() {
    let mut g = TicTacToeGame::load_default_2player_game();
    assert!(g.change_size(10, 4));
    assert_eq!(g.board.size(), 100);
    assert_eq!(g.board.seq_to_win, 4);
    // a run longer than the board is rejected, as are zero sizes
    assert!(!g.change_size(3, 4));
    assert!(!g.change_size(0, 0));
    assert!(!g.change_size(5, 0));
    assert_eq!(g.board.size(), 100);
}

#[test]
fn reload_clears_the_board() {
    let mut g = TicTacToeGame::load_default_2player_game();
    g.set_first_player(2);
    assert_eq!(g.board.set_square(0, 0, SquareState::Filled('X')), TurnState::Continue);
    g.reload_game();
    for i in 0..9 {
        assert_eq!(g.board.get_square_by_index(i), Some(SquareState::Empty));
    }
}

#[test]
fn empty_space_symbol_is_configurable() {
    let mut g = TicTacToeGame::load_default_2player_game();
    g.set_empty_space_symbol('.');
    assert_eq!(g.board.empty_space_symbol, '.');
}
