//! Game configuration: the board, the two players, their symbols and
//! who moves first.  The interactive loop that prompts, renders and
//! times the turns lives outside the library and drives these settings
//! through the functions here.

use vstd::prelude::*;
use vstd::string::StringExecFns;
use crate::tictactoe_ai_player::Ai;
use crate::tictactoe_core::{SquareState, TicTacToe, MAX_SEQ_TO_WIN};

verus! {

/// What controls a player's moves.
#[derive(Clone)]
pub enum PlayerType {
    Human,
    Computer(Ai),
}

/// One player: how it is controlled, its display name, and the symbol
/// it places on the board.
#[derive(Clone)]
pub struct Player {
    pub p_type: PlayerType,
    pub name: String,
    pub square_symbol: char,
}

/// Where the game stands: waiting to start, with the number of the
/// player that moves first, or at some player's turn.
#[derive(Clone)]
pub enum GameState {
    Begin(usize),
    Player(usize, Player),
}

/// Difficulty presets for the computer player.
pub enum AiDifficulties {
    Easy,
    Medium,
    Hard,
}

/// A configured game: the board, both players, and whose turn it is.
pub struct TicTacToeGame {
    pub board: TicTacToe,
    pub player1: Player,
    pub player2: Player,
    pub game_state: GameState,
    pub show_turn_info_mode: bool,
}

impl TicTacToeGame {
    /// Whether the game has not started yet.
    pub open spec fn not_started(&self) -> bool {
        self.game_state is Begin
    }

    /// The number of the player whose turn it is, or who will move
    /// first.
    pub open spec fn spec_player_number(&self) -> int {
        match self.game_state {
            GameState::Begin(n) => n as int,
            GameState::Player(n, _) => n as int,
        }
    }

    /// The computer player for a difficulty preset: how many candidate
    /// moves it keeps per node and how many plies it searches.
    pub fn create_ai(difficulty: AiDifficulties, symbol: char, op_symbol: char) -> (ai: Ai)
        ensures
            ai.symbol == symbol,
            ai.op_symbol == op_symbol,
            difficulty is Easy ==> ai.max_moves_to_analyze == 7 && ai.max_layers == 1,
            difficulty is Medium ==> ai.max_moves_to_analyze == 6 && ai.max_layers == 2,
            difficulty is Hard ==> ai.max_moves_to_analyze == 8 && ai.max_layers == 6,
    {
        let max_childs: usize;
        let max_layers: usize;
        match difficulty {
            AiDifficulties::Easy => {
                max_childs = 7;
                max_layers = 1;
            },
            AiDifficulties::Medium => {
                max_childs = 6;
                max_layers = 2;
            },
            AiDifficulties::Hard => {
                max_childs = 8;
                max_layers = 6;
            },
        }
        Ai::create(max_childs, max_layers, symbol, op_symbol)
    }

    /// A default game where the second player is a computer.
    pub fn load_default_1player_game(ai_difficulty: AiDifficulties) -> (g: TicTacToeGame)
        ensures
            g.board.wf(),
            g.not_started(),
            g.player1.p_type is Human,
            g.player2.p_type matches PlayerType::Computer(ai) && ai.symbol
                == g.player2.square_symbol && ai.op_symbol == g.player1.square_symbol,
    {
        let mut g = TicTacToeGame::default();
        let ai = TicTacToeGame::create_ai(
            ai_difficulty,
            g.player2.square_symbol,
            g.player1.square_symbol,
        );
        g.player2.p_type = PlayerType::Computer(ai);
        g
    }

    /// A default game between two humans.
    pub fn load_default_2player_game() -> (g: TicTacToeGame)
        ensures
            g.board.wf(),
            g.not_started(),
            g.player1.p_type is Human,
            g.player2.p_type is Human,
    {
        TicTacToeGame::default()
    }

    /// A default game between two computer players.
    pub fn load_default_ai_game(ai1_difficulty: AiDifficulties, ai2_difficulty: AiDifficulties) -> (g: TicTacToeGame)
        ensures
            g.board.wf(),
            g.not_started(),
            g.player1.p_type matches PlayerType::Computer(ai) && ai.symbol
                == g.player1.square_symbol && ai.op_symbol == g.player2.square_symbol,
            g.player2.p_type matches PlayerType::Computer(ai) && ai.symbol
                == g.player2.square_symbol && ai.op_symbol == g.player1.square_symbol,
    {
        let mut g = TicTacToeGame::load_default_1player_game(ai2_difficulty);
        let ai = TicTacToeGame::create_ai(
            ai1_difficulty,
            g.player1.square_symbol,
            g.player2.square_symbol,
        );
        g.player1.p_type = PlayerType::Computer(ai);
        g
    }

    /// Marks player 1 as the side to move.
    pub fn set_current_player_to_1(&mut self)
        ensures
            final(self).spec_player_number() == 1,
            final(self).board == old(self).board,
            final(self).player1 == old(self).player1,
            final(self).player2 == old(self).player2,
    {
        self.game_state = GameState::Player(1, self.player1.clone());
    }

    /// Marks player 2 as the side to move.
    pub fn set_current_player_to_2(&mut self)
        ensures
            final(self).spec_player_number() == 2,
            final(self).board == old(self).board,
            final(self).player1 == old(self).player1,
            final(self).player2 == old(self).player2,
    {
        self.game_state = GameState::Player(2, self.player2.clone());
    }

    /// Changes the symbol shown for empty cells.
    pub fn set_empty_space_symbol(&mut self, symbol: char)
        ensures
            final(self).board.empty_space_symbol == symbol,
            final(self).board@ == old(self).board@,
            final(self).player1 == old(self).player1,
            final(self).player2 == old(self).player2,
    {
        self.board.empty_space_symbol = symbol;
    }

    /// Changes player 1's symbol, keeping both computer players'
    /// notion of the two symbols in step.
    pub fn set_player1_symbol(&mut self, symbol: char)
        ensures
            final(self).player1.square_symbol == symbol,
            final(self).player2.square_symbol == old(self).player2.square_symbol,
            final(self).player1.p_type matches PlayerType::Computer(ai) ==> ai.symbol == symbol,
            final(self).player2.p_type matches PlayerType::Computer(ai) ==> ai.op_symbol
                == symbol,
            final(self).board == old(self).board,
    {
        self.player1.square_symbol = symbol;
        if let PlayerType::Computer(ai) = &mut self.player1.p_type {
            ai.symbol = symbol;
        }
        if let PlayerType::Computer(ai) = &mut self.player2.p_type {
            ai.op_symbol = symbol;
        }
    }

    /// Changes player 2's symbol, keeping both computer players'
    /// notion of the two symbols in step.
    pub fn set_player2_symbol(&mut self, symbol: char)
        ensures
            final(self).player2.square_symbol == symbol,
            final(self).player1.square_symbol == old(self).player1.square_symbol,
            final(self).player2.p_type matches PlayerType::Computer(ai) ==> ai.symbol == symbol,
            final(self).player1.p_type matches PlayerType::Computer(ai) ==> ai.op_symbol
                == symbol,
            final(self).board == old(self).board,
    {
        self.player2.square_symbol = symbol;
        if let PlayerType::Computer(ai) = &mut self.player2.p_type {
            ai.symbol = symbol;
        }
        if let PlayerType::Computer(ai) = &mut self.player1.p_type {
            ai.op_symbol = symbol;
        }
    }

    /// Chooses which player moves first; only before the game starts,
    /// and only players 1 and 2 exist.
    pub fn set_first_player(&mut self, player_n: usize)
        requires
            1 <= player_n <= 2,
            old(self).not_started(),
        ensures
            final(self).not_started(),
            final(self).spec_player_number() == player_n,
            final(self).board == old(self).board,
            final(self).player1 == old(self).player1,
            final(self).player2 == old(self).player2,
    {
        match self.game_state {
            GameState::Begin(_) => {
                self.game_state = GameState::Begin(player_n);
            },
            _ => {},
        }
    }

    /// Replaces player 1 or player 2, then points both computer
    /// players at the (possibly new) pair of symbols.
    pub fn set_player(&mut self, player_n: usize, player: Player)
        requires
            1 <= player_n <= 2,
        ensures
            player_n == 1 ==> final(self).player1.square_symbol == player.square_symbol
                && final(self).player2.square_symbol == old(self).player2.square_symbol,
            player_n == 2 ==> final(self).player2.square_symbol == player.square_symbol
                && final(self).player1.square_symbol == old(self).player1.square_symbol,
            final(self).player1.p_type matches PlayerType::Computer(ai) ==> ai.symbol
                == final(self).player1.square_symbol && ai.op_symbol
                == final(self).player2.square_symbol,
            final(self).player2.p_type matches PlayerType::Computer(ai) ==> ai.symbol
                == final(self).player2.square_symbol && ai.op_symbol
                == final(self).player1.square_symbol,
            final(self).board == old(self).board,
    {
        match player_n {
            1 => {
                self.player1 = player;
            },
            _ => {
                self.player2 = player;
            },
        }
        let s1 = self.player1.square_symbol;
        let s2 = self.player2.square_symbol;
        if let PlayerType::Computer(ai) = &mut self.player1.p_type {
            ai.symbol = s1;
            ai.op_symbol = s2;
        }
        if let PlayerType::Computer(ai) = &mut self.player2.p_type {
            ai.symbol = s2;
            ai.op_symbol = s1;
        }
    }

    /// Resizes the board to a `size` by `size` grid that needs
    /// `in_a_row_to_win` in a row, clearing it.  Rejects a run length
    /// the board cannot hold, a zero size or run length, a size whose
    /// square overflows, and a run length beyond the engine's bound.
    pub fn change_size(&mut self, size: usize, in_a_row_to_win: usize) -> (r: bool)
        ensures
            r <==> (1 <= in_a_row_to_win <= size && in_a_row_to_win <= MAX_SEQ_TO_WIN && size
                * size <= usize::MAX),
            r ==> final(self).board.wf() && final(self).board@.xs == size && final(self).board@.ys
                == size && final(self).board@.k == in_a_row_to_win && final(self).board@.filled
                == 0,
            !r ==> *final(self) == *old(self),
            final(self).player1 == old(self).player1,
            final(self).player2 == old(self).player2,
    {
        if size < in_a_row_to_win || in_a_row_to_win == 0 || in_a_row_to_win > MAX_SEQ_TO_WIN {
            return false;
        }
        match size.checked_mul(size) {
            Some(_) => {
                self.board = TicTacToe::new(
                    size,
                    size,
                    in_a_row_to_win,
                    self.board.empty_space_symbol,
                );
                true
            },
            None => false,
        }
    }

    /// Clears the board and hands the first move back to player 1.
    pub fn reload_game(&mut self)
        requires
            old(self).board.wf(),
        ensures
            final(self).not_started(),
            final(self).spec_player_number() == 1,
            final(self).board.wf(),
            final(self).board@.xs == old(self).board@.xs,
            final(self).board@.ys == old(self).board@.ys,
            final(self).board@.k == old(self).board@.k,
            final(self).board@.filled == 0,
            forall|i: int|
                0 <= i < final(self).board@.size() ==> final(self).board@.cells[i]
                    == SquareState::Empty,
            final(self).player1 == old(self).player1,
            final(self).player2 == old(self).player2,
    {
        self.game_state = GameState::Begin(1);
        self.board.clear();
    }
}

impl Default for TicTacToeGame {
    /// A fresh two-human game on the default board, player 1 with 'X'
    /// moving first.
    fn default() -> (g: TicTacToeGame)
        ensures
            g.board.wf(),
            g.board@.xs == 3,
            g.board@.ys == 3,
            g.board@.k == 3,
            g.board@.filled == 0,
            g.not_started(),
            g.spec_player_number() == 1,
            g.player1.p_type is Human,
            g.player2.p_type is Human,
            g.player1.square_symbol == 'X',
            g.player2.square_symbol == 'O',
            g.player1.name@ == "Player 1"@,
            g.player2.name@ == "Player 2"@,
            !g.show_turn_info_mode,
    {
        TicTacToeGame {
            board: TicTacToe::default(),
            player1: Player {
                p_type: PlayerType::Human,
                name: String::from_str("Player 1"),
                square_symbol: 'X',
            },
            player2: Player {
                p_type: PlayerType::Human,
                name: String::from_str("Player 2"),
                square_symbol: 'O',
            },
            game_state: GameState::Begin(1),
            show_turn_info_mode: false,
        }
    }
}

} // verus!
