//! A game engine for the generalized m-by-n, k-in-a-row board game.
//!
//! The crate models the board, detects wins and draws along the four axes
//! through a just-placed cell, scores candidate moves with a positional
//! heuristic, and picks a move with a depth-limited alpha-beta search that
//! is proved to compute the same value as a plain minimax traversal.

pub mod tictactoe_ai_player;
pub mod tictactoe_core;
pub mod tictactoe_game;
