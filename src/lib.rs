//! A verified tic-tac-toe engine: the board, win and draw detection, the
//! computer opponent's move selection, turn order and session scores.

pub mod board;
pub mod game;
pub mod session;
pub mod strategy;
pub mod verdict;

pub use board::{Board, Cell, Mark, OccupiedOrOutOfRange};
pub use game::{
    GameMode, InvalidMove, MatchState, TurnController, TurnOutcome, is_human_turn, new_match,
    switch_player,
};
pub use session::{Score, SessionTracker};
pub use strategy::{
    Difficulty, choose_move, empty_count, get_ai_move_blocking, get_ai_move_random,
    nth_empty_cell, tactical_move, winning_move,
};
pub use verdict::{Line, Verdict, check_winner, evaluate, is_draw, line_at};
