//! A chess engine core: a bitboard board model with exact make and unmake of moves and an
//! incremental position hash, a legal-move generator, a static evaluator, and negamax
//! search with alpha-beta pruning and a transposition table.

pub mod attack_trace;
pub mod cmdline_game;
pub mod evaluator;
pub mod game_state;
pub mod minimax_search;
pub mod move_generator;
pub mod test_utils;
pub mod transposition_table;
pub mod uci_utils;
pub mod zobrist_hash;
