//! Self-play search for two-player board games: game rules, simple players and a
//! tree search guided by a value/policy evaluator.
pub mod az_player;
pub mod connect4;
pub mod mcts;
pub mod numeric;
pub mod othello;
pub mod play;
pub mod players;
pub mod search_tree;
pub mod shared;
pub mod tictactoe;
pub mod train;

pub use az_player::{AlphaZero, AlphaZeroPlayer};
pub use connect4::{Connect4, Connect4Move, Connect4State};
pub use mcts::{MCTSConfig, MCTS};
pub use othello::{Othello, OthelloMove, OthelloState};
pub use play::play_full_game;
pub use players::{Corners, Greedy, Random};
pub use search_tree::{ActionNode, Evaluation, Evaluator, UniformEvaluator};
pub use shared::{Game, GameResult, Player, PlayerError, PlayerId};
pub use tictactoe::{TTTMove, TTTState, TicTacToe};
pub use train::{
    finish_all, new_model_won, winner_value, GamesHolder, TrainingExample, UnfinishedTrainingExample,
};
