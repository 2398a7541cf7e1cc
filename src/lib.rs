//! A Connect-Four engine: board state with gravity and win detection, and a
//! depth-bounded exhaustive search that classifies positions.
pub mod board;
pub mod laws;
pub mod move_list;
pub mod search;

pub use board::{Cell, MoveResult, Player, State, COLUMNS, ROWS, WINNING_LENGTH};
pub use move_list::NextMove;
pub use search::{find_next_move, Eval};
