//! Core rules engine of a falling-block puzzle game: piece geometry and
//! rotation, the board grid with its incremental row/column scoring caches,
//! drop resolution, line clearing and compaction, pausable game timers, and
//! the per-board state machine that sequences them each simulation tick.

pub mod piece;
pub mod piece_instance;
pub mod board;
pub mod board_instance;
pub mod timer;
pub mod wall_kick;
