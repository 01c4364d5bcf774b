//! Core engine of a falling-block puzzle game: a fixed playfield grid, an
//! actively controlled tetromino, a lookahead queue of upcoming pieces, and
//! the rules for movement, rotation, collision, gravity, line clearing and
//! game-over detection.  Rendering, keyboard capture and the frame loop live
//! outside this crate; the engine is driven through discrete key events and
//! an externally supplied step counter.

pub mod cell;
pub mod game;
pub mod piece;
pub mod queue;
pub mod grid;
pub mod shapes;
