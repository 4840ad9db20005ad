//! A falling-block puzzle engine: the board model, the shape catalog with
//! its per-rotation masks and wall-kick tables, the shuffled-bag piece
//! supply, and the game state machine for moving, rotating, dropping,
//! locking, clearing and holding pieces. Rendering, input and timing live
//! outside this crate; every operation here is specified and verified.

pub mod game_state;
pub mod shapes;
