//! The core of a falling-block puzzle game: the board of settled bricks with
//! row clearing and gravity, the falling piece with its moves, turns and
//! collisions, the fall timer, and the phases of a round.

use vstd::prelude::*;

pub mod bricks;
pub mod controls;
pub mod game;
mod random;
pub mod shape;
pub mod tick;

verus! {

/// Number of columns of the board; columns run from `-HALF_COLS` to `HALF_COLS`.
pub const BRICK_COLS: i8 = 11;

/// Columns on each side of the centre column.
pub const HALF_COLS: i8 = 5;

/// Number of visible rows; a new piece appears with its anchor on this row.
pub const BRICK_ROWS: i8 = 20;

/// Rows held by the board: the visible rows and the hidden rows above them,
/// where a piece that rotated near the top may still come to rest.
pub const BOARD_ROWS: usize = 24;

} // verus!
