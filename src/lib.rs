//! Hex-grid coordinates and the single-unit movement rules of a small
//! tile-selection game: exact axial rounding, the board of available tiles,
//! the pending selection and the step that resolves it.

pub mod hex;
pub mod board;
pub mod game;
