//! A rules engine for the board game Tak: move legality and execution,
//! road and flat-count detection, and ply sequencing with the opening.

pub mod game;
