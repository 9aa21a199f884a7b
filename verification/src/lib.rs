//! A terminal snake game engine.
//!
//! The pieces, leaf to root: [`grid`] holds the cell and position types;
//! [`render`] turns a single cell change into one positioned, colored
//! display update; [`screen`] is the flat grid buffer whose every mutation
//! queues exactly one such update; [`game`] owns the snake — head, tail,
//! owed growth, score — and advances it one tick at a time, where the body
//! is never stored but read back off the grid by chasing stored
//! directions; [`highscore`] keeps the saved results sorted by descending
//! score. Drawing to a real terminal, key decoding and persistence live
//! outside this crate.

pub mod game;
pub mod grid;
pub mod highscore;
pub mod render;
pub mod screen;
