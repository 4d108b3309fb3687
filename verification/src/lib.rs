//! Conway's Game of Life on a bounded square grid with a permanently dead
//! one-cell frame.
//!
//! - `rules` holds the mathematical model: what a world is and how one
//!   generation follows from the previous one.
//! - `laws` proves what holds of every world: the frame stays dead, the
//!   block is a still life, the blinker has period two, a step does not
//!   depend on the order in which it visits the cells.
//! - `grid` stores one generation.
//! - `game` is the simulation: it derives the next generation from the
//!   current one and draws the current one as text.

pub mod game;
pub mod grid;
pub mod laws;
pub mod rules;
mod trusted;
