//! A falling-sand cellular automaton: a rectangular grid of material cells
//! (air, wall, sand, water, fire, wood, steam) stepped one tick at a time.
//! Every motion of matter goes through the grid's swap primitive; reads out of
//! bounds see a synthetic wall, so the rules need no boundary special cases.

pub mod cell;
pub mod color;
pub mod game;
pub mod laws;
pub mod rng;
pub mod rules;
pub mod vector;

pub use cell::Cell;
pub use cell::Kind;
pub use color::Color;
pub use game::Game;
pub use game::GameError;
pub use vector::Vector;
