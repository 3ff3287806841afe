//! A connect-four board engine with an optional gravity inversion every two
//! moves, and the interface a game-tree search needs to play it.

pub mod bits;
pub mod board;
pub mod colour;
pub mod column;
pub mod fitness;
pub mod game;
pub mod model;
pub mod win;
