//! A toroidal Game of Life: a fixed-size grid whose edges wrap around,
//! stepped generation by generation under the standard birth/survival rules.

pub mod game;
pub mod grid;
