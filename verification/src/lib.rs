//! Langton's Ant on a fixed, bounded, bit-packed board.
//!
//! The `board` module holds the two-color grid, stored one bit per cell;
//! the `ant` module holds the moving agent and its facing direction;
//! the `game` module drives the simulation one step at a time, keeping a
//! running count of black cells, until the ant walks off the edge or the
//! step budget runs out.

pub mod ant;
pub mod board;
pub mod game;
