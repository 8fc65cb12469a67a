//! Simulation core of a grid-based laser puzzle game.
//!
//! A level is a bounded rectangular arena whose boundary ring is walled.
//! Typed objects (lasers, mirrors, blocks, switches, buttons, toggle
//! blocks, statues, zappers and a single player) sit on interior cells.
//! Lasers cast beams that reflect off mirrors; beams light statues and
//! zappers, disable other lasers, and kill the player. The player moves
//! on the grid, pushes movable objects and toggles switches; after each
//! action every beam is recomputed from scratch and the level is
//! classified as in progress, won, or lost.

pub mod direction;
pub mod node;
pub mod grid;
pub mod beam;
pub mod resolver;
pub mod outcome;
pub mod level;
pub mod parse;
pub mod menu;
