//! A snake on a small mirrored grid: a head followed by a chain of body
//! segments that moves one cell per tick, grows when it reaches food and
//! starts afresh when it runs into itself.
//!
//! The crate holds the simulation only. A host delivers the keys that are
//! held and says when a tick has fired; it reads back the occupied cells and
//! the food cell to draw them.

pub mod food;
pub mod grid;
pub mod movement;
pub mod simulation;
pub mod snake;
