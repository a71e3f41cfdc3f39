//! Territorial conquest on a 2-D grid.
//!
//! A fixed set of factions ("empires") spreads across a grid of cells by
//! comparing troop strength with neighboring cells once per generation.
//! The update engine reads one immutable snapshot of the grid and produces
//! the next one; ownership and troop count stay mutually consistent.

pub mod engine;
pub mod gui;
pub mod laws;
pub mod world;
