//! Simulation core of a turn-based, tile-grid roguelike.
//!
//! The library owns the authoritative world state (a spatial entity store
//! over a fixed rectangular grid), recomputes what the player can see each
//! turn, maintains per-NPC movement commitments toward the player, and
//! sequences player input, NPC reactions and short damage animations into a
//! deterministic per-tick update.

pub mod animation;
pub mod game;
pub mod geom;
pub mod line;
pub mod pathfinding;
pub mod shell;
pub mod tiles;
pub mod vision;
pub mod world;

pub use geom::CardinalDirection;
pub use geom::Coord;
pub use geom::Size;
