//! Procedural dungeon generation and tile visibility for a grid-based
//! exploration game: rooms placed by rejection sampling and joined by
//! L-shaped corridors, monsters seeded on free floor, and the explored /
//! visible bookkeeping driven by an external field-of-view computation.

pub mod dungeon;
pub mod input;
pub mod object;
pub mod paths;
pub mod random;
pub mod rect;
pub mod tile;
pub mod visibility;
