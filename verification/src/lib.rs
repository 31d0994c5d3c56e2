pub mod cell;
pub mod connect;
pub mod dungeon;
pub mod export;
pub mod floor;
pub mod grid;
pub mod maze;
pub mod painter;
pub mod params;
pub mod place;
pub mod prune;
pub mod raycast;
pub mod reach;
pub mod rng;
pub mod room;
