//! Verified core of a top-down brawler: the collision-shape generator for the
//! tile world (marching squares, polygon extraction, convex merging, the
//! level data file and its reader) and the combat rules of the dudes that
//! fight in it (state machines, combos, staggers, animations, inputs).
pub mod vector;
pub mod matrix;
pub mod geometry;
pub mod graph;
pub mod decomposition;
pub mod level_grid;
pub mod level_data;
pub mod serialization;
pub mod round_trip;
pub mod assets;
pub mod dude;
pub mod animations;
pub mod enemy_state;
pub mod player_state;
pub mod basic_player_state;
pub mod state;
pub mod input;
pub mod outline;
