//! The Schelling segregation model: agents of two groups on a sparse grid,
//! moving to an empty cell while too few of their neighbours share their group.

pub mod neighbours;
pub mod patch;
pub mod sparse;
pub mod updater;
pub mod world;
