//! Agent-based simulation models (Schelling segregation, wolf-sheep
//! predation) built on the krABMaga engine, with their decision logic
//! specified and verified.

pub mod rng;
pub mod schelling;
pub mod text;
pub mod wolf_sheep;
