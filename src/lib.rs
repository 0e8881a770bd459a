//! Streaming core of an open world: region addressing, deterministic seeding,
//! terrain grids, content placement, the load/unload manager and the
//! distance-based detail gate.

pub mod region;
pub mod manager;
pub mod seeding;
pub mod mesher;
pub mod random;
pub mod populate;
pub mod lod;
pub mod blueprint;
pub mod models;
