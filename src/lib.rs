//! A deterministic, turn-based grid simulation core: grid arithmetic, a
//! per-layer occupancy index, A* path planning, a pluggable movement policy,
//! a five-phase turn pipeline and input record/replay.

pub mod components;
pub mod engine;
pub mod grid;
pub mod intents;
pub mod map;
pub mod occupancy;
pub mod pathfinding;
pub mod replay;
pub mod rng;
pub mod rules;
pub mod schedule;
