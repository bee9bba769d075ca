//! Asynchronous asset loading and the two asset caches of a small ECS game
//! runtime: a CPU-side cache of decoded models fed by background decode jobs,
//! and a renderer-side cache that turns each distinct model into GPU resources
//! once.
mod outside;

pub mod components;
pub mod geometry;
pub mod asset_cache;
pub mod job_table;
pub mod loader;
pub mod store;
pub mod laws;
pub mod gpu_cache;
pub mod game_state;
pub mod builtin_meshes;
