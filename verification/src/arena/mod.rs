//! Bump-allocated arenas with generation tracking.

pub mod config;
pub mod descriptor;
pub mod handle;
pub mod pingpong;
pub mod scratch;
pub mod segment;
pub mod sparse;
pub mod static_arena;
