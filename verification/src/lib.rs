//! An in-memory key-value store with per-key time-to-live, driven by a
//! line-oriented text protocol.

pub mod commands;
pub mod guarantees;
pub mod model;
pub mod server;
pub mod storage;
pub mod text;
pub mod time_manager;
pub mod value;
