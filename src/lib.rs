//! Supervision of child processes for a desktop launcher: a liveness tracker
//! for launched applications and a table of streaming child processes, both
//! kept as explicit state whose transitions are proved against their models.

pub mod types;
pub mod app_monitor;
pub mod legendary;
pub mod commands;
pub mod discord_rpc;
