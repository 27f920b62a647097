//! Framework-neutral Opto-Sync application boundary for Rust web surfaces,
//! together with the strict domain configuration that selects the runtime's
//! command-line flag contract.

pub mod web_sync;
pub mod text;
pub mod flags;
pub mod env_map;
