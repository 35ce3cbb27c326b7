//! Loading user programs.
pub mod loader;
