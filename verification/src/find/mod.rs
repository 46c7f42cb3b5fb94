//! In-file find and replace.

pub mod laws;
pub mod plugin;
pub mod state;
