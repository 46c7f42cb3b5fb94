//! Completion.

pub mod laws;
pub mod plugin;
pub mod state;
