//! The file explorer.

pub mod laws;
pub mod model;
pub mod plugin;
