//! Source control.

pub mod laws;
pub mod plugin;
pub mod status;
