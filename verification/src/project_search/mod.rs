//! Project-wide search and replace.

pub mod engine;
pub mod framing;
pub mod laws;
pub mod plugin;
