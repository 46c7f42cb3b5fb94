//! Modal editing.

pub mod cuts;
pub mod edit;
pub mod edits;
pub mod exline;
pub mod keys;
pub mod laws;
pub mod motion;
pub mod moves;
pub mod normal;
pub mod operators;
pub mod orders;
pub mod plugin;
pub mod puts;
pub mod search;
pub mod selections;
pub mod session;
pub mod shifting;
pub mod state;
pub mod visual;
