//! Duplicate suppression for keyed computations, together with the task runner of the workspace.

pub mod alike;
mod board;
pub mod cases;
pub mod flight;
pub mod keys;
pub mod laws;
pub mod once;
pub mod promises;
pub mod sequences;
pub mod singleflight;
pub mod state;
pub mod xtask;
