//! Computations that run at most once.

mod entry;
mod once_cell;
pub mod once_map;

pub(crate) use entry::Entry;
pub use once_map::OnceMap;
