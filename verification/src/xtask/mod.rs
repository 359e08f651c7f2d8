//! The tasks of the workspace: which commands they run, and in what order.

pub mod command;
pub mod package;
pub mod plan;
pub mod promises;
pub mod runner;
pub mod runner_promises;
pub mod task_promises;
pub mod text;
