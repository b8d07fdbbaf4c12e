//! Entity graph of a task-execution coordinator and the decision logic of a
//! worker's task runner.
//!
//! The graph keeps workers, clients, sessions, tasks and data objects in
//! tables keyed by identifier and maintains referential integrity across
//! creation and cascading deletion.

pub mod ids;
pub mod entities;
pub mod model;
pub mod graph;
pub mod refs;
pub mod runner;
pub mod report;
pub mod laws;
