//! An in-memory task tracker.
//!
//! A [`TaskManager`] stores tasks with a priority and a list of tags, and keeps
//! three views of them consistent: the dense task list (where a task's id is
//! its position), a priority view ordered by `(priority, id)`, and an index
//! from each tag to the ids of the tasks that carry it.

pub mod priority;
pub mod tag_index;
pub mod task;
pub mod store;
pub mod laws;
pub mod input;

pub use task::{Task, TaskView};
pub use store::TaskManager;
