//! The core of a small task-list service: an in-memory store of tasks with
//! server-assigned identifiers, and the request handlers that work on it.
//!
//! Every function here is verified against a mathematical model of the
//! store; serving HTTP and serialising values is left to the program that
//! embeds this library.

pub mod handlers;
pub mod laws;
pub mod model;
pub mod store;
pub mod task;

pub use handlers::{create_task, delete_task, get_tasks, parse_id, RequestError};
pub use model::{Op, StoreView};
pub use store::AppState;
pub use task::{Task, TaskInput, TaskView};
