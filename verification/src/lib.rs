//! A personal task board: short text tasks that move from to-do through doing
//! to done, kept as one ordered collection.
//!
//! The crate holds the task record and every rule that changes or reads the
//! collection. Reading and writing the journal file, parsing the command line
//! and printing are left to the program around it.

pub mod cli;
pub mod error;
pub mod journal;
pub mod laws;
pub mod listing;
pub mod order;
pub mod store;
pub mod task;

pub use cli::{Action, CommandLineArgs, Outcome};
pub use error::StoreError;
pub use journal::{is_blank, load_tasks};
pub use listing::{list_tasks, Entry, Line, Listing};
pub use store::{add_task, delete_tasks, sort_by_status, update_task_status};
pub use task::{format_line, Status, Task, TaskView, FIRST_SECOND, LAST_SECOND, TEXT_WIDTH};
