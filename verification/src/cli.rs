//! The command line as data, and what each action does to a loaded
//! collection.

use std::path::PathBuf;
use vstd::prelude::*;
use crate::error::StoreError;
use crate::listing::{entries, list_tasks, Listing};
use crate::store::{add_task, all_valid, delete_tasks, deleted, update_task_status, updated};
use crate::task::{Status, Task};

verus! {

/// The standard library's `PathBuf`, an owned file path. It is only carried
/// from the command line to whoever opens the file: nothing is read from it
/// and nothing is known of what it holds.
#[verifier::external_type_specification]
#[verifier::external_body]
pub struct ExPathBuf(PathBuf);

/// What the user asks for.
#[derive(Debug)]
pub enum Action {
    /// Add a new task with this text.
    Add { task: String },
    /// Mark the tasks at these positions as doing.
    Doing { position: Vec<usize> },
    /// Mark the tasks at these positions as done.
    Done { position: Vec<usize> },
    /// Delete the tasks at these positions.
    Delete { position: Vec<usize> },
    /// Show all tasks, grouped by status.
    List,
}

/// The command line: an action, and the journal file if one was named.
#[derive(Debug)]
pub struct CommandLineArgs {
    pub action: Action,
    pub journal_file: Option<PathBuf>,
}

/// What an action did to the collection.
#[derive(Debug)]
pub enum Outcome {
    /// The collection was changed and is to be written back to the journal.
    Changed,
    /// The collection is as it was; this is how it is to be shown.
    Listed(Listing),
}

impl CommandLineArgs {
    /// Settles which journal file the action works on: the one named on the
    /// command line, else the default location, and an error if there is
    /// neither.
    pub fn resolve(self, default_file: Option<PathBuf>) -> (resolved: Result<
        (Action, PathBuf),
        StoreError,
    >)
        ensures
            match (self.journal_file, default_file) {
                (Some(named), _) => resolved == Ok::<(Action, PathBuf), StoreError>(
                    (self.action, named),
                ),
                (None, Some(default)) => resolved == Ok::<(Action, PathBuf), StoreError>(
                    (self.action, default),
                ),
                (None, None) => resolved == Err::<(Action, PathBuf), StoreError>(
                    StoreError::NoJournalFile,
                ),
            },
    {
        match self.journal_file {
            Some(named) => Ok((self.action, named)),
            None => match default_file {
                Some(default) => Ok((self.action, default)),
                None => Err(StoreError::NoJournalFile),
            },
        }
    }
}

impl Action {
    /// Carries the action out on the loaded collection. A refused action
    /// leaves the collection as it was.
    pub fn apply(self, tasks: &mut Vec<Task>) -> (result: Result<Outcome, StoreError>)
        ensures
            match self {
                Action::Add { task } => {
                    &&& result == Ok::<Outcome, StoreError>(Outcome::Changed)
                    &&& exists|created_at: i64|
                        final(tasks)@ == old(tasks)@.push(
                            Task { text: task, created_at, status: Status::Todo },
                        )
                },
                Action::Doing { position } => {
                    &&& final(tasks)@ == updated(old(tasks)@, position@, Status::Doing)
                    &&& all_valid(position@, old(tasks)@.len()) ==> result == Ok::<
                        Outcome,
                        StoreError,
                    >(Outcome::Changed)
                    &&& !all_valid(position@, old(tasks)@.len()) ==> result == Err::<
                        Outcome,
                        StoreError,
                    >(StoreError::InvalidTaskId)
                },
                Action::Done { position } => {
                    &&& final(tasks)@ == updated(old(tasks)@, position@, Status::Done)
                    &&& all_valid(position@, old(tasks)@.len()) ==> result == Ok::<
                        Outcome,
                        StoreError,
                    >(Outcome::Changed)
                    &&& !all_valid(position@, old(tasks)@.len()) ==> result == Err::<
                        Outcome,
                        StoreError,
                    >(StoreError::InvalidTaskId)
                },
                Action::Delete { position } => match deleted(old(tasks)@, position@) {
                    Some(rest) => final(tasks)@ == rest && result == Ok::<Outcome, StoreError>(
                        Outcome::Changed,
                    ),
                    None => final(tasks)@ == old(tasks)@ && result == Err::<
                        Outcome,
                        StoreError,
                    >(StoreError::InvalidTaskId),
                },
                Action::List => {
                    &&& final(tasks)@ == old(tasks)@
                    &&& result matches Ok(Outcome::Listed(listing))
                    &&& listing.todo@ == entries(old(tasks)@, Status::Todo)
                    &&& listing.doing@ == entries(old(tasks)@, Status::Doing)
                    &&& listing.done@ == entries(old(tasks)@, Status::Done)
                    &&& listing.is_empty() <==> old(tasks)@.len() == 0
                },
            },
    {
        match self {
            Action::Add { task } => {
                let new_task = Task::new(task);
                add_task(tasks, new_task);
                Ok(Outcome::Changed)
            },
            Action::Doing { position } => {
                match update_task_status(tasks, position.as_slice(), Status::Doing) {
                    Ok(()) => Ok(Outcome::Changed),
                    Err(error) => Err(error),
                }
            },
            Action::Done { position } => {
                match update_task_status(tasks, position.as_slice(), Status::Done) {
                    Ok(()) => Ok(Outcome::Changed),
                    Err(error) => Err(error),
                }
            },
            Action::Delete { position } => {
                match delete_tasks(tasks, position.as_slice()) {
                    Ok(()) => Ok(Outcome::Changed),
                    Err(error) => Err(error),
                }
            },
            Action::List => Ok(Outcome::Listed(list_tasks(tasks.as_slice()))),
        }
    }
}

} // verus!
