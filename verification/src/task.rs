//! The task record, its creation from the clock, and the line that shows it.

use vstd::prelude::*;
use vstd::string::{StrSliceExecFns, StringExecFns};

verus! {

/// Where a task stands in the workflow.
#[derive(Debug, Clone, Copy, PartialEq, Eq, Structural)]
pub enum Status {
    Todo,
    Doing,
    Done,
}

impl Default for Status {
    fn default() -> (status: Status)
        ensures
            status == Status::Todo,
    {
        Status::Todo
    }
}

/// One task: its text, the moment it was created as whole seconds since the
/// Unix epoch in UTC, and its place in the workflow. Only the status changes
/// after creation.
#[derive(Debug)]
pub struct Task {
    pub text: String,
    pub created_at: i64,
    pub status: Status,
}

/// What a task is, with its text as a sequence of characters.
pub struct TaskView {
    pub text: Seq<char>,
    pub created_at: int,
    pub status: Status,
}

impl View for Task {
    type V = TaskView;

    open spec fn view(&self) -> TaskView {
        TaskView { text: self.text@, created_at: self.created_at as int, status: self.status }
    }
}

impl Clone for Task {
    fn clone(&self) -> (copy: Task)
        ensures
            copy == *self,
    {
        Task { text: self.text.clone(), created_at: self.created_at, status: self.status }
    }
}

/// The number of characters that the text of a task takes up when shown.
pub const TEXT_WIDTH: usize = 50;

/// The text as it is shown: cut after `TEXT_WIDTH` characters, or filled up
/// to that width with spaces on the right.
pub open spec fn text_column(text: Seq<char>) -> Seq<char> {
    if text.len() >= TEXT_WIDTH {
        text.take(TEXT_WIDTH as int)
    } else {
        text + Seq::new((TEXT_WIDTH - text.len()) as nat, |i: int| ' ')
    }
}

/// A task as one line: the text column, a space, and the creation time in
/// square brackets.
pub open spec fn display_line(text: Seq<char>, stamp: Seq<char>) -> Seq<char> {
    text_column(text) + seq![' ', '['] + stamp + seq![']']
}

/// Lays out one line for a task from its text and from its creation time as
/// already written out.
pub fn format_line(text: &str, stamp: &str) -> (line: String)
    ensures
        line@ == display_line(text@, stamp@),
{
    let len: usize = text.unicode_len();
    let mut line: String;
    if len >= TEXT_WIDTH {
        line = String::from_str(text.substring_char(0, TEXT_WIDTH));
    } else {
        line = String::from_str(text);
        let mut width: usize = len;
        while width < TEXT_WIDTH
            invariant
                len <= width <= TEXT_WIDTH,
                len == text@.len(),
                line@ == text@ + Seq::new((width - len) as nat, |i: int| ' '),
            decreases TEXT_WIDTH - width,
        {
            proof {
                reveal_strlit(" ");
            }
            line.append(" ");
            width += 1;
        }
    }
    proof {
        reveal_strlit(" [");
        reveal_strlit("]");
    }
    line.append(" [");
    line.append(stamp);
    line.append("]");
    line
}

/// Reads the clock through chrono's `Utc::now` and turns the moment into
/// whole seconds since the Unix epoch with `DateTime::timestamp`. Nothing is
/// claimed of the number: it is whatever the machine's clock says. `Utc::now`
/// stops the program if that clock stands before the epoch.
#[verifier::external_body]
fn seconds_now() -> i64 {
    chrono::Utc::now().timestamp()
}

/// The first second of chrono's calendar: midnight in UTC on January 1 of
/// the year 262144 BCE, its earliest date, counted from the Unix epoch.
pub const FIRST_SECOND: i64 = -8_334_601_228_800;

/// The last second of chrono's calendar: one second before midnight in UTC
/// on December 31 of the year 262142 CE, its latest date, counted from the
/// Unix epoch.
pub const LAST_SECOND: i64 = 8_210_266_876_799;

/// Whether a moment, in whole seconds since the Unix epoch, lies within the
/// calendar, so that it has a date and a time of day.
pub open spec fn in_calendar(seconds: i64) -> bool {
    FIRST_SECOND <= seconds <= LAST_SECOND
}

/// Writes a moment out through chrono as the date and the time of day in the
/// time zone that the machine is set to. The seconds become a moment with
/// `DateTime::from_timestamp`, `DateTime::with_timezone` moves the moment to
/// chrono's `Local` zone, and `DateTime::format` writes it with the pattern
/// `%F %H:%M`.
///
/// What is claimed is when there is a text at all. `from_timestamp` has a
/// moment for the seconds of every day that `NaiveDate` holds and for no
/// others; those days run from `NaiveDate::MIN` to `NaiveDate::MAX`, which
/// are the first and the last second named above. Nothing is claimed of the
/// text itself, which changes with the machine's time zone. `Local` stops
/// the program if the machine's zone rules give it no offset for the moment.
#[verifier::external_body]
fn local_stamp(created_at: i64) -> (stamp: Option<String>)
    ensures
        stamp is Some <==> in_calendar(created_at),
{
    match chrono::DateTime::from_timestamp(created_at, 0) {
        Some(moment) => Some(moment.with_timezone(&chrono::Local).format("%F %H:%M").to_string()),
        None => None,
    }
}

impl Task {
    /// Makes a to-do task with the given text and creation time.
    pub fn stamped(text: String, created_at: i64) -> (task: Task)
        ensures
            task == (Task { text, created_at, status: Status::Todo }),
            task@ == (TaskView { text: text@, created_at: created_at as int, status: Status::Todo }),
    {
        Task { text, created_at, status: Status::Todo }
    }

    /// Makes a to-do task with the given text, created at the moment the
    /// clock shows.
    pub fn new(text: String) -> (task: Task)
        ensures
            task == (Task { text, created_at: task.created_at, status: Status::Todo }),
            task@.text == text@,
            task@.status == Status::Todo,
    {
        Task::stamped(text, seconds_now())
    }

    /// Shows the task as one line, with its creation time in local time.
    /// There is a line for every task whose creation time lies within the
    /// calendar, and for no other.
    pub fn render(&self) -> (shown: Option<String>)
        ensures
            shown is Some <==> in_calendar(self.created_at),
            shown matches Some(line) ==> exists|stamp: Seq<char>|
                line@ == display_line(self@.text, stamp),
    {
        match local_stamp(self.created_at) {
            Some(stamp) => {
                let line = format_line(self.text.as_str(), stamp.as_str());
                assert(line@ == display_line(self@.text, stamp@));
                Some(line)
            },
            None => None,
        }
    }
}

} // verus!
