//! Showing the collection: its tasks grouped by status, numbered within each
//! group, and laid out line by line.

use vstd::prelude::*;
use crate::store::{group, has_status};
use crate::task::{Status, Task};

verus! {

/// One task as a listing shows it. A task has two numbers that must not be
/// taken for each other: where it stands among the tasks of its own status,
/// and where it stands in the whole collection.
#[derive(Debug, Clone, Copy, PartialEq, Eq, Structural)]
pub struct Entry {
    /// The displayed ordinal: the place of the task within its status group,
    /// counting from one.
    pub ordinal: usize,
    /// The storage position: the place of the task within the whole
    /// collection, counting from one.
    pub position: usize,
}

/// The collection split into its three status groups, each in storage order.
#[derive(Debug)]
pub struct Listing {
    pub todo: Vec<Entry>,
    pub doing: Vec<Entry>,
    pub done: Vec<Entry>,
}

/// The storage indices, counting from zero and ascending, of the tasks that
/// have the given status.
pub open spec fn storage_indices(tasks: Seq<Task>, status: Status) -> Seq<int>
    decreases tasks.len(),
{
    if tasks.len() == 0 {
        Seq::empty()
    } else {
        let earlier = storage_indices(tasks.drop_last(), status);
        if tasks.last().status == status {
            earlier.push(tasks.len() - 1)
        } else {
            earlier
        }
    }
}

/// The entries of one status group: the k-th task of that status, counting
/// from zero, is shown with ordinal k + 1 and keeps its storage position.
pub open spec fn entries(tasks: Seq<Task>, status: Status) -> Seq<Entry> {
    let indices = storage_indices(tasks, status);
    Seq::new(
        indices.len(),
        |k: int| (Entry { ordinal: (k + 1) as usize, position: (indices[k] + 1) as usize }),
    )
}

/// The indices of a status are ascending indices of tasks of that status,
/// none is left out, and they pick out the status group task by task.
pub proof fn lemma_storage_indices(tasks: Seq<Task>, status: Status)
    ensures
        storage_indices(tasks, status).len() == group(tasks, status).len(),
        storage_indices(tasks, status).len() <= tasks.len(),
        forall|k: int|
            0 <= k < storage_indices(tasks, status).len() ==> {
                let i = #[trigger] storage_indices(tasks, status)[k];
                0 <= i < tasks.len() && tasks[i].status == status && tasks[i] == group(
                    tasks,
                    status,
                )[k]
            },
        forall|j: int, k: int|
            0 <= j < k < storage_indices(tasks, status).len() ==> storage_indices(tasks, status)[j]
                < storage_indices(tasks, status)[k],
        forall|i: int|
            0 <= i < tasks.len() && tasks[i].status == status ==> #[trigger] storage_indices(
                tasks,
                status,
            ).contains(i),
    decreases tasks.len(),
{
    reveal(Seq::filter);
    let indices = storage_indices(tasks, status);
    if tasks.len() > 0 {
        let shorter = tasks.drop_last();
        let earlier = storage_indices(shorter, status);
        lemma_storage_indices(shorter, status);
        assert forall|i: int| 0 <= i < tasks.len() && tasks[i].status == status implies indices.contains(
            i,
        ) by {
            if i < tasks.len() - 1 {
                assert(earlier.contains(i));
                let k = choose|k: int| 0 <= k < earlier.len() && earlier[k] == i;
                assert(indices[k] == i);
            } else {
                assert(indices[indices.len() - 1] == i);
            }
        }
    }
}

/// Every task is listed in exactly one group.
pub proof fn lemma_groups_cover(tasks: Seq<Task>)
    ensures
        storage_indices(tasks, Status::Todo).len() + storage_indices(tasks, Status::Doing).len()
            + storage_indices(tasks, Status::Done).len() == tasks.len(),
    decreases tasks.len(),
{
    if tasks.len() > 0 {
        lemma_groups_cover(tasks.drop_last());
    }
}

/// One line of a listing as it is laid out for printing.
#[derive(Debug, Clone, Copy, PartialEq, Eq, Structural)]
pub enum Line {
    /// The note that the board holds no task. It is the whole listing.
    Empty,
    /// The rule that opens and closes a listing.
    Frame,
    /// The rule between two status groups.
    Divider,
    /// The heading of a status group.
    Heading(Status),
    /// The note that a status group holds no task.
    NoTasks,
    /// One task of a status group.
    Item(Entry),
}

/// The lines of one status group: its heading, then its tasks one by one, or
/// a note where it has none.
pub open spec fn group_lines(status: Status, entries: Seq<Entry>) -> Seq<Line> {
    if entries.len() == 0 {
        seq![Line::Heading(status), Line::NoTasks]
    } else {
        seq![Line::Heading(status)] + entries.map_values(|entry: Entry| Line::Item(entry))
    }
}

impl Listing {
    /// Whether the listing shows no task at all.
    pub open spec fn spec_is_empty(&self) -> bool {
        self.todo@.len() == 0 && self.doing@.len() == 0 && self.done@.len() == 0
    }

    /// Tells whether the listing shows no task at all.
    #[verifier::when_used_as_spec(spec_is_empty)]
    pub fn is_empty(&self) -> (empty: bool)
        ensures
            empty == self.spec_is_empty(),
    {
        self.todo.len() == 0 && self.doing.len() == 0 && self.done.len() == 0
    }

    /// The listing line by line. A board without tasks is one note and
    /// nothing else; any other board is its three groups between two frame
    /// rules, with a divider between one group and the next.
    pub open spec fn spec_lines(&self) -> Seq<Line> {
        if self.spec_is_empty() {
            seq![Line::Empty]
        } else {
            seq![Line::Frame] + group_lines(Status::Todo, self.todo@) + seq![Line::Divider]
                + group_lines(Status::Doing, self.doing@) + seq![Line::Divider] + group_lines(
                Status::Done,
                self.done@,
            ) + seq![Line::Frame]
        }
    }

    /// Lays the listing out line by line.
    pub fn lines(&self) -> (lines: Vec<Line>)
        ensures
            lines@ == self.spec_lines(),
    {
        let mut lines: Vec<Line> = Vec::new();
        if self.is_empty() {
            lines.push(Line::Empty);
            return lines;
        }
        lines.push(Line::Frame);
        push_group(&mut lines, Status::Todo, &self.todo);
        lines.push(Line::Divider);
        push_group(&mut lines, Status::Doing, &self.doing);
        lines.push(Line::Divider);
        push_group(&mut lines, Status::Done, &self.done);
        lines.push(Line::Frame);
        lines
    }
}

/// Appends the lines of one status group.
fn push_group(lines: &mut Vec<Line>, status: Status, entries: &Vec<Entry>)
    ensures
        final(lines)@ == old(lines)@ + group_lines(status, entries@),
{
    let ghost before = lines@;
    lines.push(Line::Heading(status));
    if entries.len() == 0 {
        lines.push(Line::NoTasks);
        return;
    }
    let mut k: usize = 0;
    while k < entries.len()
        invariant
            k <= entries@.len(),
            lines@ == before + seq![Line::Heading(status)] + entries@.take(k as int).map_values(
                |entry: Entry| Line::Item(entry),
            ),
        decreases entries@.len() - k,
    {
        lines.push(Line::Item(entries[k]));
        assert(entries@.take(k + 1) == entries@.take(k as int).push(entries@[k as int]));
        k += 1;
    }
    assert(entries@.take(k as int) == entries@);
}

/// Splits the collection into its status groups without changing it. Each
/// entry carries the ordinal under which the task is shown within its group
/// and the position under which the collection stores it.
pub fn list_tasks(tasks: &[Task]) -> (listing: Listing)
    ensures
        listing.todo@ == entries(tasks@, Status::Todo),
        listing.doing@ == entries(tasks@, Status::Doing),
        listing.done@ == entries(tasks@, Status::Done),
        listing.is_empty() <==> tasks@.len() == 0,
{
    let mut todo: Vec<Entry> = Vec::new();
    let mut doing: Vec<Entry> = Vec::new();
    let mut done: Vec<Entry> = Vec::new();
    let mut i: usize = 0;
    assert(tasks@.take(0) == Seq::<Task>::empty());
    while i < tasks.len()
        invariant
            i <= tasks@.len(),
            todo@ == entries(tasks@.take(i as int), Status::Todo),
            doing@ == entries(tasks@.take(i as int), Status::Doing),
            done@ == entries(tasks@.take(i as int), Status::Done),
        decreases tasks@.len() - i,
    {
        proof {
            let seen = tasks@.take(i as int);
            let grown = tasks@.take(i + 1);
            assert(grown.drop_last() == seen);
            lemma_storage_indices(seen, Status::Todo);
            lemma_storage_indices(seen, Status::Doing);
            lemma_storage_indices(seen, Status::Done);
        }
        let position: usize = i + 1;
        match tasks[i].status {
            Status::Todo => {
                let ordinal: usize = todo.len() + 1;
                todo.push(Entry { ordinal, position });
            },
            Status::Doing => {
                let ordinal: usize = doing.len() + 1;
                doing.push(Entry { ordinal, position });
            },
            Status::Done => {
                let ordinal: usize = done.len() + 1;
                done.push(Entry { ordinal, position });
            },
        }
        i += 1;
    }
    proof {
        assert(tasks@.take(i as int) == tasks@);
        lemma_groups_cover(tasks@);
    }
    Listing { todo, doing, done }
}

} // verus!
