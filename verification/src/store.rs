//! The operations that change the task collection: adding a task, giving
//! tasks a new status, and deleting tasks by position.

use vstd::prelude::*;
use crate::error::StoreError;
use crate::order::{descending, sorted_descending};
use crate::task::{Status, Task};

verus! {

/// Whether `position` names a task in a collection of `len` tasks. Positions
/// count from one.
pub open spec fn valid_position(position: usize, len: nat) -> bool {
    1 <= position <= len
}

/// Whether every one of `positions` names a task in a collection of `len` tasks.
pub open spec fn all_valid(positions: Seq<usize>, len: nat) -> bool {
    forall|k: int| 0 <= k < positions.len() ==> valid_position(#[trigger] positions[k], len)
}

/// Whether `positions` holds the position of the task at storage index `index`.
pub open spec fn names(positions: Seq<usize>, index: int) -> bool {
    exists|k: int| 0 <= k < positions.len() && #[trigger] positions[k] == index + 1
}

/// The collection with `status` given to every task that `positions` names,
/// each task still in its place.
pub open spec fn marked(tasks: Seq<Task>, positions: Seq<usize>, status: Status) -> Seq<Task> {
    Seq::new(
        tasks.len(),
        |i: int|
            if names(positions, i) {
                Task { status, ..tasks[i] }
            } else {
                tasks[i]
            },
    )
}

/// Holds of the tasks that have the given status.
pub open spec fn has_status(status: Status) -> spec_fn(Task) -> bool {
    |task: Task| task.status == status
}

/// The tasks of one status, in the order in which the collection holds them.
pub open spec fn group(tasks: Seq<Task>, status: Status) -> Seq<Task> {
    tasks.filter(has_status(status))
}

/// The collection regrouped by status: all to-do tasks, then all doing tasks,
/// then all done tasks, each group in the order it had before.
pub open spec fn regrouped(tasks: Seq<Task>) -> Seq<Task> {
    group(tasks, Status::Todo) + group(tasks, Status::Doing) + group(tasks, Status::Done)
}

/// The collection after a status update: regrouped with the named tasks
/// marked if every position is valid, and untouched otherwise.
pub open spec fn updated(tasks: Seq<Task>, positions: Seq<usize>, status: Status) -> Seq<Task> {
    if all_valid(positions, tasks.len()) {
        regrouped(marked(tasks, positions, status))
    } else {
        tasks
    }
}

/// Tells whether every position names a task in a collection of `len` tasks.
pub fn positions_in_range(positions: &[usize], len: usize) -> (ok: bool)
    ensures
        ok == all_valid(positions@, len as nat),
{
    let mut k: usize = 0;
    while k < positions.len()
        invariant
            k <= positions@.len(),
            all_valid(positions@.take(k as int), len as nat),
        decreases positions@.len() - k,
    {
        if positions[k] == 0 || positions[k] > len {
            assert(!valid_position(positions@[k as int], len as nat));
            return false;
        }
        assert forall|j: int| 0 <= j < k + 1 implies valid_position(
            #[trigger] positions@.take(k + 1)[j],
            len as nat,
        ) by {
            if j < k {
                assert(positions@.take(k + 1)[j] == positions@.take(k as int)[j]);
            }
        }
        k += 1;
    }
    assert(positions@.take(k as int) == positions@);
    true
}

/// Regroups the collection by status, keeping the order inside each group.
pub fn sort_by_status(tasks: &mut Vec<Task>)
    ensures
        final(tasks)@ == regrouped(old(tasks)@),
{
    let ghost before = tasks@;
    let mut reversed: Vec<Task> = Vec::new();
    while tasks.len() > 0
        invariant
            tasks@.len() + reversed@.len() == before.len(),
            tasks@ == before.take(tasks@.len() as int),
            forall|j: int| 0 <= j < reversed@.len() ==> reversed@[j] == before[before.len() - 1 - j],
        decreases tasks@.len(),
    {
        let last = tasks.pop();
        match last {
            Some(task) => reversed.push(task),
            None => {},
        }
    }
    let mut todo: Vec<Task> = Vec::new();
    let mut doing: Vec<Task> = Vec::new();
    let mut done: Vec<Task> = Vec::new();
    while reversed.len() > 0
        invariant
            reversed@.len() <= before.len(),
            forall|j: int| 0 <= j < reversed@.len() ==> reversed@[j] == before[before.len() - 1 - j],
            todo@ == group(before.take(before.len() - reversed@.len()), Status::Todo),
            doing@ == group(before.take(before.len() - reversed@.len()), Status::Doing),
            done@ == group(before.take(before.len() - reversed@.len()), Status::Done),
        decreases reversed@.len(),
    {
        let ghost seen = before.take(before.len() - reversed@.len());
        let next = reversed.pop();
        match next {
            Some(task) => {
                proof {
                    let grown = before.take(before.len() - reversed@.len());
                    assert(grown == seen.push(task));
                    seen.lemma_filter_push(task, has_status(Status::Todo));
                    seen.lemma_filter_push(task, has_status(Status::Doing));
                    seen.lemma_filter_push(task, has_status(Status::Done));
                }
                match task.status {
                    Status::Todo => todo.push(task),
                    Status::Doing => doing.push(task),
                    Status::Done => done.push(task),
                }
            },
            None => {},
        }
    }
    assert(before.take(before.len() as int) == before);
    tasks.append(&mut todo);
    tasks.append(&mut doing);
    tasks.append(&mut done);
}

/// Gives `status` to the task at every one of `task_positions`, then regroups
/// the collection by status. If any position is zero or past the end, nothing
/// changes and the call fails.
pub fn update_task_status(tasks: &mut Vec<Task>, task_positions: &[usize], status: Status) -> (result:
    Result<(), StoreError>)
    ensures
        all_valid(task_positions@, old(tasks)@.len()) ==> result is Ok,
        !all_valid(task_positions@, old(tasks)@.len()) ==> result == Err::<(), StoreError>(
            StoreError::InvalidTaskId,
        ),
        final(tasks)@ == updated(old(tasks)@, task_positions@, status),
{
    let ghost before = tasks@;
    if !positions_in_range(task_positions, tasks.len()) {
        return Err(StoreError::InvalidTaskId);
    }
    let mut k: usize = 0;
    while k < task_positions.len()
        invariant
            k <= task_positions@.len(),
            tasks@.len() == before.len(),
            all_valid(task_positions@, before.len()),
            tasks@ == marked(before, task_positions@.take(k as int), status),
        decreases task_positions@.len() - k,
    {
        let position: usize = task_positions[k];
        let ghost earlier = task_positions@.take(k as int);
        let ghost now = task_positions@.take(k + 1);
        tasks[position - 1].status = status;
        proof {
            assert forall|i: int| 0 <= i < before.len() implies #[trigger] tasks@[i] == marked(
                before,
                now,
                status,
            )[i] by {
                if i == position - 1 {
                    assert(now[k as int] == i + 1);
                } else if names(earlier, i) {
                    let w = choose|w: int| 0 <= w < earlier.len() && #[trigger] earlier[w] == i + 1;
                    assert(now[w] == i + 1);
                } else if names(now, i) {
                    let w = choose|w: int| 0 <= w < now.len() && #[trigger] now[w] == i + 1;
                    assert(earlier[w] == i + 1);
                }
            }
        }
        k += 1;
    }
    assert(task_positions@.take(k as int) == task_positions@);
    sort_by_status(tasks);
    Ok(())
}

/// The collection after the tasks at `positions` were taken out one after the
/// other, each position read against the collection as the removals before it
/// left it; `None` if a position then names no task.
pub open spec fn removed_in_turn(tasks: Seq<Task>, positions: Seq<usize>) -> Option<Seq<Task>>
    decreases positions.len(),
{
    if positions.len() == 0 {
        Some(tasks)
    } else if valid_position(positions[0], tasks.len()) {
        removed_in_turn(tasks.remove(positions[0] - 1), positions.drop_first())
    } else {
        None
    }
}

/// The collection after a delete: the positions are taken highest first, so
/// that no removal moves a task that is still to be removed.
pub open spec fn deleted(tasks: Seq<Task>, positions: Seq<usize>) -> Option<Seq<Task>> {
    removed_in_turn(tasks, descending(positions))
}

/// Whether each position, taken in turn, still names a task of a collection
/// that began with `len` tasks and lost one to every position before it.
pub open spec fn removable_in_turn(positions: Seq<usize>, len: nat) -> bool {
    forall|k: int|
        0 <= k < positions.len() ==> 1 <= #[trigger] positions[k] && positions[k] + k <= len
}

/// Removing in turn succeeds exactly when every position names a task at the
/// time of its removal.
pub proof fn lemma_removed_in_turn_succeeds(tasks: Seq<Task>, positions: Seq<usize>)
    ensures
        removed_in_turn(tasks, positions) is Some <==> removable_in_turn(positions, tasks.len()),
    decreases positions.len(),
{
    if positions.len() == 0 {
    } else if valid_position(positions[0], tasks.len()) {
        let rest = positions.drop_first();
        let fewer = tasks.remove(positions[0] - 1);
        lemma_removed_in_turn_succeeds(fewer, rest);
        if removable_in_turn(rest, fewer.len()) {
            assert forall|k: int| 0 <= k < positions.len() implies 1 <= #[trigger] positions[k]
                && positions[k] + k <= tasks.len() by {
                if k > 0 {
                    assert(rest[k - 1] == positions[k]);
                }
            }
        }
        if removable_in_turn(positions, tasks.len()) {
            assert forall|k: int| 0 <= k < rest.len() implies 1 <= #[trigger] rest[k] && rest[k]
                + k <= fewer.len() by {
                assert(rest[k] == positions[k + 1]);
            }
        }
    }
}

/// Tells whether each position, taken in turn, names a task of a collection
/// that begins with `len` tasks.
pub fn check_removable(positions: &[usize], len: usize) -> (ok: bool)
    ensures
        ok == removable_in_turn(positions@, len as nat),
{
    let mut k: usize = 0;
    while k < positions.len()
        invariant
            k <= positions@.len(),
            forall|j: int| 0 <= j < k ==> 1 <= #[trigger] positions@[j] && positions@[j] + j <= len,
        decreases positions@.len() - k,
    {
        if positions[k] == 0 || k > len || positions[k] > len - k {
            assert(!(1 <= positions@[k as int] && positions@[k as int] + k <= len));
            return false;
        }
        k += 1;
    }
    true
}

/// Appends `task` to the end of the collection.
pub fn add_task(tasks: &mut Vec<Task>, task: Task)
    ensures
        final(tasks)@ == old(tasks)@.push(task),
        group(final(tasks)@, task.status) == group(old(tasks)@, task.status).push(task),
{
    proof {
        tasks@.lemma_filter_push(task, has_status(task.status));
    }
    tasks.push(task);
}

/// Removes the tasks at `task_positions`, the highest position first. If a
/// position names no task when its turn comes, nothing changes and the call
/// fails.
pub fn delete_tasks(tasks: &mut Vec<Task>, task_positions: &[usize]) -> (result: Result<
    (),
    StoreError,
>)
    ensures
        match deleted(old(tasks)@, task_positions@) {
            Some(rest) => result is Ok && final(tasks)@ == rest,
            None => result == Err::<(), StoreError>(StoreError::InvalidTaskId) && final(tasks)@
                == old(tasks)@,
        },
{
    let ghost before = tasks@;
    let order = sorted_descending(task_positions);
    proof {
        lemma_removed_in_turn_succeeds(before, order@);
    }
    if !check_removable(order.as_slice(), tasks.len()) {
        return Err(StoreError::InvalidTaskId);
    }
    let mut k: usize = 0;
    assert(order@.skip(0) == order@);
    while k < order.len()
        invariant
            k <= order@.len(),
            tasks@.len() + k == before.len(),
            removable_in_turn(order@, before.len()),
            removed_in_turn(tasks@, order@.skip(k as int)) == removed_in_turn(before, order@),
        decreases order@.len() - k,
    {
        let position: usize = order[k];
        assert(order@.skip(k as int).drop_first() == order@.skip(k + 1));
        tasks.remove(position - 1);
        k += 1;
    }
    Ok(())
}

} // verus!
