//! What holds of the collection across the operations that change it.

use vstd::prelude::*;
use vstd::seq_lib::{lemma_multiset_commutative, to_multiset_build, to_multiset_contains};
use crate::order::{at_least, descending, lemma_descending, lemma_descending_ignores_order};
use crate::store::{
    all_valid, deleted, group, has_status, lemma_removed_in_turn_succeeds, marked, names,
    regrouped, removed_in_turn, updated, valid_position,
};
use crate::task::{Status, Task};

verus! {

/// The status of every task, in the order of the collection.
pub open spec fn statuses(tasks: Seq<Task>) -> Seq<Status> {
    tasks.map_values(|task: Task| task.status)
}

/// The same status `count` times over.
pub open spec fn run(status: Status, count: nat) -> Seq<Status> {
    Seq::new(count, |i: int| status)
}

/// Whether the collection is a run of to-do tasks, then a run of doing tasks,
/// then a run of done tasks.
pub open spec fn in_runs(tasks: Seq<Task>) -> bool {
    exists|todo: nat, doing: nat, done: nat|
        statuses(tasks) == #[trigger] run(Status::Todo, todo) + #[trigger] run(
            Status::Doing,
            doing,
        ) + #[trigger] run(Status::Done, done)
}

/// Where the status group begins in a regrouped collection.
pub open spec fn group_start(tasks: Seq<Task>, status: Status) -> int {
    match status {
        Status::Todo => 0,
        Status::Doing => group(tasks, Status::Todo).len() as int,
        Status::Done => (group(tasks, Status::Todo).len() + group(tasks, Status::Doing).len()) as int,
    }
}

/// Where the task at storage index `index` stands once the collection is
/// regrouped: in its status group, behind the tasks of that status that
/// stood before it.
pub open spec fn landing(tasks: Seq<Task>, index: int) -> int {
    group_start(tasks, tasks[index].status) + group(tasks.take(index), tasks[index].status).len()
}

/// Where the task at storage index `index` stands after a status update:
/// where regrouping puts it if the update is carried out, and where it stood
/// if the update is refused.
pub open spec fn place_after_update(
    tasks: Seq<Task>,
    positions: Seq<usize>,
    status: Status,
    index: int,
) -> int {
    if all_valid(positions, tasks.len()) {
        landing(marked(tasks, positions, status), index)
    } else {
        index
    }
}

/// Every task of a status group has that status.
pub proof fn lemma_group_status(tasks: Seq<Task>, status: Status)
    ensures
        forall|k: int|
            0 <= k < group(tasks, status).len() ==> (#[trigger] group(tasks, status)[k]).status
                == status,
{
    assert forall|k: int| 0 <= k < group(tasks, status).len() implies (#[trigger] group(
        tasks,
        status,
    )[k]).status == status by {
        tasks.lemma_filter_pred(has_status(status), k);
    }
}

/// The three status groups together hold as many tasks as the collection.
pub proof fn lemma_groups_hold_all(tasks: Seq<Task>)
    ensures
        group(tasks, Status::Todo).len() + group(tasks, Status::Doing).len() + group(
            tasks,
            Status::Done,
        ).len() == tasks.len(),
        regrouped(tasks).len() == tasks.len(),
    decreases tasks.len(),
{
    if tasks.len() > 0 {
        let shorter = tasks.drop_last();
        lemma_groups_hold_all(shorter);
        assert(tasks == shorter.push(tasks.last()));
        shorter.lemma_filter_push(tasks.last(), has_status(Status::Todo));
        shorter.lemma_filter_push(tasks.last(), has_status(Status::Doing));
        shorter.lemma_filter_push(tasks.last(), has_status(Status::Done));
    } else {
        reveal(Seq::filter);
    }
}

/// A sequence of tasks that all have one status is its own group for that
/// status and has an empty group for every other.
pub proof fn lemma_group_of_one_status(tasks: Seq<Task>, status: Status, other: Status)
    requires
        forall|k: int| 0 <= k < tasks.len() ==> (#[trigger] tasks[k]).status == status,
    ensures
        group(tasks, status) == tasks,
        other != status ==> group(tasks, other) == Seq::<Task>::empty(),
    decreases tasks.len(),
{
    if tasks.len() > 0 {
        let shorter = tasks.drop_last();
        lemma_group_of_one_status(shorter, status, other);
        assert(tasks == shorter.push(tasks.last()));
        shorter.lemma_filter_push(tasks.last(), has_status(status));
        shorter.lemma_filter_push(tasks.last(), has_status(other));
    } else {
        reveal(Seq::filter);
    }
}

/// Regrouping leaves each status group as it was.
pub proof fn lemma_regrouped_groups(tasks: Seq<Task>, status: Status)
    ensures
        group(regrouped(tasks), status) == group(tasks, status),
{
    let todo = group(tasks, Status::Todo);
    let doing = group(tasks, Status::Doing);
    let done = group(tasks, Status::Done);
    lemma_group_status(tasks, Status::Todo);
    lemma_group_status(tasks, Status::Doing);
    lemma_group_status(tasks, Status::Done);
    lemma_group_of_one_status(todo, Status::Todo, status);
    lemma_group_of_one_status(doing, Status::Doing, status);
    lemma_group_of_one_status(done, Status::Done, status);
    Seq::filter_distributes_over_add(todo + doing, done, has_status(status));
    Seq::filter_distributes_over_add(todo, doing, has_status(status));
}

/// Regrouping a collection that is already regrouped changes nothing.
pub proof fn lemma_regrouped_twice(tasks: Seq<Task>)
    ensures
        regrouped(regrouped(tasks)) == regrouped(tasks),
{
    lemma_regrouped_groups(tasks, Status::Todo);
    lemma_regrouped_groups(tasks, Status::Doing);
    lemma_regrouped_groups(tasks, Status::Done);
}

/// A regrouped collection is a run of to-do tasks, a run of doing tasks and
/// a run of done tasks, in that order.
pub proof fn lemma_regrouped_runs(tasks: Seq<Task>)
    ensures
        statuses(regrouped(tasks)) == run(Status::Todo, group(tasks, Status::Todo).len()) + run(
            Status::Doing,
            group(tasks, Status::Doing).len(),
        ) + run(Status::Done, group(tasks, Status::Done).len()),
{
    lemma_group_status(tasks, Status::Todo);
    lemma_group_status(tasks, Status::Doing);
    lemma_group_status(tasks, Status::Done);
    let todo = group(tasks, Status::Todo);
    let doing = group(tasks, Status::Doing);
    let done = group(tasks, Status::Done);
    assert(statuses(regrouped(tasks)) =~= run(Status::Todo, todo.len()) + run(
        Status::Doing,
        doing.len(),
    ) + run(Status::Done, done.len()));
}

/// The tasks of one status that stand before `index` are a beginning of the
/// status group, and the task at `index` follows them in its own group.
pub proof fn lemma_group_prefix(tasks: Seq<Task>, index: int, status: Status)
    requires
        0 <= index < tasks.len(),
    ensures
        group(tasks.take(index), status).len() <= group(tasks.take(index + 1), status).len()
            <= group(tasks, status).len(),
        tasks[index].status == status ==> {
            &&& group(tasks.take(index), status).len() < group(tasks, status).len()
            &&& group(tasks.take(index + 1), status).len() == group(
                tasks.take(index),
                status,
            ).len() + 1
            &&& group(tasks, status)[group(tasks.take(index), status).len() as int]
                == tasks[index]
        },
{
    let head = tasks.take(index);
    let longer = tasks.take(index + 1);
    let tail = tasks.skip(index + 1);
    assert(longer == head.push(tasks[index]));
    assert(tasks == longer + tail);
    head.lemma_filter_push(tasks[index], has_status(status));
    Seq::filter_distributes_over_add(longer, tail, has_status(status));
}

/// The tasks of one status that stand before an index are no more than
/// those that stand before a later index.
pub proof fn lemma_group_prefix_grows(tasks: Seq<Task>, i: int, j: int, status: Status)
    requires
        0 <= i <= j <= tasks.len(),
    ensures
        group(tasks.take(i), status).len() <= group(tasks.take(j), status).len(),
{
    let head = tasks.take(i);
    let between = tasks.subrange(i, j);
    assert(tasks.take(j) == head + between);
    Seq::filter_distributes_over_add(head, between, has_status(status));
}

/// Regrouping is a stable partition: every task lands in the regrouped
/// collection, and of two tasks with the same status the one that stood
/// first lands first.
pub proof fn lemma_regrouped_is_stable(tasks: Seq<Task>)
    ensures
        regrouped(tasks).len() == tasks.len(),
        forall|i: int|
            0 <= i < tasks.len() ==> 0 <= #[trigger] landing(tasks, i) < tasks.len() && regrouped(
                tasks,
            )[landing(tasks, i)] == tasks[i],
        forall|i: int, j: int|
            0 <= i < j < tasks.len() && tasks[i].status == tasks[j].status ==> #[trigger] landing(
                tasks,
                i,
            ) < #[trigger] landing(tasks, j),
{
    lemma_groups_hold_all(tasks);
    assert forall|i: int| 0 <= i < tasks.len() implies 0 <= #[trigger] landing(tasks, i)
        < tasks.len() && regrouped(tasks)[landing(tasks, i)] == tasks[i] by {
        lemma_group_prefix(tasks, i, tasks[i].status);
    }
    assert forall|i: int, j: int|
        0 <= i < j < tasks.len() && tasks[i].status == tasks[j].status implies #[trigger] landing(
        tasks,
        i,
    ) < #[trigger] landing(tasks, j) by {
        lemma_group_prefix(tasks, i, tasks[i].status);
        lemma_group_prefix_grows(tasks, i + 1, j, tasks[i].status);
    }
}

/// After a status update, the collection is a run of to-do tasks, a run of
/// doing tasks and a run of done tasks. Every task that the update did not
/// name is still there as it was, and two such tasks of the same status stand
/// in the order in which they stood before. A refused update regroups
/// nothing, so this is stated of updates that are carried out and of
/// collections that were in runs already.
pub proof fn lemma_update_keeps_order(tasks: Seq<Task>, positions: Seq<usize>, status: Status)
    requires
        all_valid(positions, tasks.len()) || in_runs(tasks),
    ensures
        in_runs(updated(tasks, positions, status)),
        updated(tasks, positions, status).len() == tasks.len(),
        forall|i: int|
            0 <= i < tasks.len() && !names(positions, i) ==> {
                let place = #[trigger] place_after_update(tasks, positions, status, i);
                0 <= place < tasks.len() && updated(tasks, positions, status)[place] == tasks[i]
            },
        forall|i: int, j: int|
            0 <= i < j < tasks.len() && !names(positions, i) && !names(positions, j)
                && tasks[i].status == tasks[j].status ==> #[trigger] place_after_update(
                tasks,
                positions,
                status,
                i,
            ) < #[trigger] place_after_update(tasks, positions, status, j),
{
    if all_valid(positions, tasks.len()) {
        let changed = marked(tasks, positions, status);
        lemma_regrouped_is_stable(changed);
        lemma_regrouped_runs(changed);
    }
}

/// A status update asks only which tasks are named: the order in which the
/// positions are given, and how often each is given, make no difference.
pub proof fn lemma_update_ignores_order(
    tasks: Seq<Task>,
    first: Seq<usize>,
    second: Seq<usize>,
    status: Status,
)
    requires
        forall|position: usize| first.contains(position) <==> second.contains(position),
    ensures
        updated(tasks, first, status) == updated(tasks, second, status),
{
    assert forall|i: int| names(first, i) <==> names(second, i) by {
        if names(first, i) {
            let k = choose|k: int| 0 <= k < first.len() && #[trigger] first[k] == i + 1;
            assert(second.contains(first[k]));
        }
        if names(second, i) {
            let k = choose|k: int| 0 <= k < second.len() && #[trigger] second[k] == i + 1;
            assert(first.contains(second[k]));
        }
    }
    assert(marked(tasks, first, status) =~= marked(tasks, second, status));
    assert(all_valid(first, tasks.len()) <==> all_valid(second, tasks.len())) by {
        if all_valid(first, tasks.len()) {
            assert forall|k: int| 0 <= k < second.len() implies valid_position(
                #[trigger] second[k],
                tasks.len(),
            ) by {
                assert(first.contains(second[k]));
            }
        }
        if all_valid(second, tasks.len()) {
            assert forall|k: int| 0 <= k < first.len() implies valid_position(
                #[trigger] first[k],
                tasks.len(),
            ) by {
                assert(second.contains(first[k]));
            }
        }
    }
}

/// Repeating a status update changes nothing, as long as every position
/// still names a task of that status once the first update has regrouped the
/// collection. Where a position then names another task, the second update
/// is an update of that other task. A refused update changes nothing either
/// time.
pub proof fn lemma_update_again(tasks: Seq<Task>, positions: Seq<usize>, status: Status)
    requires
        all_valid(positions, tasks.len()) ==> forall|k: int|
            0 <= k < positions.len() ==> updated(tasks, positions, status)[#[trigger] positions[k]
                - 1].status == status,
    ensures
        updated(updated(tasks, positions, status), positions, status) == updated(
            tasks,
            positions,
            status,
        ),
{
    if all_valid(positions, tasks.len()) {
        let changed = marked(tasks, positions, status);
        let once = regrouped(changed);
        lemma_groups_hold_all(changed);
        assert(all_valid(positions, once.len()));
        assert forall|i: int| 0 <= i < once.len() implies marked(once, positions, status)[i]
            == once[i] by {
            if names(positions, i) {
                let k = choose|k: int| 0 <= k < positions.len() && #[trigger] positions[k] == i
                    + 1;
                assert(once[positions[k] - 1].status == status);
            }
        }
        assert(marked(once, positions, status) =~= once);
        lemma_regrouped_twice(changed);
    }
}

/// Regrouping neither loses a task nor makes one up: the regrouped
/// collection holds every task as often as the collection did.
pub proof fn lemma_regrouped_permutes(tasks: Seq<Task>)
    ensures
        regrouped(tasks).to_multiset() == tasks.to_multiset(),
    decreases tasks.len(),
{
    let todo = group(tasks, Status::Todo);
    let doing = group(tasks, Status::Doing);
    let done = group(tasks, Status::Done);
    if tasks.len() == 0 {
        reveal(Seq::filter);
    } else {
        let shorter = tasks.drop_last();
        let last = tasks.last();
        lemma_regrouped_permutes(shorter);
        assert(tasks == shorter.push(last));
        shorter.lemma_filter_push(last, has_status(Status::Todo));
        shorter.lemma_filter_push(last, has_status(Status::Doing));
        shorter.lemma_filter_push(last, has_status(Status::Done));
        let todo0 = group(shorter, Status::Todo);
        let doing0 = group(shorter, Status::Doing);
        let done0 = group(shorter, Status::Done);
        lemma_multiset_commutative(todo0 + doing0, done0);
        lemma_multiset_commutative(todo0, doing0);
        lemma_multiset_commutative(todo + doing, done);
        lemma_multiset_commutative(todo, doing);
        to_multiset_build(shorter, last);
        to_multiset_build(todo0, last);
        to_multiset_build(doing0, last);
        to_multiset_build(done0, last);
    }
}

/// The tasks that `positions` does not name, in the order of the collection.
pub open spec fn unnamed(tasks: Seq<Task>, positions: Seq<usize>) -> Seq<Task>
    decreases tasks.len(),
{
    if tasks.len() == 0 {
        tasks
    } else {
        let earlier = unnamed(tasks.drop_last(), positions);
        if names(positions, tasks.len() - 1) {
            earlier
        } else {
            earlier.push(tasks.last())
        }
    }
}

/// Which tasks are left unnamed depends only on which storage indices the
/// positions name.
pub proof fn lemma_unnamed_by_names(tasks: Seq<Task>, first: Seq<usize>, second: Seq<usize>)
    requires
        forall|i: int| 0 <= i < tasks.len() ==> (names(first, i) <==> names(second, i)),
    ensures
        unnamed(tasks, first) == unnamed(tasks, second),
    decreases tasks.len(),
{
    if tasks.len() > 0 {
        lemma_unnamed_by_names(tasks.drop_last(), first, second);
    }
}

/// Positions that name no task of the collection leave all of it unnamed.
pub proof fn lemma_unnamed_all(tasks: Seq<Task>, positions: Seq<usize>)
    requires
        forall|i: int| 0 <= i < tasks.len() ==> !names(positions, i),
    ensures
        unnamed(tasks, positions) == tasks,
    decreases tasks.len(),
{
    if tasks.len() > 0 {
        lemma_unnamed_all(tasks.drop_last(), positions);
        assert(tasks.drop_last().push(tasks.last()) == tasks);
    }
}

/// Taking out the task at the highest named position first leaves the same
/// tasks unnamed by the remaining positions.
proof fn lemma_unnamed_after_highest(tasks: Seq<Task>, positions: Seq<usize>)
    requires
        positions.len() > 0,
        valid_position(positions[0], tasks.len()),
        forall|k: int| 1 <= k < positions.len() ==> #[trigger] positions[k] < positions[0],
    ensures
        unnamed(tasks, positions) == unnamed(
            tasks.remove(positions[0] - 1),
            positions.drop_first(),
        ),
    decreases tasks.len(),
{
    let highest = positions[0] - 1;
    let rest = positions.drop_first();
    let shorter = tasks.drop_last();
    let last = tasks.len() - 1;
    assert forall|i: int| names(rest, i) implies i < highest by {
        let k = choose|k: int| 0 <= k < rest.len() && #[trigger] rest[k] == i + 1;
        assert(rest[k] == positions[k + 1]);
    }
    assert forall|i: int| names(positions, i) implies i <= highest by {
        let k = choose|k: int| 0 <= k < positions.len() && #[trigger] positions[k] == i + 1;
    }
    if last > highest {
        lemma_unnamed_after_highest(shorter, positions);
        assert(shorter.remove(highest) == tasks.remove(highest).drop_last());
        assert(tasks.remove(highest).last() == tasks.last());
        assert(!names(positions, last));
        assert(!names(rest, last - 1));
    } else {
        assert(names(positions, last));
        assert(tasks.remove(highest) == shorter);
        assert forall|i: int| 0 <= i < shorter.len() implies (names(positions, i) <==> names(
            rest,
            i,
        )) by {
            if names(positions, i) {
                let k = choose|k: int|
                    0 <= k < positions.len() && #[trigger] positions[k] == i + 1;
                assert(rest[k - 1] == positions[k]);
            }
            if names(rest, i) {
                let k = choose|k: int| 0 <= k < rest.len() && #[trigger] rest[k] == i + 1;
                assert(positions[k + 1] == rest[k]);
            }
        }
        lemma_unnamed_by_names(shorter, positions, rest);
    }
}

/// Removing at strictly falling positions, each of which names a task,
/// leaves exactly the tasks that no position names.
proof fn lemma_removed_at_falling(tasks: Seq<Task>, positions: Seq<usize>)
    requires
        all_valid(positions, tasks.len()),
        forall|j: int, k: int|
            0 <= j < k < positions.len() ==> #[trigger] positions[j] > #[trigger] positions[k],
    ensures
        removed_in_turn(tasks, positions) == Some(unnamed(tasks, positions)),
    decreases positions.len(),
{
    if positions.len() == 0 {
        lemma_unnamed_all(tasks, positions);
    } else {
        let rest = positions.drop_first();
        let fewer = tasks.remove(positions[0] - 1);
        assert forall|k: int| 0 <= k < rest.len() implies valid_position(
            #[trigger] rest[k],
            fewer.len(),
        ) by {
            assert(rest[k] == positions[k + 1]);
        }
        assert forall|j: int, k: int| 0 <= j < k < rest.len() implies #[trigger] rest[j]
            > #[trigger] rest[k] by {
            assert(rest[j] == positions[j + 1]);
            assert(rest[k] == positions[k + 1]);
        }
        lemma_removed_at_falling(fewer, rest);
        lemma_unnamed_after_highest(tasks, positions);
    }
}

/// A delete does not ask in which order the positions are given.
pub proof fn lemma_delete_ignores_order(tasks: Seq<Task>, first: Seq<usize>, second: Seq<usize>)
    requires
        first.to_multiset() == second.to_multiset(),
    ensures
        deleted(tasks, first) == deleted(tasks, second),
{
    lemma_descending_ignores_order(first, second);
}

/// A delete that is carried out was given only positions that name a task.
pub proof fn lemma_delete_needs_valid(tasks: Seq<Task>, positions: Seq<usize>)
    requires
        deleted(tasks, positions) is Some,
    ensures
        all_valid(positions, tasks.len()),
{
    let order = descending(positions);
    lemma_descending(positions);
    lemma_removed_in_turn_succeeds(tasks, order);
    assert forall|k: int| 0 <= k < positions.len() implies valid_position(
        #[trigger] positions[k],
        tasks.len(),
    ) by {
        assert(positions.contains(positions[k]));
        to_multiset_contains(positions, positions[k]);
        to_multiset_contains(order, positions[k]);
        let j = choose|j: int| 0 <= j < order.len() && order[j] == positions[k];
        assert(1 <= order[j] && order[j] + j <= tasks.len());
    }
}

/// A delete at positions that all name a task, none given twice, is carried
/// out and leaves exactly the tasks that no position names, in their order.
pub proof fn lemma_delete_distinct(tasks: Seq<Task>, positions: Seq<usize>)
    requires
        all_valid(positions, tasks.len()),
        positions.no_duplicates(),
    ensures
        deleted(tasks, positions) == Some(unnamed(tasks, positions)),
{
    let order = descending(positions);
    lemma_descending(positions);
    positions.lemma_multiset_has_no_duplicates();
    order.lemma_multiset_has_no_duplicates_conv();
    assert forall|j: int, k: int| 0 <= j < k < order.len() implies #[trigger] order[j]
        > #[trigger] order[k] by {
        assert(at_least()(order[j], order[k]));
    }
    assert forall|k: int| 0 <= k < order.len() implies valid_position(
        #[trigger] order[k],
        tasks.len(),
    ) by {
        assert(order.contains(order[k]));
        to_multiset_contains(order, order[k]);
        to_multiset_contains(positions, order[k]);
        let j = choose|j: int| 0 <= j < positions.len() && positions[j] == order[k];
        assert(valid_position(positions[j], tasks.len()));
    }
    lemma_removed_at_falling(tasks, order);
    assert forall|i: int| names(positions, i) <==> names(order, i) by {
        if names(positions, i) {
            let k = choose|k: int| 0 <= k < positions.len() && #[trigger] positions[k] == i + 1;
            assert(positions.contains(positions[k]));
            to_multiset_contains(positions, positions[k]);
            to_multiset_contains(order, positions[k]);
            let j = choose|j: int| 0 <= j < order.len() && order[j] == positions[k];
            assert(order[j] == i + 1);
        }
        if names(order, i) {
            let k = choose|k: int| 0 <= k < order.len() && #[trigger] order[k] == i + 1;
            assert(order.contains(order[k]));
            to_multiset_contains(order, order[k]);
            to_multiset_contains(positions, order[k]);
            let j = choose|j: int| 0 <= j < positions.len() && positions[j] == order[k];
            assert(positions[j] == i + 1);
        }
    }
    lemma_unnamed_by_names(tasks, positions, order);
}

} // verus!
