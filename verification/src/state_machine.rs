//! The task status state machine: which transitions are legal, and
//! validation of a requested transition against dependency state.

use vstd::prelude::*;

verus! {

use vstd::string::StringExecFns;
use crate::task::{Id, Task, TaskStatus, distinct_ids, has_task, task_with};
use crate::dependency::TaskDependency;
use crate::models::TransitionValidation;
use crate::strings::dec_digits;

/// The legal transitions of the status state machine. A status may always
/// be restated as itself (a no-op).
pub open spec fn spec_is_valid_transition(from: TaskStatus, to: TaskStatus) -> bool {
    ||| from == to
    ||| (from == TaskStatus::Todo && (to == TaskStatus::InProgress || to == TaskStatus::Cancelled))
    ||| (from == TaskStatus::InProgress && (to == TaskStatus::Todo || to == TaskStatus::InReview
        || to == TaskStatus::Done || to == TaskStatus::Cancelled))
    ||| (from == TaskStatus::InReview && (to == TaskStatus::InProgress || to == TaskStatus::Done
        || to == TaskStatus::Cancelled))
    ||| (from == TaskStatus::Done && (to == TaskStatus::Todo || to == TaskStatus::InProgress))
    ||| (from == TaskStatus::Cancelled && to == TaskStatus::Todo)
}

/// Check if a status transition is allowed by the state machine.
pub fn is_valid_transition(from: &TaskStatus, to: &TaskStatus) -> (r: bool)
    ensures
        r == spec_is_valid_transition(*from, *to),
{
    if from == to {
        return true;
    }
    matches!(
        (from, to),
        (TaskStatus::Todo, TaskStatus::InProgress)
            | (TaskStatus::Todo, TaskStatus::Cancelled)
            | (TaskStatus::InProgress, TaskStatus::Todo)
            | (TaskStatus::InProgress, TaskStatus::InReview)
            | (TaskStatus::InProgress, TaskStatus::Done)
            | (TaskStatus::InProgress, TaskStatus::Cancelled)
            | (TaskStatus::InReview, TaskStatus::InProgress)
            | (TaskStatus::InReview, TaskStatus::Done)
            | (TaskStatus::InReview, TaskStatus::Cancelled)
            | (TaskStatus::Done, TaskStatus::Todo)
            | (TaskStatus::Done, TaskStatus::InProgress)
            | (TaskStatus::Cancelled, TaskStatus::Todo)
    )
}

/// The ids of dependencies of `task_id` that exist in the task list and are
/// not done, in edge-list order.
pub open spec fn spec_blocking_ids(
    deps: Seq<TaskDependency>,
    tasks: Seq<Task>,
    task_id: Id,
) -> Seq<Id>
    decreases deps.len(),
{
    if deps.len() == 0 {
        Seq::empty()
    } else {
        let rest = spec_blocking_ids(deps.drop_last(), tasks, task_id);
        let d = deps.last();
        if d.task_id == task_id && has_task(tasks, d.depends_on_task_id) && task_with(
            tasks,
            d.depends_on_task_id,
        ).status != TaskStatus::Done {
            rest.push(d.depends_on_task_id)
        } else {
            rest
        }
    }
}

/// Get task ids that are blocking the given task: its dependencies that are
/// present and not yet done.
pub fn get_blocking_tasks(
    task_id: Id,
    all_tasks: &Vec<Task>,
    dependencies: &Vec<TaskDependency>,
) -> (r: Vec<Id>)
    requires
        distinct_ids(all_tasks@),
    ensures
        r@ == spec_blocking_ids(dependencies@, all_tasks@, task_id),
{
    let mut out: Vec<Id> = Vec::new();
    let n = dependencies.len();
    for i in 0..n
        invariant
            n == dependencies@.len(),
            distinct_ids(all_tasks@),
            out@ == spec_blocking_ids(dependencies@.take(i as int), all_tasks@, task_id),
    {
        proof {
            crate::seqs::lemma_take_succ(dependencies@, i as int);
        }
        if dependencies[i].task_id == task_id {
            match crate::task::find_task_index(all_tasks, dependencies[i].depends_on_task_id) {
                Some(k) => {
                    proof {
                        crate::task::lemma_task_with_is_unique(all_tasks@, k as int);
                    }
                    if !matches!(all_tasks[k].status, TaskStatus::Done) {
                        out.push(dependencies[i].depends_on_task_id);
                    }
                },
                None => {},
            }
        }
    }
    proof {
        crate::seqs::lemma_take_full(dependencies@);
    }
    out
}

/// The message given when a pair of statuses is not a legal transition.
pub open spec fn spec_invalid_reason(from: TaskStatus, to: TaskStatus) -> Seq<char> {
    "Cannot transition from "@ + from.spec_name() + " to "@ + to.spec_name()
}

/// The message given when a transition needs confirmation because of
/// unfinished dependencies.
pub open spec fn spec_confirmation_reason(blocking_count: nat) -> Seq<char> {
    "Task has "@ + dec_digits(blocking_count)
        + " incomplete dependencies. Starting the task may cause issues."@
}

/// Convert a task status to its lower-case name.
pub fn status_to_string(status: &TaskStatus) -> (r: &'static str)
    ensures
        r@ == status.spec_name(),
{
    match status {
        TaskStatus::Todo => "todo",
        TaskStatus::InProgress => "in_progress",
        TaskStatus::InReview => "in_review",
        TaskStatus::Done => "done",
        TaskStatus::Cancelled => "cancelled",
    }
}

/// Validate a task status transition.
///
/// A no-op transition is valid; a pair outside the state machine is invalid;
/// starting a task whose dependencies are not all done is allowed but asks
/// for confirmation; everything else is valid.
pub fn validate_transition(
    task: &Task,
    new_status: &TaskStatus,
    all_tasks: &Vec<Task>,
    dependencies: &Vec<TaskDependency>,
) -> (r: TransitionValidation)
    requires
        distinct_ids(all_tasks@),
    ensures
        task.status == *new_status ==> r is Valid,
        !spec_is_valid_transition(task.status, *new_status) ==> (r matches
            TransitionValidation::Invalid { reason } && reason@ == spec_invalid_reason(
            task.status,
            *new_status,
        )),
        !spec_is_valid_transition(task.status, *new_status) ==> !(r is Valid),
        task.status != *new_status && spec_is_valid_transition(task.status, *new_status) && *new_status
            == TaskStatus::InProgress && spec_blocking_ids(dependencies@, all_tasks@, task.id).len()
            > 0 ==> (r matches TransitionValidation::RequiresConfirmation {
            reason,
            blocking_tasks,
        } && blocking_tasks@ == spec_blocking_ids(dependencies@, all_tasks@, task.id) && reason@
            == spec_confirmation_reason(
            spec_blocking_ids(dependencies@, all_tasks@, task.id).len(),
        )),
        task.status != *new_status && spec_is_valid_transition(task.status, *new_status) && (
        *new_status != TaskStatus::InProgress || spec_blocking_ids(
            dependencies@,
            all_tasks@,
            task.id,
        ).len() == 0) ==> r is Valid,
{
    let current = &task.status;

    if current == new_status {
        return TransitionValidation::Valid;
    }

    if !is_valid_transition(current, new_status) {
        let mut reason = String::new();
        reason.append("Cannot transition from ");
        reason.append(status_to_string(current));
        reason.append(" to ");
        reason.append(status_to_string(new_status));
        proof {
            assert(reason@ =~= spec_invalid_reason(task.status, *new_status));
        }
        return TransitionValidation::Invalid { reason };
    }

    if matches!(new_status, TaskStatus::InProgress) {
        let blocking = get_blocking_tasks(task.id, all_tasks, dependencies);
        if blocking.len() > 0 {
            let mut reason = String::new();
            reason.append("Task has ");
            let count = crate::strings::u64_to_string(blocking.len() as u64);
            reason.append(count.as_str());
            reason.append(" incomplete dependencies. Starting the task may cause issues.");
            proof {
                assert(reason@ =~= spec_confirmation_reason(blocking@.len()));
            }
            return TransitionValidation::RequiresConfirmation {
                reason,
                blocking_tasks: blocking,
            };
        }
    }

    TransitionValidation::Valid
}

/// Check if a task can be started: it is still to do and nothing blocks it.
pub fn can_start_task(
    task: &Task,
    all_tasks: &Vec<Task>,
    dependencies: &Vec<TaskDependency>,
) -> (r: bool)
    requires
        distinct_ids(all_tasks@),
    ensures
        r == (task.status == TaskStatus::Todo && spec_blocking_ids(
            dependencies@,
            all_tasks@,
            task.id,
        ).len() == 0),
{
    if !matches!(task.status, TaskStatus::Todo) {
        return false;
    }
    let blocking = get_blocking_tasks(task.id, all_tasks, dependencies);
    blocking.len() == 0
}

} // verus!
