//! The task model: identifiers, statuses and the task record itself.
//!
//! Identifiers are 128-bit values and timestamps are microseconds since the
//! epoch, held as plain integers so that every rule about them can be stated
//! and checked; the process edge converts to and from its own identifier and
//! time types.

use vstd::prelude::*;

verus! {

/// A 128-bit identifier, the raw value of a UUID.
pub type Id = u128;

/// Workflow status of a task.
#[derive(Clone, Copy, PartialEq, Eq, Structural, Debug)]
pub enum TaskStatus {
    Todo,
    InProgress,
    InReview,
    Done,
    Cancelled,
}

impl TaskStatus {
    /// The canonical lower-case name of the status.
    pub open spec fn spec_name(self) -> Seq<char> {
        match self {
            TaskStatus::Todo => "todo"@,
            TaskStatus::InProgress => "in_progress"@,
            TaskStatus::InReview => "in_review"@,
            TaskStatus::Done => "done"@,
            TaskStatus::Cancelled => "cancelled"@,
        }
    }
}

/// A task row: the fields of the stored record that the core reads.
/// Layout coordinates are whole pixels; `created_at` and `updated_at`
/// are microseconds since the epoch.
#[derive(Clone)]
pub struct Task {
    pub id: Id,
    pub project_id: Id,
    pub title: String,
    pub description: Option<String>,
    pub status: TaskStatus,
    pub parent_workspace_id: Option<Id>,
    pub shared_task_id: Option<Id>,
    pub position: Option<i32>,
    pub dag_position_x: Option<i64>,
    pub dag_position_y: Option<i64>,
    pub created_at: i64,
    pub updated_at: i64,
}

/// There is a task with this id in the list.
pub open spec fn has_task(tasks: Seq<Task>, id: Id) -> bool {
    exists|k: int| 0 <= k < tasks.len() && tasks[k].id == id
}

/// The task with this id (meaningful when ids are distinct and `has_task` holds).
pub open spec fn task_with(tasks: Seq<Task>, id: Id) -> Task {
    tasks[choose|k: int| 0 <= k < tasks.len() && tasks[k].id == id]
}

/// The position of the task with this id (meaningful when ids are distinct
/// and `has_task` holds).
pub open spec fn task_index(tasks: Seq<Task>, id: Id) -> int {
    choose|k: int| 0 <= k < tasks.len() && tasks[k].id == id
}

/// No two tasks share an id.
pub open spec fn distinct_ids(tasks: Seq<Task>) -> bool {
    forall|i: int, j: int| 0 <= i < j < tasks.len() ==> tasks[i].id != tasks[j].id
}

/// Under distinct ids, any task in the list with a given id is `task_with` of that id.
pub proof fn lemma_task_with_is_unique(tasks: Seq<Task>, k: int)
    requires
        distinct_ids(tasks),
        0 <= k < tasks.len(),
    ensures
        has_task(tasks, tasks[k].id),
        task_with(tasks, tasks[k].id) == tasks[k],
        task_index(tasks, tasks[k].id) == k,
{
    assert(has_task(tasks, tasks[k].id));
    let j = choose|j: int| 0 <= j < tasks.len() && tasks[j].id == tasks[k].id;
    if j < k {
        assert(tasks[j].id != tasks[k].id);
    } else if k < j {
        assert(tasks[k].id != tasks[j].id);
    }
}

/// Find the position of the task with the given id, scanning from the front.
pub fn find_task_index(tasks: &Vec<Task>, id: Id) -> (r: Option<usize>)
    ensures
        match r {
            Some(i) => i < tasks@.len() && tasks@[i as int].id == id,
            None => !has_task(tasks@, id),
        },
{
    let n = tasks.len();
    for i in 0..n
        invariant
            n == tasks@.len(),
            forall|k: int| 0 <= k < i ==> tasks@[k].id != id,
    {
        if tasks[i].id == id {
            return Some(i);
        }
    }
    None
}

} // verus!
