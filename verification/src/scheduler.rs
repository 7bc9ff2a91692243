//! The scheduler: builds an execution plan from tasks and their dependency
//! edges by a leveled topological sort, and computes per-task readiness.
//!
//! A task's level is 0 when it has no dependency edges, else one more than
//! the greatest level of its dependencies; tasks in one level are
//! independently executable. When the edge set is closed over the task
//! list and acyclic — the stored data's own invariant — the contract
//! guarantees that every task is placed in exactly one level. On malformed
//! input (a cycle, or an edge to a missing task) the affected tasks are
//! left out of the levels while the statistics still count every task;
//! such data is rejected at the write path, not here. Statistics are
//! counted once over the full task set.

use vstd::prelude::*;

verus! {

use crate::task::{Id, Task, TaskStatus, distinct_ids, has_task, task_with, task_index};
use crate::dependency::{TaskDependency, dep_ids_of, dependent_ids_of};
use crate::models::{ExecutableTask, ExecutionLevel, ExecutionPlan, TaskReadiness};
use crate::seqs::{count_matching, keep_matching, lemma_take_succ, lemma_take_full, lemma_count_le_len};

// ---------------------------------------------------------------------------
// Readiness
// ---------------------------------------------------------------------------

/// Of the given dependency ids, those that exist in the task list and are
/// not done, in order.
pub open spec fn spec_blocking_of(dep_ids: Seq<Id>, tasks: Seq<Task>) -> Seq<Id>
    decreases dep_ids.len(),
{
    if dep_ids.len() == 0 {
        Seq::empty()
    } else {
        let rest = spec_blocking_of(dep_ids.drop_last(), tasks);
        let d = dep_ids.last();
        if has_task(tasks, d) && task_with(tasks, d).status != TaskStatus::Done {
            rest.push(d)
        } else {
            rest
        }
    }
}

/// What the readiness of a task with the given status and dependency ids
/// must be.
pub open spec fn readiness_matches(
    r: TaskReadiness,
    status: TaskStatus,
    dep_ids: Seq<Id>,
    tasks: Seq<Task>,
) -> bool {
    match status {
        TaskStatus::Done => r is Completed,
        TaskStatus::Cancelled => r is Cancelled,
        TaskStatus::InProgress => r is InProgress,
        TaskStatus::InReview => r is InProgress,
        TaskStatus::Todo => if spec_blocking_of(dep_ids, tasks).len() == 0 {
            r is Ready
        } else {
            r matches TaskReadiness::Blocked { blocking_task_ids } && blocking_task_ids@
                == spec_blocking_of(dep_ids, tasks)
        },
    }
}

/// Calculate the readiness state of a task based on its own status and its
/// dependencies: done and cancelled tasks keep their nature, work in
/// progress or review counts as in progress, and a task still to do is
/// ready exactly when no dependency present in the task list is unfinished.
pub fn calculate_readiness(task: &Task, dependencies: &Vec<Id>, all_tasks: &Vec<Task>) -> (r:
    TaskReadiness)
    requires
        distinct_ids(all_tasks@),
    ensures
        readiness_matches(r, task.status, dependencies@, all_tasks@),
{
    match task.status {
        TaskStatus::Done => {
            return TaskReadiness::Completed;
        },
        TaskStatus::Cancelled => {
            return TaskReadiness::Cancelled;
        },
        TaskStatus::InProgress => {
            return TaskReadiness::InProgress;
        },
        TaskStatus::InReview => {
            return TaskReadiness::InProgress;
        },
        TaskStatus::Todo => {},
    }
    let mut blocking: Vec<Id> = Vec::new();
    let m = dependencies.len();
    for j in 0..m
        invariant
            m == dependencies@.len(),
            distinct_ids(all_tasks@),
            blocking@ == spec_blocking_of(dependencies@.take(j as int), all_tasks@),
    {
        proof {
            lemma_take_succ(dependencies@, j as int);
        }
        match crate::task::find_task_index(all_tasks, dependencies[j]) {
            Some(k) => {
                proof {
                    crate::task::lemma_task_with_is_unique(all_tasks@, k as int);
                }
                if !matches!(all_tasks[k].status, TaskStatus::Done) {
                    blocking.push(dependencies[j]);
                }
            },
            None => {},
        }
    }
    proof {
        lemma_take_full(dependencies@);
    }
    if blocking.len() == 0 {
        TaskReadiness::Ready
    } else {
        TaskReadiness::Blocked { blocking_task_ids: blocking }
    }
}

// ---------------------------------------------------------------------------
// Statistics predicates
// ---------------------------------------------------------------------------

/// The task is done.
pub open spec fn done_pred() -> spec_fn(Task) -> bool {
    |t: Task| t.status == TaskStatus::Done
}

/// The task is being worked on or reviewed (readiness "in progress").
pub open spec fn in_progress_pred() -> spec_fn(Task) -> bool {
    |t: Task| t.status == TaskStatus::InProgress || t.status == TaskStatus::InReview
}

/// The task's own status is in review.
pub open spec fn in_review_pred() -> spec_fn(Task) -> bool {
    |t: Task| t.status == TaskStatus::InReview
}

/// The task is cancelled.
pub open spec fn cancelled_pred() -> spec_fn(Task) -> bool {
    |t: Task| t.status == TaskStatus::Cancelled
}

/// The task is still to do and nothing blocks it.
pub open spec fn ready_pred(deps: Seq<TaskDependency>, tasks: Seq<Task>) -> spec_fn(Task) -> bool {
    |t: Task|
        t.status == TaskStatus::Todo && spec_blocking_of(dep_ids_of(deps, t.id), tasks).len() == 0
}

/// The task is still to do and at least one dependency blocks it.
pub open spec fn blocked_pred(deps: Seq<TaskDependency>, tasks: Seq<Task>) -> spec_fn(
    Task,
) -> bool {
    |t: Task|
        t.status == TaskStatus::Todo && spec_blocking_of(dep_ids_of(deps, t.id), tasks).len() > 0
}

// ---------------------------------------------------------------------------
// Plan shape
// ---------------------------------------------------------------------------

/// One executable entry is faithful to the task list and edge list.
#[verifier::opaque]
pub open spec fn entry_ok(e: ExecutableTask, tasks: Seq<Task>, deps: Seq<TaskDependency>) -> bool {
    &&& has_task(tasks, e.task_id)
    &&& e.status == task_with(tasks, e.task_id).status
    &&& e.dependencies@ == dep_ids_of(deps, e.task_id)
    &&& e.dependents@ == dependent_ids_of(deps, e.task_id)
    &&& readiness_matches(
        e.readiness,
        task_with(tasks, e.task_id).status,
        dep_ids_of(deps, e.task_id),
        tasks,
    )
}

/// The level holds an entry for the task id.
pub open spec fn level_contains(l: ExecutionLevel, id: Id) -> bool {
    exists|k: int| 0 <= k < l.tasks@.len() && l.tasks@[k].task_id == id
}

/// Some level strictly before `bound` holds the task id.
pub open spec fn placed_below(levels: Seq<ExecutionLevel>, id: Id, bound: int) -> bool {
    exists|a: int| 0 <= a < bound && a < levels.len() && level_contains(levels[a], id)
}


/// Deterministic order within a level: earlier creation first, id as the
/// tie-break.
pub open spec fn id_key_le(tasks: Seq<Task>, x: Id, y: Id) -> bool {
    let tx = task_with(tasks, x);
    let ty = task_with(tasks, y);
    tx.created_at < ty.created_at || (tx.created_at == ty.created_at && x <= y)
}

/// The level's entries are ordered by creation time, then id.
#[verifier::opaque]
pub open spec fn level_sorted(tasks: Seq<Task>, es: Seq<ExecutableTask>) -> bool {
    forall|k: int|
        0 <= k && k + 1 < es.len() ==> id_key_le(
            tasks,
            (#[trigger] es[k]).task_id,
            es[k + 1].task_id,
        )
}

/// Use the order of a sorted level for one adjacent pair.
pub proof fn lemma_level_sorted_elim(tasks: Seq<Task>, es: Seq<ExecutableTask>, k: int)
    requires
        level_sorted(tasks, es),
        0 <= k,
        k + 1 < es.len(),
    ensures
        id_key_le(tasks, es[k].task_id, es[k + 1].task_id),
{
    reveal(level_sorted);
}

// ---------------------------------------------------------------------------
// Placement bookkeeping
// ---------------------------------------------------------------------------

/// The dependency id exists, is placed, and its level is strictly below `bound`.
spec fn dep_placed_below(
    tasks: Seq<Task>,
    placed: Seq<bool>,
    level: Seq<usize>,
    d: Id,
    bound: int,
) -> bool {
    &&& has_task(tasks, d)
    &&& 0 <= task_index(tasks, d) < placed.len()
    &&& placed[task_index(tasks, d)]
    &&& (level[task_index(tasks, d)] as int) < bound
}

/// The dependency id exists, is placed, and sits exactly at level `l`.
spec fn dep_at_level(
    tasks: Seq<Task>,
    placed: Seq<bool>,
    level: Seq<usize>,
    d: Id,
    l: int,
) -> bool {
    &&& has_task(tasks, d)
    &&& 0 <= task_index(tasks, d) < placed.len()
    &&& placed[task_index(tasks, d)]
    &&& level[task_index(tasks, d)] == l
}

/// The placement facts for one placed task index.
#[verifier::opaque]
spec fn placed_entry_ok(
    tasks: Seq<Task>,
    dls: Seq<Vec<Id>>,
    placed: Seq<bool>,
    level: Seq<usize>,
    u: int,
    bound: int,
) -> bool {
    &&& (level[u] as int) < bound
    &&& (level[u] == 0 ==> dls[u]@.len() == 0)
    &&& (dls[u]@.len() > 0 ==> level[u] > 0)
    &&& (forall|j: int|
        0 <= j < dls[u]@.len() ==> dep_placed_below(
            tasks,
            placed,
            level,
            #[trigger] dls[u]@[j],
            level[u] as int,
        ))
    &&& (level[u] > 0 ==> exists|j: int|
        0 <= j < dls[u]@.len() && dep_at_level(
            tasks,
            placed,
            level,
            #[trigger] dls[u]@[j],
            level[u] - 1,
        ))
}

/// The placement facts for every placed task index.
spec fn placement_ok(
    tasks: Seq<Task>,
    dls: Seq<Vec<Id>>,
    placed: Seq<bool>,
    level: Seq<usize>,
    bound: int,
) -> bool {
    forall|u: int|
        0 <= u < tasks.len() && #[trigger] placed[u] ==> placed_entry_ok(
            tasks,
            dls,
            placed,
            level,
            u,
            bound,
        )
}

/// Package the placement facts of one task index.
proof fn lemma_placed_entry_ok_intro(
    tasks: Seq<Task>,
    dls: Seq<Vec<Id>>,
    placed: Seq<bool>,
    level: Seq<usize>,
    u: int,
    bound: int,
)
    requires
        0 <= u < level.len(),
        (level[u] as int) < bound,
        level[u] == 0 ==> dls[u]@.len() == 0,
        dls[u]@.len() > 0 ==> level[u] > 0,
        forall|j: int|
            0 <= j < dls[u]@.len() ==> dep_placed_below(
                tasks,
                placed,
                level,
                #[trigger] dls[u]@[j],
                level[u] as int,
            ),
        level[u] > 0 ==> exists|j: int|
            0 <= j < dls[u]@.len() && dep_at_level(
                tasks,
                placed,
                level,
                #[trigger] dls[u]@[j],
                level[u] - 1,
            ),
    ensures
        placed_entry_ok(tasks, dls, placed, level, u, bound),
{
    reveal(placed_entry_ok);
}

/// Unpack the placement facts of one task index.
proof fn lemma_placed_entry_ok_elim(
    tasks: Seq<Task>,
    dls: Seq<Vec<Id>>,
    placed: Seq<bool>,
    level: Seq<usize>,
    u: int,
    bound: int,
)
    requires
        placed_entry_ok(tasks, dls, placed, level, u, bound),
    ensures
        (level[u] as int) < bound,
        level[u] == 0 ==> dls[u]@.len() == 0,
        dls[u]@.len() > 0 ==> level[u] > 0,
        forall|j: int|
            0 <= j < dls[u]@.len() ==> dep_placed_below(
                tasks,
                placed,
                level,
                #[trigger] dls[u]@[j],
                level[u] as int,
            ),
        level[u] > 0 ==> exists|j: int|
            0 <= j < dls[u]@.len() && dep_at_level(
                tasks,
                placed,
                level,
                #[trigger] dls[u]@[j],
                level[u] - 1,
            ),
{
    reveal(placed_entry_ok);
}

/// An unplaced task has a dependency that is missing or unplaced.
#[verifier::opaque]
spec fn stuck_witness(tasks: Seq<Task>, dls: Seq<Vec<Id>>, placed: Seq<bool>, u: int) -> bool {
    exists|j: int|
        0 <= j < dls[u]@.len() && !(has_task(tasks, #[trigger] dls[u]@[j]) && 0 <= task_index(
            tasks,
            dls[u]@[j],
        ) < placed.len() && placed[task_index(tasks, dls[u]@[j])])
}

/// Package the witness that a task cannot be placed.
proof fn lemma_stuck_witness_intro(tasks: Seq<Task>, dls: Seq<Vec<Id>>, placed: Seq<bool>, u: int)
    requires
        exists|j: int|
            0 <= j < dls[u]@.len() && !(has_task(tasks, #[trigger] dls[u]@[j]) && 0 <= task_index(
                tasks,
                dls[u]@[j],
            ) < placed.len() && placed[task_index(tasks, dls[u]@[j])]),
    ensures
        stuck_witness(tasks, dls, placed, u),
{
    reveal(stuck_witness);
}

/// Unpack the witness that a task cannot be placed.
proof fn lemma_stuck_witness_elim(tasks: Seq<Task>, dls: Seq<Vec<Id>>, placed: Seq<bool>, u: int)
    requires
        stuck_witness(tasks, dls, placed, u),
    ensures
        exists|j: int|
            0 <= j < dls[u]@.len() && !(has_task(tasks, #[trigger] dls[u]@[j]) && 0 <= task_index(
                tasks,
                dls[u]@[j],
            ) < placed.len() && placed[task_index(tasks, dls[u]@[j])]),
{
    reveal(stuck_witness);
}

/// The predicate "this flag is set", for counting placed tasks.
spec fn true_pred() -> spec_fn(bool) -> bool {
    |b: bool| b
}

/// Try to assign a level to one task: every dependency must exist and be
/// placed; the level is then zero without dependencies, else one more than
/// their greatest level.
fn try_place(
    tasks: &Vec<Task>,
    dl: &Vec<Id>,
    placed: &Vec<bool>,
    level: &Vec<usize>,
    bound: usize,
) -> (r: Option<usize>)
    requires
        distinct_ids(tasks@),
        placed@.len() == tasks@.len(),
        level@.len() == tasks@.len(),
        forall|v: int|
            0 <= v < tasks@.len() && placed@[v] ==> (#[trigger] level@[v] as int) < bound,
    ensures
        match r {
            Some(l) => {
                &&& l <= bound
                &&& (l == 0 ==> dl@.len() == 0)
                &&& (dl@.len() > 0 ==> l > 0)
                &&& (forall|j: int|
                    0 <= j < dl@.len() ==> dep_placed_below(
                        tasks@,
                        placed@,
                        level@,
                        #[trigger] dl@[j],
                        l as int,
                    ))
                &&& (l > 0 ==> exists|j: int|
                    0 <= j < dl@.len() && dep_at_level(
                        tasks@,
                        placed@,
                        level@,
                        #[trigger] dl@[j],
                        l - 1,
                    ))
            },
            None => exists|j: int|
                0 <= j < dl@.len() && !(has_task(tasks@, #[trigger] dl@[j]) && 0 <= task_index(
                    tasks@,
                    dl@[j],
                ) < placed@.len() && placed@[task_index(tasks@, dl@[j])]),
        },
{
    let m = dl.len();
    if m == 0 {
        return Some(0);
    }
    let mut maxl: usize = 0;
    for j in 0..m
        invariant
            m == dl@.len(),
            m > 0,
            distinct_ids(tasks@),
            placed@.len() == tasks@.len(),
            level@.len() == tasks@.len(),
            forall|v: int|
                0 <= v < tasks@.len() && placed@[v] ==> (#[trigger] level@[v] as int) < bound,
            forall|k: int|
                0 <= k < j ==> dep_placed_below(
                    tasks@,
                    placed@,
                    level@,
                    #[trigger] dl@[k],
                    maxl + 1,
                ),
            j > 0 ==> exists|k: int|
                0 <= k < j && dep_at_level(tasks@, placed@, level@, #[trigger] dl@[k], maxl as int),
            j > 0 ==> maxl < bound,
    {
        match crate::task::find_task_index(tasks, dl[j]) {
            None => {
                return None;
            },
            Some(k) => {
                proof {
                    crate::task::lemma_task_with_is_unique(tasks@, k as int);
                }
                if !placed[k] {
                    return None;
                }
                if j == 0 || level[k] > maxl {
                    maxl = level[k];
                }
            },
        }
    }
    Some(maxl + 1)
}

// ---------------------------------------------------------------------------
// Sorting a level
// ---------------------------------------------------------------------------

/// Order on task indices: earlier creation first, id as the tie-break.
spec fn key_le(tasks: Seq<Task>, a: int, b: int) -> bool {
    tasks[a].created_at < tasks[b].created_at || (tasks[a].created_at == tasks[b].created_at
        && tasks[a].id <= tasks[b].id)
}

/// Exec comparison for `key_le`.
fn key_le_exec(tasks: &Vec<Task>, a: usize, b: usize) -> (r: bool)
    requires
        a < tasks@.len(),
        b < tasks@.len(),
    ensures
        r == key_le(tasks@, a as int, b as int),
{
    tasks[a].created_at < tasks[b].created_at || (tasks[a].created_at == tasks[b].created_at
        && tasks[a].id <= tasks[b].id)
}

/// Insertion sort of task indices by creation time then id.
#[verifier::rlimit(100)]
#[verifier::spinoff_prover]
fn sort_indices_by_key(tasks: &Vec<Task>, idxs: &Vec<usize>) -> (r: Vec<usize>)
    requires
        forall|i: int| 0 <= i < idxs@.len() ==> (#[trigger] idxs@[i]) < tasks@.len(),
    ensures
        r@.to_multiset() == idxs@.to_multiset(),
        r@.len() == idxs@.len(),
        forall|i: int| 0 <= i < r@.len() ==> (#[trigger] r@[i]) < tasks@.len(),
        forall|i: int|
            #![trigger r@[i]]
            0 <= i && i + 1 < r@.len() ==> key_le(tasks@, r@[i] as int, r@[i + 1] as int),
        idxs@.no_duplicates() ==> r@.no_duplicates(),
{
    let n = idxs.len();
    let mut r: Vec<usize> = Vec::new();
    proof {
        assert(idxs@.take(0) =~= Seq::<usize>::empty());
        assert(r@ =~= Seq::<usize>::empty());
    }
    for i in 0..n
        invariant
            n == idxs@.len(),
            forall|q: int| 0 <= q < idxs@.len() ==> (#[trigger] idxs@[q]) < tasks@.len(),
            r@.to_multiset() == idxs@.take(i as int).to_multiset(),
            r@.len() == i,
            forall|q: int| 0 <= q < r@.len() ==> (#[trigger] r@[q]) < tasks@.len(),
            forall|q: int|
                #![trigger r@[q]]
                0 <= q && q + 1 < r@.len() ==> key_le(tasks@, r@[q] as int, r@[q + 1] as int),
    {
        let x = idxs[i];
        let mut j = r.len();
        while j > 0 && !key_le_exec(tasks, r[j - 1], x)
            invariant
                j <= r@.len(),
                forall|q: int| 0 <= q < r@.len() ==> (#[trigger] r@[q]) < tasks@.len(),
                x < tasks@.len(),
                forall|q: int|
                    #![trigger r@[q]]
                    j <= q < r@.len() ==> !key_le(tasks@, r@[q] as int, x as int),
            decreases j,
        {
            j = j - 1;
        }
        let ghost pre = r@;
        r.insert(j, x);
        proof {
            broadcast use vstd::multiset::group_multiset_axioms;

            let tk = pre.take(j as int);
            let sk = pre.skip(j as int);
            assert(r@ =~= tk.push(x) + sk);
            assert(pre =~= tk + sk);
            vstd::seq_lib::lemma_multiset_commutative(tk.push(x), sk);
            vstd::seq_lib::lemma_multiset_commutative(tk, sk);
            vstd::seq_lib::to_multiset_build(tk, x);
            assert(r@.to_multiset() =~= pre.to_multiset().insert(x));
            assert(idxs@.take(i + 1) =~= idxs@.take(i as int).push(x));
            vstd::seq_lib::to_multiset_build(idxs@.take(i as int), x);
            assert(idxs@.take(i + 1).to_multiset() =~= idxs@.take(i as int).to_multiset().insert(
                x,
            ));
            // sortedness after the insertion
            assert forall|q: int| #![trigger r@[q]] 0 <= q && q + 1 < r@.len() implies key_le(
                tasks@,
                r@[q] as int,
                r@[q + 1] as int,
            ) by {
                if q + 1 < j {
                    assert(r@[q] == pre[q] && r@[q + 1] == pre[q + 1]);
                } else if q + 1 == j {
                    assert(r@[q] == pre[q] && r@[q + 1] == x);
                } else if q == j {
                    assert(r@[q] == x && r@[q + 1] == pre[q]);
                } else {
                    assert(r@[q] == pre[q - 1] && r@[q + 1] == pre[q]);
                }
            }
        }
    }
    proof {
        lemma_take_full(idxs@);
        if idxs@.no_duplicates() {
            idxs@.lemma_multiset_has_no_duplicates();
            r@.lemma_multiset_has_no_duplicates_conv();
        }
    }
    r
}

/// Two sequences with equal multisets hold the same values.
proof fn lemma_same_content(a: Seq<usize>, b: Seq<usize>)
    requires
        a.to_multiset() == b.to_multiset(),
    ensures
        forall|x: usize| a.contains(x) == b.contains(x),
{
    assert forall|x: usize| a.contains(x) == b.contains(x) by {
        vstd::seq_lib::to_multiset_contains(a, x);
        vstd::seq_lib::to_multiset_contains(b, x);
        assert(a.to_multiset().count(x) == b.to_multiset().count(x));
    }
}

// ---------------------------------------------------------------------------
// Building the plan
// ---------------------------------------------------------------------------

/// Builds an execution plan from tasks and their dependencies.
///
/// The plan groups tasks by dependency level and carries statistics counted
/// once over the full task set; `in_review_tasks` counts the task status
/// itself, while the other counters follow readiness. Task ids must be
/// distinct (the stored data guarantees it).
#[verifier::spinoff_prover]
#[verifier::rlimit(100)]
pub fn build_execution_plan(tasks: &Vec<Task>, dependencies: &Vec<TaskDependency>) -> (plan:
    ExecutionPlan)
    requires
        distinct_ids(tasks@),
    ensures
        plan.total_tasks == tasks@.len(),
        plan.completed_tasks == count_matching(tasks@, done_pred()),
        plan.in_progress_tasks == count_matching(tasks@, in_progress_pred()),
        plan.in_review_tasks == count_matching(tasks@, in_review_pred()),
        plan.ready_tasks == count_matching(tasks@, ready_pred(dependencies@, tasks@)),
        plan.blocked_tasks == count_matching(tasks@, blocked_pred(dependencies@, tasks@)),
        plan.levels@.len() <= tasks@.len(),
        forall|a: int|
            0 <= a < plan.levels@.len() ==> (#[trigger] plan.levels@[a]).tasks@.len()
                <= tasks@.len(),
        forall|a: int|
            0 <= a < plan.levels@.len() ==> level_sorted(
                tasks@,
                (#[trigger] plan.levels@[a]).tasks@,
            ),
        forall|a: int| 0 <= a < plan.levels@.len() ==> (#[trigger] plan.levels@[a]).level == a,
        forall|a: int, k: int|
            0 <= a < plan.levels@.len() && 0 <= k < plan.levels@[a].tasks@.len() ==> entry_ok(
                #[trigger] plan.levels@[a].tasks@[k],
                tasks@,
                dependencies@,
            ),
        forall|a: int, k: int, j: int|
            #![trigger plan.levels@[a].tasks@[k].dependencies@[j]]
            0 <= a < plan.levels@.len() && 0 <= k < plan.levels@[a].tasks@.len() && 0 <= j
                < plan.levels@[a].tasks@[k].dependencies@.len() ==> placed_below(
                plan.levels@,
                plan.levels@[a].tasks@[k].dependencies@[j],
                a,
            ),
        forall|a: int, k: int|
            0 < a < plan.levels@.len() && 0 <= k < plan.levels@[a].tasks@.len() ==> exists|j: int|
                0 <= j < (#[trigger] plan.levels@[a].tasks@[k]).dependencies@.len()
                    && level_contains(
                    plan.levels@[a - 1],
                    plan.levels@[a].tasks@[k].dependencies@[j],
                ),
        forall|k: int|
            plan.levels@.len() > 0 && 0 <= k < plan.levels@[0].tasks@.len() ==> (
            #[trigger] plan.levels@[0].tasks@[k]).dependencies@.len() == 0,
        forall|a: int, k: int, b: int, k2: int|
            0 <= a < plan.levels@.len() && 0 <= k < plan.levels@[a].tasks@.len() && 0 <= b
                < plan.levels@.len() && 0 <= k2 < plan.levels@[b].tasks@.len() && (a != b || k
                != k2) ==> (#[trigger] plan.levels@[a].tasks@[k]).task_id != (
            #[trigger] plan.levels@[b].tasks@[k2]).task_id,
        (crate::dependency::edges_closed(tasks@, dependencies@)
            && !crate::dependency::has_dependency_cycle(dependencies@)) ==> (forall|k: int|
            0 <= k < tasks@.len() ==> placed_in_plan(plan.levels@, (#[trigger] tasks@[k]).id))
            && flat_tasks(plan.levels@).len() == tasks@.len(),
        plan_levels_ok(tasks@, dependencies@, plan.levels@),
{
    let n = tasks.len();

    // Dependency-id lists, one per task index.
    let mut dep_lists: Vec<Vec<Id>> = Vec::new();
    for u in 0..n
        invariant
            n == tasks@.len(),
            dep_lists@.len() == u,
            forall|k: int|
                0 <= k < u ==> (#[trigger] dep_lists@[k])@ == dep_ids_of(
                    dependencies@,
                    tasks@[k].id,
                ),
    {
        dep_lists.push(crate::dependency::get_dependency_tasks(tasks[u].id, dependencies));
    }

    // Level assignment by relaxation: place a task once all its
    // dependencies are placed, at one more than their greatest level.
    let mut placed: Vec<bool> = Vec::new();
    let mut level: Vec<usize> = Vec::new();
    for u in 0..n
        invariant
            placed@.len() == u,
            level@.len() == u,
            forall|k: int| 0 <= k < u ==> !(#[trigger] placed@[k]),
    {
        placed.push(false);
        level.push(0);
    }
    proof {
        assert(count_matching(placed@, true_pred()) == 0) by {
            lemma_count_none(placed@, true_pred());
        }
    }
    let mut placed_count: usize = 0;
    let mut progress = true;
    while progress
        invariant
            n == tasks@.len(),
            distinct_ids(tasks@),
            dep_lists@.len() == n,
            forall|k: int|
                0 <= k < n ==> (#[trigger] dep_lists@[k])@ == dep_ids_of(
                    dependencies@,
                    tasks@[k].id,
                ),
            placed@.len() == n,
            level@.len() == n,
            placed_count == count_matching(placed@, true_pred()),
            placed_count <= n,
            placement_ok(tasks@, dep_lists@, placed@, level@, placed_count as int),
            !progress ==> forall|v: int|
                0 <= v < n && !(#[trigger] placed@[v]) ==> stuck_witness(tasks@, dep_lists@, placed@, v),
        decreases n - placed_count + (if progress {
            1int
        } else {
            0int
        }),
    {
        progress = false;
        let ghost start_count = placed_count as int;
        for u in 0..n
            invariant
                n == tasks@.len(),
                distinct_ids(tasks@),
                dep_lists@.len() == n,
                forall|k: int|
                    0 <= k < n ==> (#[trigger] dep_lists@[k])@ == dep_ids_of(
                        dependencies@,
                        tasks@[k].id,
                    ),
                placed@.len() == n,
                level@.len() == n,
                placed_count == count_matching(placed@, true_pred()),
                placed_count <= n,
                placement_ok(tasks@, dep_lists@, placed@, level@, placed_count as int),
                placed_count >= start_count,
                progress == (placed_count > start_count),
                !progress ==> forall|v: int|
                    0 <= v < u && !(#[trigger] placed@[v]) ==> stuck_witness(
                        tasks@,
                        dep_lists@,
                        placed@,
                        v,
                    ),
        {
            if !placed[u] {
                proof {
                    lemma_count_lt_len_at(placed@, true_pred(), u as int);
                    assert forall|v: int|
                        0 <= v < tasks@.len() && placed@[v] implies (#[trigger] level@[v] as int)
                        < placed_count as int by {
                        lemma_placed_entry_ok_elim(
                            tasks@,
                            dep_lists@,
                            placed@,
                            level@,
                            v,
                            placed_count as int,
                        );
                    }
                }
                match try_place(tasks, &dep_lists[u], &placed, &level, placed_count) {
                    Some(l) => {
                        let ghost old_placed = placed@;
                        let ghost old_level = level@;
                        level[u] = l;
                        placed[u] = true;
                        placed_count = placed_count + 1;
                        progress = true;
                        proof {
                            lemma_count_update_true(old_placed, true_pred(), u as int);
                            assert forall|v: int| 0 <= v < n && placed@[v] implies placed_entry_ok(
                                tasks@,
                                dep_lists@,
                                placed@,
                                level@,
                                v,
                                placed_count as int,
                            ) by {
                                if v == u {
                                    assert forall|j: int|
                                        0 <= j < dep_lists@[v]@.len() implies dep_placed_below(
                                        tasks@,
                                        placed@,
                                        level@,
                                        #[trigger] dep_lists@[v]@[j],
                                        level@[v] as int,
                                    ) by {
                                        let d = dep_lists@[v]@[j];
                                        assert(dep_placed_below(
                                            tasks@,
                                            old_placed,
                                            old_level,
                                            d,
                                            l as int,
                                        ));
                                        assert(task_index(tasks@, d) != u);
                                    }
                                    if l > 0 {
                                        let j = choose|j: int|
                                            0 <= j < dep_lists@[v]@.len() && dep_at_level(
                                                tasks@,
                                                old_placed,
                                                old_level,
                                                #[trigger] dep_lists@[v]@[j],
                                                l - 1,
                                            );
                                        assert(task_index(tasks@, dep_lists@[v]@[j]) != u);
                                        assert(dep_at_level(
                                            tasks@,
                                            placed@,
                                            level@,
                                            dep_lists@[v]@[j],
                                            level@[v] - 1,
                                        ));
                                    }
                                    lemma_placed_entry_ok_intro(
                                        tasks@,
                                        dep_lists@,
                                        placed@,
                                        level@,
                                        v,
                                        placed_count as int,
                                    );
                                } else {
                                    assert(old_placed[v]);
                                    lemma_placed_entry_ok_elim(
                                        tasks@,
                                        dep_lists@,
                                        old_placed,
                                        old_level,
                                        v,
                                        placed_count - 1,
                                    );
                                    assert forall|j: int|
                                        0 <= j < dep_lists@[v]@.len() implies dep_placed_below(
                                        tasks@,
                                        placed@,
                                        level@,
                                        #[trigger] dep_lists@[v]@[j],
                                        level@[v] as int,
                                    ) by {
                                        let d = dep_lists@[v]@[j];
                                        assert(dep_placed_below(
                                            tasks@,
                                            old_placed,
                                            old_level,
                                            d,
                                            old_level[v] as int,
                                        ));
                                        assert(old_placed[task_index(tasks@, d)]);
                                        assert(task_index(tasks@, d) != u);
                                    }
                                    if level@[v] > 0 {
                                        let j = choose|j: int|
                                            0 <= j < dep_lists@[v]@.len() && dep_at_level(
                                                tasks@,
                                                old_placed,
                                                old_level,
                                                #[trigger] dep_lists@[v]@[j],
                                                old_level[v] - 1,
                                            );
                                        assert(task_index(tasks@, dep_lists@[v]@[j]) != u);
                                        assert(dep_at_level(
                                            tasks@,
                                            placed@,
                                            level@,
                                            dep_lists@[v]@[j],
                                            level@[v] - 1,
                                        ));
                                    }
                                    lemma_placed_entry_ok_intro(
                                        tasks@,
                                        dep_lists@,
                                        placed@,
                                        level@,
                                        v,
                                        placed_count as int,
                                    );
                                }
                            }
                        }
                    },
                    None => {
                        proof {
                            lemma_stuck_witness_intro(tasks@, dep_lists@, placed@, u as int);
                        }
                    },
                }
            }
        }
    }

    // Greatest assigned level.
    let mut any_placed = false;
    let mut max_level: usize = 0;
    for u in 0..n
        invariant
            n == tasks@.len(),
            placed@.len() == n,
            level@.len() == n,
            dep_lists@.len() == n,
            placed_count <= n,
            placement_ok(tasks@, dep_lists@, placed@, level@, placed_count as int),
            any_placed == (exists|v: int| 0 <= v < u && #[trigger] placed@[v]),
            any_placed ==> exists|v: int|
                0 <= v < u && #[trigger] placed@[v] && level@[v] == max_level,
            forall|v: int| 0 <= v < u && #[trigger] placed@[v] ==> level@[v] <= max_level,
            any_placed ==> max_level < n,
    {
        if placed[u] {
            proof {
                lemma_placed_entry_ok_elim(
                    tasks@,
                    dep_lists@,
                    placed@,
                    level@,
                    u as int,
                    placed_count as int,
                );
            }
            if !any_placed || level[u] > max_level {
                max_level = level[u];
            }
            any_placed = true;
        }
    }

    // Group placed tasks by level, each level sorted.
    let mut levels: Vec<ExecutionLevel> = Vec::new();
    proof {
        reveal(levels_cover);
        assert(levels_cover(levels@, tasks@, placed@, level@));
    }
    if any_placed {
        let mut li: usize = 0;
        while li <= max_level
            invariant
                n == tasks@.len(),
                distinct_ids(tasks@),
                placed@.len() == n,
                level@.len() == n,
                max_level < n,
                li <= max_level + 1,
                levels@.len() == li,
                forall|a: int| 0 <= a < li ==> (#[trigger] levels@[a]).level == a,
                forall|a: int|
                    0 <= a < li ==> (#[trigger] levels@[a]).tasks@.len() <= tasks@.len(),
                forall|a: int| 0 <= a < li ==> level_sorted(tasks@, (#[trigger] levels@[a]).tasks@),
                forall|a: int, k: int|
                    0 <= a < li && 0 <= k < levels@[a].tasks@.len() ==> entry_sound(
                        #[trigger] levels@[a].tasks@[k],
                        a,
                        tasks@,
                        dependencies@,
                        placed@,
                        level@,
                    ),
                levels_cover(levels@, tasks@, placed@, level@),
                forall|a: int, k: int, k2: int|
                    0 <= a < li && 0 <= k < levels@[a].tasks@.len() && 0 <= k2
                        < levels@[a].tasks@.len() && k != k2 ==> (#[trigger] levels@[a].tasks@[k]).task_id
                        != (#[trigger] levels@[a].tasks@[k2]).task_id,
            decreases max_level + 1 - li,
        {
            let entries = build_level_entries(tasks, dependencies, &placed, &level, li);
            let ghost pre_levels = levels@;
            levels.push(ExecutionLevel { level: li, tasks: entries });
            proof {
                assert(levels@[li as int].tasks@ == entries@);
                lemma_levels_cover_extend(pre_levels, levels@, tasks@, placed@, level@, li);
            }
            li = li + 1;
        }
    }

    // The level structure is correct.
    proof {
        assert forall|v: int| 0 <= v < n && #[trigger] placed@[v] implies (level@[v] as int)
            < levels@.len() by {}
        lemma_levels_entries_ok(levels@, tasks@, dependencies@, placed@, level@);
        lemma_levels_deps_below(
            levels@,
            tasks@,
            dependencies@,
            dep_lists@,
            placed@,
            level@,
            placed_count as int,
        );
        lemma_levels_unique(levels@, tasks@, dependencies@, placed@, level@);
        if crate::dependency::edges_closed(tasks@, dependencies@)
            && !crate::dependency::has_dependency_cycle(dependencies@) {
            lemma_no_cycle_all_placed(tasks@, dependencies@, dep_lists@, placed@);
            assert forall|k: int| 0 <= k < tasks@.len() implies placed_in_plan(
                levels@,
                (#[trigger] tasks@[k]).id,
            ) by {
                assert(placed@[k]);
                lemma_levels_cover_elim(levels@, tasks@, placed@, level@, k);
                assert(level_contains(levels@[level@[k] as int], tasks@[k].id));
            }
            assert forall|a: int, k: int|
                0 <= a < levels@.len() && 0 <= k < levels@[a].tasks@.len() implies has_task(
                tasks@,
                (#[trigger] levels@[a].tasks@[k]).task_id,
            ) by {
                lemma_entry_ok_elim(levels@[a].tasks@[k], tasks@, dependencies@);
            }
            lemma_flat_complete_len(levels@, tasks@);
        }
        lemma_plan_levels_ok_intro(tasks@, dependencies@, levels@);
    }

    // Statistics over the full task set.
    let (completed, in_progress, in_review, ready, blocked) = compute_plan_stats(
        tasks,
        &dep_lists,
        dependencies,
    );

    ExecutionPlan {
        levels,
        total_tasks: n,
        completed_tasks: completed,
        in_progress_tasks: in_progress,
        in_review_tasks: in_review,
        ready_tasks: ready,
        blocked_tasks: blocked,
    }
}

/// The indices of the tasks placed at one level, in ascending order.
fn collect_level_indices(placed: &Vec<bool>, level: &Vec<usize>, li: usize) -> (idxs: Vec<usize>)
    requires
        placed@.len() == level@.len(),
    ensures
        idxs@.len() <= placed@.len(),
        forall|q: int|
            0 <= q < idxs@.len() ==> (#[trigger] idxs@[q]) < placed@.len()
                && placed@[idxs@[q] as int] && level@[idxs@[q] as int] == li,
        forall|q: int, q2: int|
            0 <= q < q2 < idxs@.len() ==> (#[trigger] idxs@[q]) < (#[trigger] idxs@[q2]),
        idxs@.no_duplicates(),
        forall|v: int|
            0 <= v < placed@.len() && #[trigger] placed@[v] && level@[v] == li ==> idxs@.contains(
                v as usize,
            ),
{
    let n = placed.len();
    let mut idxs: Vec<usize> = Vec::new();
    for u in 0..n
        invariant
            n == placed@.len(),
            n == level@.len(),
            idxs@.len() <= u,
            forall|q: int| 0 <= q < idxs@.len() ==> (#[trigger] idxs@[q]) < u,
            forall|q: int|
                0 <= q < idxs@.len() ==> placed@[#[trigger] idxs@[q] as int]
                    && level@[idxs@[q] as int] == li,
            forall|q: int, q2: int|
                0 <= q < q2 < idxs@.len() ==> (#[trigger] idxs@[q]) < (#[trigger] idxs@[q2]),
            forall|v: int|
                0 <= v < u && #[trigger] placed@[v] && level@[v] == li ==> idxs@.contains(
                    v as usize,
                ),
    {
        if placed[u] && level[u] == li {
            let ghost pre = idxs@;
            idxs.push(u);
            proof {
                assert(idxs@[idxs@.len() - 1] == u as usize);
                assert forall|v: int|
                    0 <= v < u + 1 && #[trigger] placed@[v] && level@[v] == li implies idxs@.contains(
                    v as usize,
                ) by {
                    if v < u {
                        let q = choose|q: int| 0 <= q < pre.len() && pre[q] == v as usize;
                        assert(idxs@[q] == v as usize);
                    } else {
                        assert(idxs@[idxs@.len() - 1] == v as usize);
                    }
                }
            }
        }
    }
    proof {
        assert forall|q: int, q2: int|
            0 <= q < idxs@.len() && 0 <= q2 < idxs@.len() && q != q2 implies idxs@[q]
            != idxs@[q2] by {
            if q < q2 {
                assert(idxs@[q] < idxs@[q2]);
            } else {
                assert(idxs@[q2] < idxs@[q]);
            }
        }
        assert(idxs@.no_duplicates());
    }
    idxs
}

/// Every task placed at the level appears among these indices.
#[verifier::opaque]
spec fn covers_level(s: Seq<usize>, placed: Seq<bool>, level: Seq<usize>, li: usize) -> bool {
    forall|v: int|
        0 <= v < placed.len() && #[trigger] placed[v] && level[v] == li ==> s.contains(v as usize)
}

/// Package the cover fact for an index list.
proof fn lemma_covers_level_intro(s: Seq<usize>, placed: Seq<bool>, level: Seq<usize>, li: usize)
    requires
        forall|v: int|
            0 <= v < placed.len() && #[trigger] placed[v] && level[v] == li ==> s.contains(
                v as usize,
            ),
    ensures
        covers_level(s, placed, level, li),
{
    reveal(covers_level);
}

/// Use the cover fact for one task index.
proof fn lemma_covers_level_elim(
    s: Seq<usize>,
    placed: Seq<bool>,
    level: Seq<usize>,
    li: usize,
    v: int,
)
    requires
        covers_level(s, placed, level, li),
        0 <= v < placed.len(),
        placed[v],
        level[v] == li,
    ensures
        s.contains(v as usize),
{
    reveal(covers_level);
}

/// Every task placed at the level has an entry with its id.
#[verifier::opaque]
spec fn entries_cover(
    entries: Seq<ExecutableTask>,
    tasks: Seq<Task>,
    placed: Seq<bool>,
    level: Seq<usize>,
    li: usize,
) -> bool {
    forall|v: int|
        0 <= v < tasks.len() && #[trigger] placed[v] && level[v] == li ==> exists|k: int|
            0 <= k < entries.len() && entries[k].task_id == tasks[v].id
}

/// Every placed task below the built levels appears in its level.
#[verifier::opaque]
spec fn levels_cover(
    levels: Seq<ExecutionLevel>,
    tasks: Seq<Task>,
    placed: Seq<bool>,
    level: Seq<usize>,
) -> bool {
    forall|v: int|
        0 <= v < tasks.len() && #[trigger] placed[v] && (level[v] as int) < levels.len()
            ==> level_contains(levels[level[v] as int], tasks[v].id)
}

/// Use the level-cover fact for one task index.
proof fn lemma_levels_cover_elim(
    levels: Seq<ExecutionLevel>,
    tasks: Seq<Task>,
    placed: Seq<bool>,
    level: Seq<usize>,
    v: int,
)
    requires
        levels_cover(levels, tasks, placed, level),
        0 <= v < tasks.len(),
        placed[v],
        (level[v] as int) < levels.len(),
    ensures
        level_contains(levels[level[v] as int], tasks[v].id),
{
    reveal(levels_cover);
}

/// Extending the built levels by one more level keeps every placed task
/// covered, when the new level's entries cover the tasks placed at it.
proof fn lemma_levels_cover_extend(
    pre: Seq<ExecutionLevel>,
    levels: Seq<ExecutionLevel>,
    tasks: Seq<Task>,
    placed: Seq<bool>,
    level: Seq<usize>,
    li: usize,
)
    requires
        levels_cover(pre, tasks, placed, level),
        pre.len() == li,
        levels.len() == li + 1,
        forall|a: int| 0 <= a < li ==> levels[a] == pre[a],
        entries_cover(levels[li as int].tasks@, tasks, placed, level, li),
    ensures
        levels_cover(levels, tasks, placed, level),
{
    reveal(levels_cover);
    reveal(entries_cover);
    assert forall|v: int|
        0 <= v < tasks.len() && #[trigger] placed[v] && (level[v] as int)
            < levels.len() implies level_contains(levels[level[v] as int], tasks[v].id) by {
        if (level[v] as int) < pre.len() {
            assert(level_contains(pre[level[v] as int], tasks[v].id));
            let l0 = pre[level[v] as int];
            let k = choose|k: int| 0 <= k < l0.tasks@.len() && l0.tasks@[k].task_id == tasks[v].id;
            assert(levels[level[v] as int].tasks@[k].task_id == tasks[v].id);
        } else {
            let es = levels[li as int].tasks@;
            let k = choose|k: int| 0 <= k < es.len() && es[k].task_id == tasks[v].id;
            assert(levels[li as int].tasks@[k].task_id == tasks[v].id);
        }
    }
}

/// The indices of the tasks placed at one level, ordered by creation time
/// then id.
#[verifier::spinoff_prover]
#[verifier::rlimit(100)]
fn sorted_level_indices(
    tasks: &Vec<Task>,
    placed: &Vec<bool>,
    level: &Vec<usize>,
    li: usize,
) -> (sorted: Vec<usize>)
    requires
        placed@.len() == tasks@.len(),
        level@.len() == tasks@.len(),
    ensures
        sorted@.len() <= tasks@.len(),
        forall|q: int|
            0 <= q < sorted@.len() ==> (#[trigger] sorted@[q]) < tasks@.len()
                && placed@[sorted@[q] as int] && level@[sorted@[q] as int] == li,
        sorted@.no_duplicates(),
        forall|q: int|
            #![trigger sorted@[q]]
            0 <= q && q + 1 < sorted@.len() ==> key_le(
                tasks@,
                sorted@[q] as int,
                sorted@[q + 1] as int,
            ),
        covers_level(sorted@, placed@, level@, li),
{
    let idxs = collect_level_indices(placed, level, li);
    let sorted = sort_indices_by_key(tasks, &idxs);
    proof {
        lemma_same_content(idxs@, sorted@);
        assert forall|q: int|
            0 <= q < sorted@.len() implies (#[trigger] sorted@[q]) < tasks@.len()
            && placed@[sorted@[q] as int] && level@[sorted@[q] as int] == li by {
            assert(sorted@.contains(sorted@[q]));
            assert(idxs@.contains(sorted@[q]));
            let w = choose|w: int| 0 <= w < idxs@.len() && idxs@[w] == sorted@[q];
            assert(placed@[idxs@[w] as int] && level@[idxs@[w] as int] == li);
        }
        assert forall|v: int|
            0 <= v < placed@.len() && #[trigger] placed@[v] && level@[v] == li implies sorted@.contains(
            v as usize,
        ) by {
            assert(idxs@.contains(v as usize));
        }
        lemma_covers_level_intro(sorted@, placed@, level@, li);
    }
    sorted
}

/// Entries built along a key-sorted index list are level-sorted.
proof fn lemma_entries_sorted(entries: Seq<ExecutableTask>, sorted: Seq<usize>, tasks: Seq<Task>)
    requires
        distinct_ids(tasks),
        entries.len() == sorted.len(),
        forall|q: int| 0 <= q < sorted.len() ==> (#[trigger] sorted[q]) < tasks.len(),
        forall|q: int|
            #![trigger sorted[q]]
            0 <= q && q + 1 < sorted.len() ==> key_le(tasks, sorted[q] as int, sorted[q + 1] as int),
        forall|q: int|
            0 <= q < entries.len() ==> (#[trigger] entries[q]).task_id == tasks[sorted[q] as int].id,
    ensures
        level_sorted(tasks, entries),
{
    assert forall|k: int| 0 <= k && k + 1 < entries.len() implies id_key_le(
        tasks,
        (#[trigger] entries[k]).task_id,
        entries[k + 1].task_id,
    ) by {
        let u = sorted[k] as int;
        let u2 = sorted[k + 1] as int;
        crate::task::lemma_task_with_is_unique(tasks, u);
        crate::task::lemma_task_with_is_unique(tasks, u2);
    }
    reveal(level_sorted);
}

/// The facts about a finished level: distinct ids, deterministic order, and
/// an entry for every task placed at the level.
#[verifier::spinoff_prover]
#[verifier::rlimit(100)]
proof fn lemma_level_entries_facts(
    entries: Seq<ExecutableTask>,
    sorted: Seq<usize>,
    tasks: Seq<Task>,
    placed: Seq<bool>,
    level: Seq<usize>,
    li: usize,
)
    requires
        distinct_ids(tasks),
        tasks.len() <= usize::MAX,
        placed.len() == tasks.len(),
        level.len() == tasks.len(),
        entries.len() == sorted.len(),
        forall|q: int|
            0 <= q < sorted.len() ==> (#[trigger] sorted[q]) < tasks.len(),
        sorted.no_duplicates(),
        forall|q: int|
            #![trigger sorted[q]]
            0 <= q && q + 1 < sorted.len() ==> key_le(tasks, sorted[q] as int, sorted[q + 1] as int),
        covers_level(sorted, placed, level, li),
        forall|q: int|
            0 <= q < entries.len() ==> (#[trigger] entries[q]).task_id == tasks[sorted[q] as int].id,
    ensures
        forall|k: int, k2: int|
            0 <= k < entries.len() && 0 <= k2 < entries.len() && k != k2 ==> (
            #[trigger] entries[k]).task_id != (#[trigger] entries[k2]).task_id,
        entries_cover(entries, tasks, placed, level, li),
        level_sorted(tasks, entries),
{
    assert forall|k: int, k2: int|
        0 <= k < entries.len() && 0 <= k2 < entries.len() && k != k2 implies (
    #[trigger] entries[k]).task_id != (#[trigger] entries[k2]).task_id by {
        let u = sorted[k] as int;
        let u2 = sorted[k2] as int;
        assert(u != u2);
        if u < u2 {
            assert(tasks[u].id != tasks[u2].id);
        } else {
            assert(tasks[u2].id != tasks[u].id);
        }
    }
    lemma_entries_sorted(entries, sorted, tasks);
    reveal(entries_cover);
    assert forall|v: int|
        0 <= v < tasks.len() && #[trigger] placed[v] && level[v] == li implies exists|k: int|
        0 <= k < entries.len() && entries[k].task_id == tasks[v].id by {
        lemma_covers_level_elim(sorted, placed, level, li, v);
        assert(exists|i: int| 0 <= i < sorted.len() && sorted[i] == v as usize);
        let k = choose|k: int| 0 <= k < sorted.len() && sorted[k] == v as usize;
        assert(0 <= k < sorted.len() && sorted[k] == v as usize);
        assert(entries[k].task_id == tasks[sorted[k] as int].id);
        assert(sorted[k] as int == v);
        assert(entries[k].task_id == tasks[v].id);
    }
}

/// Collect the tasks placed at one level, in creation order, as executable
/// entries.
#[verifier::spinoff_prover]
#[verifier::rlimit(100)]
fn build_level_entries(
    tasks: &Vec<Task>,
    dependencies: &Vec<TaskDependency>,
    placed: &Vec<bool>,
    level: &Vec<usize>,
    li: usize,
) -> (entries: Vec<ExecutableTask>)
    requires
        distinct_ids(tasks@),
        placed@.len() == tasks@.len(),
        level@.len() == tasks@.len(),
    ensures
        entries@.len() <= tasks@.len(),
        forall|k: int|
            0 <= k < entries@.len() ==> entry_sound(
                #[trigger] entries@[k],
                li as int,
                tasks@,
                dependencies@,
                placed@,
                level@,
            ),
        entries_cover(entries@, tasks@, placed@, level@, li),
        level_sorted(tasks@, entries@),
        forall|k: int, k2: int|
            0 <= k < entries@.len() && 0 <= k2 < entries@.len() && k != k2 ==> (
            #[trigger] entries@[k]).task_id != (#[trigger] entries@[k2]).task_id,
{
    let sorted = sorted_level_indices(tasks, placed, level, li);
    let mut entries: Vec<ExecutableTask> = Vec::new();
    let sn = sorted.len();
    for k in 0..sn
        invariant
            distinct_ids(tasks@),
            sn == sorted@.len(),
            forall|q: int|
                0 <= q < sorted@.len() ==> (#[trigger] sorted@[q]) < tasks@.len()
                    && placed@[sorted@[q] as int] && level@[sorted@[q] as int] == li,
            placed@.len() == tasks@.len(),
            level@.len() == tasks@.len(),
            entries@.len() == k,
            forall|q: int|
                0 <= q < k ==> (#[trigger] entries@[q]).task_id == tasks@[sorted@[q] as int].id,
            forall|q: int|
                0 <= q < k ==> entry_sound(
                    #[trigger] entries@[q],
                    li as int,
                    tasks@,
                    dependencies@,
                    placed@,
                    level@,
                ),
    {
        let u = sorted[k];
        let deps_vec = crate::dependency::get_dependency_tasks(tasks[u].id, dependencies);
        let dependents_vec = crate::dependency::get_dependent_tasks(tasks[u].id, dependencies);
        let readiness = calculate_readiness(&tasks[u], &deps_vec, tasks);
        entries.push(
            ExecutableTask {
                task_id: tasks[u].id,
                status: tasks[u].status,
                readiness,
                dependencies: deps_vec,
                dependents: dependents_vec,
            },
        );
        proof {
            lemma_entry_sound_intro(
                entries@.last(),
                li as int,
                tasks@,
                dependencies@,
                placed@,
                level@,
                u as int,
            );
        }
    }
    proof {
        assert(tasks@.len() == tasks.len());
        lemma_level_entries_facts(entries@, sorted@, tasks@, placed@, level@, li);
    }
    entries
}

/// Package the construction facts of one entry into `entry_sound`./// Package the construction facts of one entry into `entry_sound`.
proof fn lemma_entry_sound_intro(
    e: ExecutableTask,
    li: int,
    tasks: Seq<Task>,
    deps: Seq<TaskDependency>,
    placed: Seq<bool>,
    level: Seq<usize>,
    u: int,
)
    requires
        distinct_ids(tasks),
        placed.len() == tasks.len(),
        level.len() == tasks.len(),
        0 <= u < tasks.len(),
        placed[u],
        level[u] == li,
        e.task_id == tasks[u].id,
        e.status == tasks[u].status,
        e.dependencies@ == dep_ids_of(deps, tasks[u].id),
        e.dependents@ == dependent_ids_of(deps, tasks[u].id),
        readiness_matches(e.readiness, tasks[u].status, dep_ids_of(deps, tasks[u].id), tasks),
    ensures
        entry_sound(e, li, tasks, deps, placed, level),
{
    reveal(entry_ok);
    reveal(entry_sound);
    crate::task::lemma_task_with_is_unique(tasks, u);
}

/// Unpack `entry_sound` into its parts.
proof fn lemma_entry_sound_elim(
    e: ExecutableTask,
    a: int,
    tasks: Seq<Task>,
    deps: Seq<TaskDependency>,
    placed: Seq<bool>,
    level: Seq<usize>,
)
    requires
        entry_sound(e, a, tasks, deps, placed, level),
    ensures
        entry_ok(e, tasks, deps),
        placed.len() == tasks.len(),
        level.len() == tasks.len(),
        0 <= task_index(tasks, e.task_id) < tasks.len(),
        placed[task_index(tasks, e.task_id)],
        level[task_index(tasks, e.task_id)] == a,
{
    reveal(entry_sound);
}

/// Unpack `entry_ok` into its parts.
pub proof fn lemma_entry_ok_elim(e: ExecutableTask, tasks: Seq<Task>, deps: Seq<TaskDependency>)
    requires
        entry_ok(e, tasks, deps),
    ensures
        has_task(tasks, e.task_id),
        e.status == task_with(tasks, e.task_id).status,
        e.dependencies@ == dep_ids_of(deps, e.task_id),
        e.dependents@ == dependent_ids_of(deps, e.task_id),
        readiness_matches(
            e.readiness,
            task_with(tasks, e.task_id).status,
            dep_ids_of(deps, e.task_id),
            tasks,
        ),
{
    reveal(entry_ok);
}

/// Every dependency of a placed entry is placed strictly below it.
#[verifier::spinoff_prover]
#[verifier::rlimit(100)]
proof fn lemma_levels_deps_below(
    ls: Seq<ExecutionLevel>,
    ts: Seq<Task>,
    ds: Seq<TaskDependency>,
    dls: Seq<Vec<Id>>,
    placed: Seq<bool>,
    level: Seq<usize>,
    bound: int,
)
    requires
        distinct_ids(ts),
        placed.len() == ts.len(),
        level.len() == ts.len(),
        dls.len() == ts.len(),
        forall|k: int| 0 <= k < ts.len() ==> (#[trigger] dls[k])@ == dep_ids_of(ds, ts[k].id),
        placement_ok(ts, dls, placed, level, bound),
        forall|a: int, k: int|
            0 <= a < ls.len() && 0 <= k < ls[a].tasks@.len() ==> entry_sound(
                #[trigger] ls[a].tasks@[k],
                a,
                ts,
                ds,
                placed,
                level,
            ),
        levels_cover(ls, ts, placed, level),
        forall|v: int| 0 <= v < ts.len() && #[trigger] placed[v] ==> (level[v] as int) < ls.len(),
    ensures
        forall|a: int, k: int, j: int|
            #![trigger ls[a].tasks@[k].dependencies@[j]]
            0 <= a < ls.len() && 0 <= k < ls[a].tasks@.len() && 0 <= j
                < ls[a].tasks@[k].dependencies@.len() ==> placed_below(
                ls,
                ls[a].tasks@[k].dependencies@[j],
                a,
            ),
        forall|a: int, k: int|
            0 < a < ls.len() && 0 <= k < ls[a].tasks@.len() ==> exists|j: int|
                0 <= j < (#[trigger] ls[a].tasks@[k]).dependencies@.len() && level_contains(
                    ls[a - 1],
                    ls[a].tasks@[k].dependencies@[j],
                ),
        forall|k: int|
            ls.len() > 0 && 0 <= k < ls[0].tasks@.len() ==> (
            #[trigger] ls[0].tasks@[k]).dependencies@.len() == 0,
{
    assert forall|a: int, k: int, j: int|
        #![trigger ls[a].tasks@[k].dependencies@[j]]
        0 <= a < ls.len() && 0 <= k < ls[a].tasks@.len() && 0 <= j
            < ls[a].tasks@[k].dependencies@.len() implies placed_below(
        ls,
        ls[a].tasks@[k].dependencies@[j],
        a,
    ) by {
        let e = ls[a].tasks@[k];
        lemma_entry_sound_elim(e, a, ts, ds, placed, level);
        lemma_entry_ok_elim(e, ts, ds);
        let u = task_index(ts, e.task_id);
        assert(placed[u]);
        lemma_placed_entry_ok_elim(ts, dls, placed, level, u, bound);
        assert(dls[u]@ == e.dependencies@);
        let d = e.dependencies@[j];
        assert(dep_placed_below(ts, placed, level, d, level[u] as int));
        let w = task_index(ts, d);
        assert(ts[w].id == d);
        lemma_levels_cover_elim(ls, ts, placed, level, w);
        assert(0 <= (level[w] as int) < a && level_contains(ls[level[w] as int], d));
    }
    assert forall|a: int, k: int|
        0 < a < ls.len() && 0 <= k < ls[a].tasks@.len() implies exists|j: int|
        0 <= j < (#[trigger] ls[a].tasks@[k]).dependencies@.len() && level_contains(
            ls[a - 1],
            ls[a].tasks@[k].dependencies@[j],
        ) by {
        let e = ls[a].tasks@[k];
        lemma_entry_sound_elim(e, a, ts, ds, placed, level);
        lemma_entry_ok_elim(e, ts, ds);
        let u = task_index(ts, e.task_id);
        assert(placed[u]);
        lemma_placed_entry_ok_elim(ts, dls, placed, level, u, bound);
        assert(dls[u]@ == e.dependencies@);
        assert(level[u] == a && a > 0);
        let j = choose|j: int|
            0 <= j < dls[u]@.len() && dep_at_level(ts, placed, level, #[trigger] dls[u]@[j], a - 1);
        let d = e.dependencies@[j];
        let w = task_index(ts, d);
        assert(ts[w].id == d);
        lemma_levels_cover_elim(ls, ts, placed, level, w);
        assert(level_contains(ls[a - 1], e.dependencies@[j]));
    }
    assert forall|k: int|
        ls.len() > 0 && 0 <= k < ls[0].tasks@.len() implies (
    #[trigger] ls[0].tasks@[k]).dependencies@.len() == 0 by {
        let e = ls[0].tasks@[k];
        lemma_entry_sound_elim(e, 0, ts, ds, placed, level);
        lemma_entry_ok_elim(e, ts, ds);
        let u = task_index(ts, e.task_id);
        assert(placed[u]);
        lemma_placed_entry_ok_elim(ts, dls, placed, level, u, bound);
        assert(dls[u]@ == e.dependencies@);
    }
}

/// No task id appears in two different places of the plan.
#[verifier::spinoff_prover]
#[verifier::rlimit(100)]
proof fn lemma_levels_unique(
    ls: Seq<ExecutionLevel>,
    ts: Seq<Task>,
    ds: Seq<TaskDependency>,
    placed: Seq<bool>,
    level: Seq<usize>,
)
    requires
        distinct_ids(ts),
        forall|a: int, k: int|
            0 <= a < ls.len() && 0 <= k < ls[a].tasks@.len() ==> entry_sound(
                #[trigger] ls[a].tasks@[k],
                a,
                ts,
                ds,
                placed,
                level,
            ),
        forall|a: int, k: int, k2: int|
            0 <= a < ls.len() && 0 <= k < ls[a].tasks@.len() && 0 <= k2 < ls[a].tasks@.len() && k
                != k2 ==> (#[trigger] ls[a].tasks@[k]).task_id != (#[trigger] ls[a].tasks@[k2]).task_id,
    ensures
        forall|a: int, k: int, b: int, k2: int|
            0 <= a < ls.len() && 0 <= k < ls[a].tasks@.len() && 0 <= b < ls.len() && 0 <= k2
                < ls[b].tasks@.len() && (a != b || k != k2) ==> (#[trigger] ls[a].tasks@[k]).task_id
                != (#[trigger] ls[b].tasks@[k2]).task_id,
{
    assert forall|a: int, k: int, b: int, k2: int|
        0 <= a < ls.len() && 0 <= k < ls[a].tasks@.len() && 0 <= b < ls.len() && 0 <= k2
            < ls[b].tasks@.len() && (a != b || k != k2) implies (#[trigger] ls[a].tasks@[k]).task_id
        != (#[trigger] ls[b].tasks@[k2]).task_id by {
        if a != b {
            let e = ls[a].tasks@[k];
            let e2 = ls[b].tasks@[k2];
            lemma_entry_sound_elim(e, a, ts, ds, placed, level);
            lemma_entry_sound_elim(e2, b, ts, ds, placed, level);
            if e.task_id == e2.task_id {
                assert(task_index(ts, e.task_id) == task_index(ts, e2.task_id));
                assert(false);
            }
        }
    }
}

/// Every entry of the built levels is faithful.
#[verifier::spinoff_prover]
#[verifier::rlimit(100)]
proof fn lemma_levels_entries_ok(
    ls: Seq<ExecutionLevel>,
    ts: Seq<Task>,
    ds: Seq<TaskDependency>,
    placed: Seq<bool>,
    level: Seq<usize>,
)
    requires
        forall|a: int, k: int|
            0 <= a < ls.len() && 0 <= k < ls[a].tasks@.len() ==> entry_sound(
                #[trigger] ls[a].tasks@[k],
                a,
                ts,
                ds,
                placed,
                level,
            ),
    ensures
        forall|a: int, k: int|
            0 <= a < ls.len() && 0 <= k < ls[a].tasks@.len() ==> entry_ok(
                #[trigger] ls[a].tasks@[k],
                ts,
                ds,
            ),
{
    assert forall|a: int, k: int|
        0 <= a < ls.len() && 0 <= k < ls[a].tasks@.len() implies entry_ok(
        #[trigger] ls[a].tasks@[k],
        ts,
        ds,
    ) by {
        lemma_entry_sound_elim(ls[a].tasks@[k], a, ts, ds, placed, level);
    }
}

/// An entry of a built level corresponds to a task placed at that level.
#[verifier::opaque]
spec fn entry_sound(
    e: ExecutableTask,
    a: int,
    tasks: Seq<Task>,
    deps: Seq<TaskDependency>,
    placed: Seq<bool>,
    level: Seq<usize>,
) -> bool {
    &&& entry_ok(e, tasks, deps)
    &&& 0 <= task_index(tasks, e.task_id) < tasks.len()
    &&& placed.len() == tasks.len()
    &&& level.len() == tasks.len()
    &&& placed[task_index(tasks, e.task_id)]
    &&& level[task_index(tasks, e.task_id)] == a
}

/// An all-false sequence has no matches.
proof fn lemma_count_none(s: Seq<bool>, f: spec_fn(bool) -> bool)
    requires
        forall|k: int| 0 <= k < s.len() ==> !f(#[trigger] s[k]),
    ensures
        count_matching(s, f) == 0,
    decreases s.len(),
{
    if s.len() > 0 {
        lemma_count_none(s.drop_last(), f);
    }
}

/// If some element does not match, the count is below the length.
proof fn lemma_count_lt_len_at(s: Seq<bool>, f: spec_fn(bool) -> bool, i: int)
    requires
        0 <= i < s.len(),
        !f(s[i]),
    ensures
        count_matching(s, f) < s.len(),
    decreases s.len(),
{
    lemma_count_le_len(s.drop_last(), f);
    if i < s.len() - 1 {
        lemma_count_lt_len_at(s.drop_last(), f, i);
    }
}

/// Setting one flag from false to true raises the count by one.
proof fn lemma_count_update_true(s: Seq<bool>, f: spec_fn(bool) -> bool, i: int)
    requires
        0 <= i < s.len(),
        !s[i],
        f == true_pred(),
    ensures
        count_matching(s.update(i, true), f) == count_matching(s, f) + 1,
    decreases s.len(),
{
    let s2 = s.update(i, true);
    if i == s.len() - 1 {
        assert(s2.drop_last() =~= s.drop_last());
        assert(s2.last() == true);
        assert(!f(s.last()));
    } else {
        assert(s2.drop_last() =~= s.drop_last().update(i, true));
        assert(s2.last() == s.last());
        lemma_count_update_true(s.drop_last(), f, i);
    }
}

/// Count the plan statistics over the full task set.
#[verifier::spinoff_prover]
#[verifier::rlimit(100)]
fn compute_plan_stats(
    tasks: &Vec<Task>,
    dep_lists: &Vec<Vec<Id>>,
    dependencies: &Vec<TaskDependency>,
) -> (r: (usize, usize, usize, usize, usize))
    requires
        distinct_ids(tasks@),
        dep_lists@.len() == tasks@.len(),
        forall|k: int|
            0 <= k < tasks@.len() ==> (#[trigger] dep_lists@[k])@ == dep_ids_of(
                dependencies@,
                tasks@[k].id,
            ),
    ensures
        r.0 == count_matching(tasks@, done_pred()),
        r.1 == count_matching(tasks@, in_progress_pred()),
        r.2 == count_matching(tasks@, in_review_pred()),
        r.3 == count_matching(tasks@, ready_pred(dependencies@, tasks@)),
        r.4 == count_matching(tasks@, blocked_pred(dependencies@, tasks@)),
{
    let n = tasks.len();
    let mut completed: usize = 0;
    let mut in_progress: usize = 0;
    let mut in_review: usize = 0;
    let mut ready: usize = 0;
    let mut blocked: usize = 0;
    for u in 0..n
        invariant
            n == tasks@.len(),
            distinct_ids(tasks@),
            dep_lists@.len() == n,
            forall|k: int|
                0 <= k < n ==> (#[trigger] dep_lists@[k])@ == dep_ids_of(
                    dependencies@,
                    tasks@[k].id,
                ),
            completed == count_matching(tasks@.take(u as int), done_pred()),
            in_progress == count_matching(tasks@.take(u as int), in_progress_pred()),
            in_review == count_matching(tasks@.take(u as int), in_review_pred()),
            ready == count_matching(tasks@.take(u as int), ready_pred(dependencies@, tasks@)),
            blocked == count_matching(tasks@.take(u as int), blocked_pred(dependencies@, tasks@)),
    {
        proof {
            lemma_take_succ(tasks@, u as int);
            lemma_count_le_len(tasks@.take(u as int), done_pred());
            lemma_count_le_len(tasks@.take(u as int), in_progress_pred());
            lemma_count_le_len(tasks@.take(u as int), in_review_pred());
            lemma_count_le_len(tasks@.take(u as int), ready_pred(dependencies@, tasks@));
            lemma_count_le_len(tasks@.take(u as int), blocked_pred(dependencies@, tasks@));
        }
        let readiness = calculate_readiness(&tasks[u], &dep_lists[u], tasks);
        match readiness {
            TaskReadiness::Completed => {
                completed = completed + 1;
            },
            TaskReadiness::InProgress => {
                in_progress = in_progress + 1;
            },
            TaskReadiness::Ready => {
                ready = ready + 1;
            },
            TaskReadiness::Blocked { .. } => {
                blocked = blocked + 1;
            },
            TaskReadiness::Cancelled => {},
        }
        if matches!(tasks[u].status, TaskStatus::InReview) {
            in_review = in_review + 1;
        }
    }
    proof {
        lemma_take_full(tasks@);
    }
    (completed, in_progress, in_review, ready, blocked)
}


// ---------------------------------------------------------------------------
// Plan queries
// ---------------------------------------------------------------------------

/// All entries of the plan, levels in order.
pub open spec fn flat_tasks(levels: Seq<ExecutionLevel>) -> Seq<ExecutableTask>
    decreases levels.len(),
{
    if levels.len() == 0 {
        Seq::empty()
    } else {
        flat_tasks(levels.drop_last()) + levels.last().tasks@
    }
}

/// The entry is ready.
pub open spec fn entry_ready() -> spec_fn(ExecutableTask) -> bool {
    |e: ExecutableTask| e.readiness is Ready
}

/// The entry is in progress.
pub open spec fn entry_in_progress() -> spec_fn(ExecutableTask) -> bool {
    |e: ExecutableTask| e.readiness is InProgress
}

/// The entry is blocked and the given task is among its blockers.
pub open spec fn entry_blocked_by(id: Id) -> spec_fn(ExecutableTask) -> bool {
    |e: ExecutableTask|
        e.readiness matches TaskReadiness::Blocked { blocking_task_ids } && blocking_task_ids@.contains(
            id,
        )
}

/// The given task is the entry's only remaining blocker.
pub open spec fn entry_only_blocker(id: Id) -> spec_fn(ExecutableTask) -> bool {
    |e: ExecutableTask|
        e.readiness matches TaskReadiness::Blocked { blocking_task_ids } && blocking_task_ids@.len()
            == 1 && blocking_task_ids@[0] == id
}

/// The ids of the ready tasks, in plan order.
pub open spec fn spec_ready_ids(levels: Seq<ExecutionLevel>) -> Seq<Id> {
    Seq::new(
        keep_matching(flat_tasks(levels), entry_ready()).len(),
        |k: int| keep_matching(flat_tasks(levels), entry_ready())[k].task_id,
    )
}

/// The ids of the tasks whose only remaining blocker is the given task, in
/// plan order.
pub open spec fn spec_unblocked_ids(levels: Seq<ExecutionLevel>, completed_task_id: Id) -> Seq<
    Id,
> {
    Seq::new(
        keep_matching(flat_tasks(levels), entry_only_blocker(completed_task_id)).len(),
        |k: int|
            keep_matching(flat_tasks(levels), entry_only_blocker(completed_task_id))[k].task_id,
    )
}

/// One step of flattening: the flat list of one more level.
proof fn lemma_flat_take_succ(levels: Seq<ExecutionLevel>, li: int)
    requires
        0 <= li < levels.len(),
    ensures
        flat_tasks(levels.take(li + 1)) =~= flat_tasks(levels.take(li)) + levels[li].tasks@,
{
    lemma_take_succ(levels, li);
    assert(levels.take(li + 1).drop_last() =~= levels.take(li));
}

/// Does the blocker list contain the id?
fn ids_contains(v: &Vec<Id>, id: Id) -> (r: bool)
    ensures
        r == v@.contains(id),
{
    let n = v.len();
    for i in 0..n
        invariant
            n == v@.len(),
            forall|k: int| 0 <= k < i ==> v@[k] != id,
    {
        if v[i] == id {
            return true;
        }
    }
    false
}

/// Collect the entries of the plan that satisfy the given test, in plan
/// order, as indices `(level, position)`.
#[verifier::rlimit(100)]
fn collect_matching<'a>(plan: &'a ExecutionPlan, mode: u8, id: Id) -> (r: Vec<&'a ExecutableTask>)
    requires
        mode == 0 || mode == 1 || mode == 2 || mode == 3,
    ensures
        ({
            let f = if mode == 0 {
                entry_ready()
            } else if mode == 1 {
                entry_in_progress()
            } else if mode == 2 {
                entry_blocked_by(id)
            } else {
                entry_only_blocker(id)
            };
            let list = keep_matching(flat_tasks(plan.levels@), f);
            r@.len() == list.len() && forall|k: int| 0 <= k < r@.len() ==> *(#[trigger] r@[k])
                == list[k]
        }),
{
    let ghost f = if mode == 0 {
        entry_ready()
    } else if mode == 1 {
        entry_in_progress()
    } else if mode == 2 {
        entry_blocked_by(id)
    } else {
        entry_only_blocker(id)
    };
    let mut out: Vec<&ExecutableTask> = Vec::new();
    let nl = plan.levels.len();
    proof {
        assert(plan.levels@.take(0) =~= Seq::<ExecutionLevel>::empty());
    }
    for li in 0..nl
        invariant
            nl == plan.levels@.len(),
            mode == 0 || mode == 1 || mode == 2 || mode == 3,
            f == (if mode == 0 {
                entry_ready()
            } else if mode == 1 {
                entry_in_progress()
            } else if mode == 2 {
                entry_blocked_by(id)
            } else {
                entry_only_blocker(id)
            }),
            out@.len() == keep_matching(flat_tasks(plan.levels@.take(li as int)), f).len(),
            forall|k: int|
                0 <= k < out@.len() ==> *(#[trigger] out@[k]) == keep_matching(
                    flat_tasks(plan.levels@.take(li as int)),
                    f,
                )[k],
    {
        let level = &plan.levels[li];
        let m = level.tasks.len();
        let ghost base = flat_tasks(plan.levels@.take(li as int));
        proof {
            assert(level.tasks@.take(0) =~= Seq::<ExecutableTask>::empty());
            crate::seqs::lemma_keep_concat(base, level.tasks@.take(0), f);
            assert(base + level.tasks@.take(0) =~= base);
        }
        for k in 0..m
            invariant
                nl == plan.levels@.len(),
                li < nl,
                m == level.tasks@.len(),
                level == &plan.levels@[li as int],
                mode == 0 || mode == 1 || mode == 2 || mode == 3,
                f == (if mode == 0 {
                    entry_ready()
                } else if mode == 1 {
                    entry_in_progress()
                } else if mode == 2 {
                    entry_blocked_by(id)
                } else {
                    entry_only_blocker(id)
                }),
                base == flat_tasks(plan.levels@.take(li as int)),
                out@.len() == keep_matching(base + level.tasks@.take(k as int), f).len(),
                forall|q: int|
                    0 <= q < out@.len() ==> *(#[trigger] out@[q]) == keep_matching(
                        base + level.tasks@.take(k as int),
                        f,
                    )[q],
        {
            proof {
                lemma_take_succ(level.tasks@, k as int);
                assert((base + level.tasks@.take(k + 1)).drop_last() =~= base + level.tasks@.take(
                    k as int,
                ));
                assert((base + level.tasks@.take(k + 1)).last() == level.tasks@[k as int]);
            }
            let e = &level.tasks[k];
            let matched: bool = if mode == 0 {
                matches!(e.readiness, TaskReadiness::Ready)
            } else if mode == 1 {
                matches!(e.readiness, TaskReadiness::InProgress)
            } else if mode == 2 {
                match &e.readiness {
                    TaskReadiness::Blocked { blocking_task_ids } => ids_contains(
                        blocking_task_ids,
                        id,
                    ),
                    _ => false,
                }
            } else {
                match &e.readiness {
                    TaskReadiness::Blocked { blocking_task_ids } => blocking_task_ids.len() == 1
                        && blocking_task_ids[0] == id,
                    _ => false,
                }
            };
            proof {
                assert(matched == f(level.tasks@[k as int]));
            }
            if matched {
                out.push(e);
            }
        }
        proof {
            lemma_flat_take_succ(plan.levels@, li as int);
            assert(level.tasks@.take(m as int) =~= level.tasks@);
            assert(base + level.tasks@.take(m as int) =~= flat_tasks(
                plan.levels@.take(li + 1),
            ));
        }
    }
    proof {
        lemma_take_full(plan.levels@);
    }
    out
}

/// Get all tasks that are ready to execute, in plan order.
pub fn get_ready_tasks<'a>(plan: &'a ExecutionPlan) -> (r: Vec<&'a ExecutableTask>)
    ensures
        r@.len() == keep_matching(flat_tasks(plan.levels@), entry_ready()).len(),
        forall|k: int|
            0 <= k < r@.len() ==> *(#[trigger] r@[k]) == keep_matching(
                flat_tasks(plan.levels@),
                entry_ready(),
            )[k],
{
    collect_matching(plan, 0, 0)
}

/// Get all tasks that are currently in progress, in plan order.
pub fn get_in_progress_tasks<'a>(plan: &'a ExecutionPlan) -> (r: Vec<&'a ExecutableTask>)
    ensures
        r@.len() == keep_matching(flat_tasks(plan.levels@), entry_in_progress()).len(),
        forall|k: int|
            0 <= k < r@.len() ==> *(#[trigger] r@[k]) == keep_matching(
                flat_tasks(plan.levels@),
                entry_in_progress(),
            )[k],
{
    collect_matching(plan, 1, 0)
}

/// Get the tasks blocked by a specific task, in plan order.
pub fn get_tasks_blocked_by<'a>(plan: &'a ExecutionPlan, task_id: Id) -> (r: Vec<
    &'a ExecutableTask,
>)
    ensures
        r@.len() == keep_matching(flat_tasks(plan.levels@), entry_blocked_by(task_id)).len(),
        forall|k: int|
            0 <= k < r@.len() ==> *(#[trigger] r@[k]) == keep_matching(
                flat_tasks(plan.levels@),
                entry_blocked_by(task_id),
            )[k],
{
    collect_matching(plan, 2, task_id)
}

/// Find the tasks that would become ready if the given task completes:
/// those whose only remaining blocker it is. This is an under-approximation
/// of what the next rebuilt plan will mark ready.
pub fn get_tasks_unblocked_by_completion(plan: &ExecutionPlan, completed_task_id: Id) -> (r: Vec<
    Id,
>)
    ensures
        r@ == spec_unblocked_ids(plan.levels@, completed_task_id),
{
    let entries = collect_matching(plan, 3, completed_task_id);
    let mut out: Vec<Id> = Vec::new();
    let n = entries.len();
    for k in 0..n
        invariant
            n == entries@.len(),
            entries@.len() == keep_matching(
                flat_tasks(plan.levels@),
                entry_only_blocker(completed_task_id),
            ).len(),
            forall|q: int|
                0 <= q < entries@.len() ==> *(#[trigger] entries@[q]) == keep_matching(
                    flat_tasks(plan.levels@),
                    entry_only_blocker(completed_task_id),
                )[q],
            out@.len() == k,
            forall|q: int|
                0 <= q < k ==> #[trigger] out@[q] == keep_matching(
                    flat_tasks(plan.levels@),
                    entry_only_blocker(completed_task_id),
                )[q].task_id,
    {
        out.push(entries[k].task_id);
    }
    proof {
        assert(out@ =~= spec_unblocked_ids(plan.levels@, completed_task_id));
    }
    out
}


// ---------------------------------------------------------------------------
// Laws
// ---------------------------------------------------------------------------

/// Each element is counted in exactly one of five mutually exclusive and
/// exhaustive predicates.
proof fn lemma_count_partition<A>(
    s: Seq<A>,
    f1: spec_fn(A) -> bool,
    f2: spec_fn(A) -> bool,
    f3: spec_fn(A) -> bool,
    f4: spec_fn(A) -> bool,
    f5: spec_fn(A) -> bool,
)
    requires
        forall|a: A|
            #![trigger f1(a)]
            ((if f1(a) {
                1int
            } else {
                0
            }) + (if f2(a) {
                1int
            } else {
                0
            }) + (if f3(a) {
                1int
            } else {
                0
            }) + (if f4(a) {
                1int
            } else {
                0
            }) + (if f5(a) {
                1int
            } else {
                0
            })) == 1,
    ensures
        count_matching(s, f1) + count_matching(s, f2) + count_matching(s, f3) + count_matching(
            s,
            f4,
        ) + count_matching(s, f5) == s.len(),
    decreases s.len(),
{
    if s.len() > 0 {
        lemma_count_partition(s.drop_last(), f1, f2, f3, f4, f5);
        assert(f1(s.last()) || f2(s.last()) || f3(s.last()) || f4(s.last()) || f5(s.last()));
    }
}

/// Every task is counted in exactly one of the five readiness buckets, so
/// the completed, in-progress, ready and blocked counters sum to at most
/// the task count, and a cancelled task is counted in none of the four.
pub proof fn lemma_stats_partition(tasks: Seq<Task>, deps: Seq<TaskDependency>)
    ensures
        count_matching(tasks, done_pred()) + count_matching(tasks, in_progress_pred())
            + count_matching(tasks, ready_pred(deps, tasks)) + count_matching(
            tasks,
            blocked_pred(deps, tasks),
        ) + count_matching(tasks, cancelled_pred()) == tasks.len(),
        count_matching(tasks, done_pred()) + count_matching(tasks, in_progress_pred())
            + count_matching(tasks, ready_pred(deps, tasks)) + count_matching(
            tasks,
            blocked_pred(deps, tasks),
        ) <= tasks.len(),
{
    lemma_count_partition(
        tasks,
        done_pred(),
        in_progress_pred(),
        ready_pred(deps, tasks),
        blocked_pred(deps, tasks),
        cancelled_pred(),
    );
    crate::seqs::lemma_count_le_len(tasks, cancelled_pred());
}


// ---------------------------------------------------------------------------
// Completeness of placement
// ---------------------------------------------------------------------------

/// The ids of the entries, in order.
pub open spec fn entry_ids(es: Seq<ExecutableTask>) -> Seq<Id> {
    Seq::new(es.len(), |k: int| es[k].task_id)
}

/// The ids of the tasks, in order.
pub open spec fn task_ids(tasks: Seq<Task>) -> Seq<Id> {
    Seq::new(tasks.len(), |k: int| tasks[k].id)
}

/// Some level of the plan holds the task id.
pub open spec fn placed_in_plan(levels: Seq<ExecutionLevel>, id: Id) -> bool {
    exists|a: int| 0 <= a < levels.len() && level_contains(levels[a], id)
}

/// The full shape of a plan's levels for the given snapshot: numbering in
/// order, faithful entries, the level law (no edges at level 0; all
/// dependencies strictly below with one directly one level down), no task
/// twice, each level ordered by creation time then id, and — when the edge
/// set is closed over the task list and acyclic — every task placed, the
/// flattened levels exactly as long as the task list.
#[verifier::opaque]
pub open spec fn plan_levels_ok(
    tasks: Seq<Task>,
    deps: Seq<TaskDependency>,
    levels: Seq<ExecutionLevel>,
) -> bool {
    &&& (forall|a: int| 0 <= a < levels.len() ==> (#[trigger] levels[a]).level == a)
    &&& (forall|a: int, k: int|
        0 <= a < levels.len() && 0 <= k < levels[a].tasks@.len() ==> entry_ok(
            #[trigger] levels[a].tasks@[k],
            tasks,
            deps,
        ))
    &&& (forall|a: int, k: int, j: int|
        #![trigger levels[a].tasks@[k].dependencies@[j]]
        0 <= a < levels.len() && 0 <= k < levels[a].tasks@.len() && 0 <= j
            < levels[a].tasks@[k].dependencies@.len() ==> placed_below(
            levels,
            levels[a].tasks@[k].dependencies@[j],
            a,
        ))
    &&& (forall|a: int, k: int|
        0 < a < levels.len() && 0 <= k < levels[a].tasks@.len() ==> exists|j: int|
            0 <= j < (#[trigger] levels[a].tasks@[k]).dependencies@.len() && level_contains(
                levels[a - 1],
                levels[a].tasks@[k].dependencies@[j],
            ))
    &&& (forall|k: int|
        levels.len() > 0 && 0 <= k < levels[0].tasks@.len() ==> (
        #[trigger] levels[0].tasks@[k]).dependencies@.len() == 0)
    &&& (forall|a: int, k: int, b: int, k2: int|
        0 <= a < levels.len() && 0 <= k < levels[a].tasks@.len() && 0 <= b < levels.len() && 0
            <= k2 < levels[b].tasks@.len() && (a != b || k != k2) ==> (
        #[trigger] levels[a].tasks@[k]).task_id != (#[trigger] levels[b].tasks@[k2]).task_id)
    &&& (forall|a: int|
        0 <= a < levels.len() ==> level_sorted(tasks, (#[trigger] levels[a]).tasks@))
    &&& ((crate::dependency::edges_closed(tasks, deps)
        && !crate::dependency::has_dependency_cycle(deps)) ==> (forall|k: int|
        0 <= k < tasks.len() ==> placed_in_plan(levels, (#[trigger] tasks[k]).id)) && flat_tasks(
        levels,
    ).len() == tasks.len())
}

/// Package the plan shape from its parts.
#[verifier::rlimit(100)]
#[verifier::spinoff_prover]
pub proof fn lemma_plan_levels_ok_intro(
    tasks: Seq<Task>,
    deps: Seq<TaskDependency>,
    levels: Seq<ExecutionLevel>,
)
    requires
        forall|a: int| 0 <= a < levels.len() ==> (#[trigger] levels[a]).level == a,
        forall|a: int, k: int|
            0 <= a < levels.len() && 0 <= k < levels[a].tasks@.len() ==> entry_ok(
                #[trigger] levels[a].tasks@[k],
                tasks,
                deps,
            ),
        forall|a: int, k: int, j: int|
            #![trigger levels[a].tasks@[k].dependencies@[j]]
            0 <= a < levels.len() && 0 <= k < levels[a].tasks@.len() && 0 <= j
                < levels[a].tasks@[k].dependencies@.len() ==> placed_below(
                levels,
                levels[a].tasks@[k].dependencies@[j],
                a,
            ),
        forall|a: int, k: int|
            0 < a < levels.len() && 0 <= k < levels[a].tasks@.len() ==> exists|j: int|
                0 <= j < (#[trigger] levels[a].tasks@[k]).dependencies@.len() && level_contains(
                    levels[a - 1],
                    levels[a].tasks@[k].dependencies@[j],
                ),
        forall|k: int|
            levels.len() > 0 && 0 <= k < levels[0].tasks@.len() ==> (
            #[trigger] levels[0].tasks@[k]).dependencies@.len() == 0,
        forall|a: int, k: int, b: int, k2: int|
            0 <= a < levels.len() && 0 <= k < levels[a].tasks@.len() && 0 <= b < levels.len() && 0
                <= k2 < levels[b].tasks@.len() && (a != b || k != k2) ==> (
            #[trigger] levels[a].tasks@[k]).task_id != (#[trigger] levels[b].tasks@[k2]).task_id,
        forall|a: int|
            0 <= a < levels.len() ==> level_sorted(tasks, (#[trigger] levels[a]).tasks@),
        (crate::dependency::edges_closed(tasks, deps)
            && !crate::dependency::has_dependency_cycle(deps)) ==> (forall|k: int|
            0 <= k < tasks.len() ==> placed_in_plan(levels, (#[trigger] tasks[k]).id))
            && flat_tasks(levels).len() == tasks.len(),
    ensures
        plan_levels_ok(tasks, deps, levels),
{
    reveal(plan_levels_ok);
}

/// Unpack the plan shape into its parts.
#[verifier::rlimit(100)]
#[verifier::spinoff_prover]
pub proof fn lemma_plan_levels_ok_elim(
    tasks: Seq<Task>,
    deps: Seq<TaskDependency>,
    levels: Seq<ExecutionLevel>,
)
    requires
        plan_levels_ok(tasks, deps, levels),
    ensures
        forall|a: int| 0 <= a < levels.len() ==> (#[trigger] levels[a]).level == a,
        forall|a: int, k: int|
            0 <= a < levels.len() && 0 <= k < levels[a].tasks@.len() ==> entry_ok(
                #[trigger] levels[a].tasks@[k],
                tasks,
                deps,
            ),
        forall|a: int, k: int, j: int|
            #![trigger levels[a].tasks@[k].dependencies@[j]]
            0 <= a < levels.len() && 0 <= k < levels[a].tasks@.len() && 0 <= j
                < levels[a].tasks@[k].dependencies@.len() ==> placed_below(
                levels,
                levels[a].tasks@[k].dependencies@[j],
                a,
            ),
        forall|a: int, k: int|
            0 < a < levels.len() && 0 <= k < levels[a].tasks@.len() ==> exists|j: int|
                0 <= j < (#[trigger] levels[a].tasks@[k]).dependencies@.len() && level_contains(
                    levels[a - 1],
                    levels[a].tasks@[k].dependencies@[j],
                ),
        forall|k: int|
            levels.len() > 0 && 0 <= k < levels[0].tasks@.len() ==> (
            #[trigger] levels[0].tasks@[k]).dependencies@.len() == 0,
        forall|a: int, k: int, b: int, k2: int|
            0 <= a < levels.len() && 0 <= k < levels[a].tasks@.len() && 0 <= b < levels.len() && 0
                <= k2 < levels[b].tasks@.len() && (a != b || k != k2) ==> (
            #[trigger] levels[a].tasks@[k]).task_id != (#[trigger] levels[b].tasks@[k2]).task_id,
        forall|a: int|
            0 <= a < levels.len() ==> level_sorted(tasks, (#[trigger] levels[a]).tasks@),
        (crate::dependency::edges_closed(tasks, deps)
            && !crate::dependency::has_dependency_cycle(deps)) ==> (forall|k: int|
            0 <= k < tasks.len() ==> placed_in_plan(levels, (#[trigger] tasks[k]).id))
            && flat_tasks(levels).len() == tasks.len(),
{
    reveal(plan_levels_ok);
}

/// A task the relaxation left unplaced has an unplaced dependency, when
/// every edge endpoint is a task of the list.
#[verifier::rlimit(100)]
#[verifier::spinoff_prover]
proof fn lemma_stuck_has_unplaced_dep(
    tasks: Seq<Task>,
    deps: Seq<TaskDependency>,
    dls: Seq<Vec<Id>>,
    placed: Seq<bool>,
    v: int,
)
    requires
        distinct_ids(tasks),
        placed.len() == tasks.len(),
        dls.len() == tasks.len(),
        forall|k: int| 0 <= k < tasks.len() ==> (#[trigger] dls[k])@ == dep_ids_of(deps, tasks[k].id),
        crate::dependency::edges_closed(tasks, deps),
        0 <= v < tasks.len(),
        !placed[v],
        stuck_witness(tasks, dls, placed, v),
    ensures
        exists|w: int|
            0 <= w < tasks.len() && !placed[w] && crate::dependency::has_edge(
                deps,
                tasks[v].id,
                #[trigger] tasks[w].id,
            ),
{
    lemma_stuck_witness_elim(tasks, dls, placed, v);
    let j = choose|j: int|
        0 <= j < dls[v]@.len() && !(has_task(tasks, #[trigger] dls[v]@[j]) && 0 <= task_index(
            tasks,
            dls[v]@[j],
        ) < placed.len() && placed[task_index(tasks, dls[v]@[j])]);
    let d = dls[v]@[j];
    crate::dependency::lemma_dep_ids_edge(deps, tasks[v].id, j);
    let k = choose|k: int|
        0 <= k < deps.len() && (#[trigger] deps[k]).task_id == tasks[v].id
            && deps[k].depends_on_task_id == d;
    assert(has_task(tasks, d));
    let w = task_index(tasks, d);
    assert(0 <= w < tasks.len() && tasks[w].id == d);
    assert(!placed[w]);
    assert(crate::dependency::has_edge(deps, tasks[v].id, tasks[w].id));
}

/// Every unplaced task has an unplaced dependency among the tasks.
#[verifier::opaque]
spec fn unplaced_has_unplaced_dep(tasks: Seq<Task>, deps: Seq<TaskDependency>, placed: Seq<bool>) -> bool {
    forall|v: int|
        0 <= v < tasks.len() && !(#[trigger] placed[v]) ==> exists|w: int|
            0 <= w < tasks.len() && !placed[w] && crate::dependency::has_edge(
                deps,
                tasks[v].id,
                #[trigger] tasks[w].id,
            )
}

/// Package the step fact from the relaxation's end state.
#[verifier::rlimit(100)]
#[verifier::spinoff_prover]
proof fn lemma_unplaced_step_intro(
    tasks: Seq<Task>,
    deps: Seq<TaskDependency>,
    dls: Seq<Vec<Id>>,
    placed: Seq<bool>,
)
    requires
        distinct_ids(tasks),
        placed.len() == tasks.len(),
        dls.len() == tasks.len(),
        forall|k: int| 0 <= k < tasks.len() ==> (#[trigger] dls[k])@ == dep_ids_of(deps, tasks[k].id),
        crate::dependency::edges_closed(tasks, deps),
        forall|v: int|
            0 <= v < tasks.len() && !(#[trigger] placed[v]) ==> stuck_witness(
                tasks,
                dls,
                placed,
                v,
            ),
    ensures
        unplaced_has_unplaced_dep(tasks, deps, placed),
{
    reveal(unplaced_has_unplaced_dep);
    assert forall|v: int| 0 <= v < tasks.len() && !(#[trigger] placed[v]) implies exists|w: int|
        0 <= w < tasks.len() && !placed[w] && crate::dependency::has_edge(
            deps,
            tasks[v].id,
            #[trigger] tasks[w].id,
        ) by {
        lemma_stuck_has_unplaced_dep(tasks, deps, dls, placed, v);
    }
}

/// Use the step fact for one unplaced task.
proof fn lemma_unplaced_step_elim(
    tasks: Seq<Task>,
    deps: Seq<TaskDependency>,
    placed: Seq<bool>,
    v: int,
)
    requires
        unplaced_has_unplaced_dep(tasks, deps, placed),
        0 <= v < tasks.len(),
        !placed[v],
    ensures
        exists|w: int|
            0 <= w < tasks.len() && !placed[w] && crate::dependency::has_edge(
                deps,
                tasks[v].id,
                #[trigger] tasks[w].id,
            ),
{
    reveal(unplaced_has_unplaced_dep);
}

/// From an unplaced task, a walk of any length over unplaced tasks exists.
#[verifier::rlimit(100)]
#[verifier::spinoff_prover]
proof fn lemma_unplaced_walk(
    tasks: Seq<Task>,
    deps: Seq<TaskDependency>,
    placed: Seq<bool>,
    v0: int,
    len_target: nat,
) -> (p: Seq<int>)
    requires
        placed.len() == tasks.len(),
        unplaced_has_unplaced_dep(tasks, deps, placed),
        0 <= v0 < tasks.len(),
        !placed[v0],
        len_target >= 1,
    ensures
        p.len() == len_target,
        p[0] == v0,
        forall|i: int| 0 <= i < p.len() ==> 0 <= (#[trigger] p[i]) < tasks.len() && !placed[p[i]],
        forall|i: int, i2: int|
            #![trigger p[i], p[i2]]
            0 <= i && i2 == i + 1 && i2 < p.len() ==> crate::dependency::has_edge(
                deps,
                tasks[p[i]].id,
                tasks[p[i2]].id,
            ),
    decreases len_target,
{
    if len_target == 1 {
        let p = seq![v0];
        p
    } else {
        lemma_unplaced_step_elim(tasks, deps, placed, v0);
        let w = choose|w: int|
            0 <= w < tasks.len() && !placed[w] && crate::dependency::has_edge(
                deps,
                tasks[v0].id,
                #[trigger] tasks[w].id,
            );
        let rest = lemma_unplaced_walk(tasks, deps, placed, w, (len_target - 1) as nat);
        let p = seq![v0] + rest;
        assert(p[0] == v0);
        assert forall|i: int| 0 <= i < p.len() implies 0 <= (#[trigger] p[i]) < tasks.len()
            && !placed[p[i]] by {
            if i > 0 {
                assert(p[i] == rest[i - 1]);
            }
        }
        assert forall|i: int, i2: int|
            #![trigger p[i], p[i2]]
            0 <= i && i2 == i + 1 && i2 < p.len() implies crate::dependency::has_edge(
            deps,
            tasks[p[i]].id,
            tasks[p[i2]].id,
        ) by {
            if i == 0 {
                assert(p[0] == v0 && p[1] == rest[0] && rest[0] == w);
            } else {
                assert(p[i] == rest[i - 1] && p[i2] == rest[i]);
                assert(rest[i - 1 + 1] == rest[i]);
            }
        }
        p
    }
}

/// Acyclicity forces placement: an unplaced task would head an arbitrarily
/// long walk of unplaced tasks, which in a finite task list must revisit
/// one and close a cycle.
#[verifier::rlimit(100)]
#[verifier::spinoff_prover]
proof fn lemma_acyclic_task_placed(
    tasks: Seq<Task>,
    deps: Seq<TaskDependency>,
    placed: Seq<bool>,
    v: int,
)
    requires
        placed.len() == tasks.len(),
        unplaced_has_unplaced_dep(tasks, deps, placed),
        !crate::dependency::has_dependency_cycle(deps),
        0 <= v < tasks.len(),
    ensures
        placed[v],
{
    if placed[v] {
        return ;
    }
    let n = tasks.len() as int;
    let p = lemma_unplaced_walk(tasks, deps, placed, v, (n + 1) as nat);
    vstd::set_lib::lemma_int_range(0, n);
    crate::seqs::lemma_dup_in_seq(p, vstd::set_lib::set_int_range(0, n));
    let (i, j) = choose|i: int, j: int| 0 <= i < j < p.len() && p[i] == p[j];
    let q = Seq::new((j - i + 1) as nat, |t: int| tasks[p[i + t]].id);
    assert forall|t: int| 0 <= t < q.len() - 1 implies crate::dependency::has_edge(
        deps,
        #[trigger] q[t],
        q[t + 1],
    ) by {
        let a = p[i + t];
        let b = p[i + t + 1];
        assert(q[t] == tasks[a].id && q[t + 1] == tasks[b].id);
        assert(crate::dependency::has_edge(deps, tasks[a].id, tasks[b].id));
    }
    assert(crate::dependency::path_in(deps, q));
    assert(q.first() == tasks[p[i]].id && q.last() == tasks[p[j]].id);
    assert(q.len() >= 2);
    assert(crate::dependency::has_dependency_cycle(deps));
    assert(false);
}

/// When the edges are closed over the task list and no dependency walk
/// returns to its start, the relaxation places every task.
#[verifier::rlimit(100)]
#[verifier::spinoff_prover]
proof fn lemma_no_cycle_all_placed(
    tasks: Seq<Task>,
    deps: Seq<TaskDependency>,
    dls: Seq<Vec<Id>>,
    placed: Seq<bool>,
)
    requires
        distinct_ids(tasks),
        placed.len() == tasks.len(),
        dls.len() == tasks.len(),
        forall|k: int| 0 <= k < tasks.len() ==> (#[trigger] dls[k])@ == dep_ids_of(deps, tasks[k].id),
        crate::dependency::edges_closed(tasks, deps),
        !crate::dependency::has_dependency_cycle(deps),
        forall|v: int|
            0 <= v < tasks.len() && !(#[trigger] placed[v]) ==> stuck_witness(
                tasks,
                dls,
                placed,
                v,
            ),
    ensures
        forall|v: int| 0 <= v < tasks.len() ==> #[trigger] placed[v],
{
    lemma_unplaced_step_intro(tasks, deps, dls, placed);
    assert forall|v: int| 0 <= v < tasks.len() implies #[trigger] placed[v] by {
        lemma_acyclic_task_placed(tasks, deps, placed, v);
    }
}


/// The position where a level's entries start in the flattened plan.
pub open spec fn flat_offset(levels: Seq<ExecutionLevel>, a: int) -> int {
    flat_tasks(levels.take(a)).len() as int
}

/// One level advances the offset by its size.
proof fn lemma_flat_offset_succ(levels: Seq<ExecutionLevel>, a: int)
    requires
        0 <= a < levels.len(),
    ensures
        flat_offset(levels, a + 1) == flat_offset(levels, a) + levels[a].tasks@.len(),
{
    lemma_flat_take_succ(levels, a);
}

/// An entry's position in the flattened plan.
proof fn lemma_flat_at(levels: Seq<ExecutionLevel>, a: int, k: int)
    requires
        0 <= a < levels.len(),
        0 <= k < levels[a].tasks@.len(),
    ensures
        0 <= flat_offset(levels, a) + k < flat_tasks(levels).len(),
        flat_tasks(levels)[flat_offset(levels, a) + k] == levels[a].tasks@[k],
    decreases levels.len(),
{
    assert(flat_offset(levels, a) >= 0);
    if a == levels.len() - 1 {
        assert(levels.take(a) =~= levels.drop_last());
        assert(flat_tasks(levels) == flat_tasks(levels.drop_last()) + levels.last().tasks@);
    } else {
        lemma_flat_at(levels.drop_last(), a, k);
        assert(levels.drop_last().take(a) =~= levels.take(a));
        assert(levels.drop_last()[a] == levels[a]);
        assert(flat_tasks(levels) == flat_tasks(levels.drop_last()) + levels.last().tasks@);
    }
}

/// Every position of the flattened plan comes from one entry of one level.
proof fn lemma_flat_inv(levels: Seq<ExecutionLevel>, i: int) -> (r: (int, int))
    requires
        0 <= i < flat_tasks(levels).len(),
    ensures
        0 <= r.0 < levels.len(),
        0 <= r.1 < levels[r.0].tasks@.len(),
        i == flat_offset(levels, r.0) + r.1,
    decreases levels.len(),
{
    assert(levels.len() > 0);
    let prefix = flat_tasks(levels.drop_last());
    if i < prefix.len() {
        let (a, k) = lemma_flat_inv(levels.drop_last(), i);
        assert(levels.drop_last().take(a) =~= levels.take(a));
        assert(levels.drop_last()[a] == levels[a]);
        (a, k)
    } else {
        let a = levels.len() - 1;
        assert(levels.take(a) =~= levels.drop_last());
        let k = i - prefix.len();
        (a, k)
    }
}

/// No task id appears twice in the flattened plan.
#[verifier::rlimit(100)]
#[verifier::spinoff_prover]
proof fn lemma_flat_ids_nodup(levels: Seq<ExecutionLevel>)
    requires
        forall|a: int, k: int, b: int, k2: int|
            0 <= a < levels.len() && 0 <= k < levels[a].tasks@.len() && 0 <= b < levels.len() && 0
                <= k2 < levels[b].tasks@.len() && (a != b || k != k2) ==> (
            #[trigger] levels[a].tasks@[k]).task_id != (#[trigger] levels[b].tasks@[k2]).task_id,
    ensures
        entry_ids(flat_tasks(levels)).no_duplicates(),
{
    let fids = entry_ids(flat_tasks(levels));
    assert forall|i: int, j: int|
        0 <= i < fids.len() && 0 <= j < fids.len() && i != j implies fids[i] != fids[j] by {
        let (a, k) = lemma_flat_inv(levels, i);
        let (b, k2) = lemma_flat_inv(levels, j);
        lemma_flat_at(levels, a, k);
        lemma_flat_at(levels, b, k2);
        assert(a != b || k != k2);
        assert(fids[i] == levels[a].tasks@[k].task_id);
        assert(fids[j] == levels[b].tasks@[k2].task_id);
    }
}

/// When every task is placed somewhere in the plan, the flattened plan is
/// exactly as long as the task list: its entry ids are distinct, every one
/// names a task, and every task id occurs.
#[verifier::rlimit(100)]
#[verifier::spinoff_prover]
proof fn lemma_flat_complete_len(levels: Seq<ExecutionLevel>, tasks: Seq<Task>)
    requires
        distinct_ids(tasks),
        forall|a: int, k: int, b: int, k2: int|
            0 <= a < levels.len() && 0 <= k < levels[a].tasks@.len() && 0 <= b < levels.len() && 0
                <= k2 < levels[b].tasks@.len() && (a != b || k != k2) ==> (
            #[trigger] levels[a].tasks@[k]).task_id != (#[trigger] levels[b].tasks@[k2]).task_id,
        forall|a: int, k: int|
            0 <= a < levels.len() && 0 <= k < levels[a].tasks@.len() ==> has_task(
                tasks,
                (#[trigger] levels[a].tasks@[k]).task_id,
            ),
        forall|k: int|
            0 <= k < tasks.len() ==> placed_in_plan(levels, (#[trigger] tasks[k]).id),
    ensures
        flat_tasks(levels).len() == tasks.len(),
{
    let fids = entry_ids(flat_tasks(levels));
    let tids = task_ids(tasks);
    lemma_flat_ids_nodup(levels);
    assert(tids.no_duplicates());
    assert forall|x: Id| fids.contains(x) == tids.contains(x) by {
        if fids.contains(x) {
            let i = choose|i: int| 0 <= i < fids.len() && fids[i] == x;
            let (a, k) = lemma_flat_inv(levels, i);
            lemma_flat_at(levels, a, k);
            assert(has_task(tasks, x));
            let w = choose|w: int| 0 <= w < tasks.len() && tasks[w].id == x;
            assert(tids[w] == x);
            assert(tids.contains(x));
        }
        if tids.contains(x) {
            let w = choose|w: int| 0 <= w < tids.len() && tids[w] == x;
            assert(tasks[w].id == x);
            assert(placed_in_plan(levels, x));
            let a = choose|a: int| 0 <= a < levels.len() && level_contains(levels[a], x);
            let k = choose|k: int|
                0 <= k < levels[a].tasks@.len() && levels[a].tasks@[k].task_id == x;
            lemma_flat_at(levels, a, k);
            assert(fids[flat_offset(levels, a) + k] == x);
            assert(fids.contains(x));
        }
    }
    assert(fids.to_set() =~= tids.to_set());
    fids.unique_seq_to_set();
    tids.unique_seq_to_set();
}


/// The id is placed at exactly this level of the plan.
pub open spec fn placed_at_level(levels: Seq<ExecutionLevel>, x: Id, a: int) -> bool {
    0 <= a < levels.len() && level_contains(levels[a], x)
}

/// A task placed at some level of one valid leveling sits at the same
/// level in any other valid leveling of the same snapshot.
#[verifier::rlimit(100)]
#[verifier::spinoff_prover]
proof fn lemma_level_agree_one(
    tasks: Seq<Task>,
    deps: Seq<TaskDependency>,
    l1: Seq<ExecutionLevel>,
    l2: Seq<ExecutionLevel>,
    a1: int,
    x: Id,
)
    requires
        distinct_ids(tasks),
        crate::dependency::edges_closed(tasks, deps),
        !crate::dependency::has_dependency_cycle(deps),
        plan_levels_ok(tasks, deps, l1),
        plan_levels_ok(tasks, deps, l2),
        placed_at_level(l1, x, a1),
    ensures
        placed_at_level(l2, x, a1),
    decreases a1,
{
    lemma_plan_levels_ok_elim(tasks, deps, l1);
    lemma_plan_levels_ok_elim(tasks, deps, l2);
    let k1 = choose|k: int| 0 <= k < l1[a1].tasks@.len() && l1[a1].tasks@[k].task_id == x;
    let e1 = l1[a1].tasks@[k1];
    lemma_entry_ok_elim(e1, tasks, deps);
    let w = task_index(tasks, x);
    assert(tasks[w].id == x);
    assert(placed_in_plan(l2, x));
    let a2 = choose|a: int| 0 <= a < l2.len() && level_contains(l2[a], x);
    let k2 = choose|k: int| 0 <= k < l2[a2].tasks@.len() && l2[a2].tasks@[k].task_id == x;
    let e2 = l2[a2].tasks@[k2];
    lemma_entry_ok_elim(e2, tasks, deps);
    assert(e1.dependencies@ == dep_ids_of(deps, x));
    assert(e2.dependencies@ == dep_ids_of(deps, x));
    if a1 == 0 {
        assert(e1.dependencies@.len() == 0);
        if a2 > 0 {
            let j = choose|j: int|
                0 <= j < e2.dependencies@.len() && level_contains(
                    l2[a2 - 1],
                    e2.dependencies@[j],
                );
            assert(false);
        }
        assert(placed_at_level(l2, x, a1));
    } else {
        // The witness dependency one level below in l1 forces a2 >= a1.
        let j = choose|j: int|
            0 <= j < e1.dependencies@.len() && level_contains(l1[a1 - 1], e1.dependencies@[j]);
        let d = e1.dependencies@[j];
        assert(placed_at_level(l1, d, a1 - 1));
        lemma_level_agree_one(tasks, deps, l1, l2, a1 - 1, d);
        assert(placed_below(l2, e2.dependencies@[j], a2));
        let b = choose|b: int| 0 <= b < a2 && b < l2.len() && level_contains(l2[b], d);
        // d sits at both b and a1 - 1 in l2: the same entry, by uniqueness.
        let kb = choose|k: int| 0 <= k < l2[b].tasks@.len() && l2[b].tasks@[k].task_id == d;
        let lc = l2[a1 - 1].tasks@;
        let kc = choose|k: int| 0 <= k < lc.len() && lc[k].task_id == d;
        assert(b == a1 - 1);
        assert(a2 >= a1);
        // The witness dependency one level below in l2 forces a2 <= a1.
        let j2 = choose|j: int|
            0 <= j < e2.dependencies@.len() && level_contains(l2[a2 - 1], e2.dependencies@[j]);
        let d2 = e2.dependencies@[j2];
        assert(placed_below(l1, e1.dependencies@[j2], a1));
        let b1 = choose|b: int| 0 <= b < a1 && b < l1.len() && level_contains(l1[b], d2);
        assert(placed_at_level(l1, d2, b1));
        lemma_level_agree_one(tasks, deps, l1, l2, b1, d2);
        let kd = choose|k: int| 0 <= k < l2[b1].tasks@.len() && l2[b1].tasks@[k].task_id == d2;
        let le = l2[a2 - 1].tasks@;
        let ke = choose|k: int| 0 <= k < le.len() && le[k].task_id == d2;
        assert(b1 == a2 - 1);
        assert(a2 <= a1);
        assert(placed_at_level(l2, x, a1));
    }
}

/// The plan's level grouping is a function of the snapshot: any two
/// levelings that satisfy the plan shape for the same tasks and edges
/// place every id at the same level. Together with the exactly pinned
/// statistics, order and entry contents, the plan an implementation may
/// return for given inputs is determined.
pub proof fn lemma_leveling_unique(
    tasks: Seq<Task>,
    deps: Seq<TaskDependency>,
    l1: Seq<ExecutionLevel>,
    l2: Seq<ExecutionLevel>,
)
    requires
        distinct_ids(tasks),
        crate::dependency::edges_closed(tasks, deps),
        !crate::dependency::has_dependency_cycle(deps),
        plan_levels_ok(tasks, deps, l1),
        plan_levels_ok(tasks, deps, l2),
    ensures
        forall|x: Id, a: int|
            #![trigger placed_at_level(l1, x, a), placed_at_level(l2, x, a)]
            placed_at_level(l1, x, a) == placed_at_level(l2, x, a),
{
    assert forall|x: Id, a: int|
        #![trigger placed_at_level(l1, x, a), placed_at_level(l2, x, a)]
        placed_at_level(l1, x, a) == placed_at_level(l2, x, a) by {
        if placed_at_level(l1, x, a) {
            lemma_level_agree_one(tasks, deps, l1, l2, a, x);
        }
        if placed_at_level(l2, x, a) {
            lemma_level_agree_one(tasks, deps, l2, l1, a, x);
        }
    }
}

} // verus!
