//! Validation of dependency-edge creation and deletion over an in-memory
//! snapshot of a project's tasks and edges.
//!
//! The reachability question behind cycle rejection is answered by the
//! storage engine's recursive query; its answer is taken as an input here,
//! and every other rule about a new edge is decided and checked on plain
//! data.

use vstd::prelude::*;

verus! {

use crate::task::{Id, Task, distinct_ids, has_task, task_with};
use crate::dependency::{CreateTaskDependency, TaskDependency, has_edge, path_in};

/// Why a requested dependency edge is refused.
#[derive(Clone, Copy, PartialEq, Eq, Structural, Debug)]
pub enum DependencyError {
    /// A task may not depend on itself.
    SelfDependency,
    /// The depending task is not in the project's task list.
    TaskNotFound,
    /// The depended-on task is not in the project's task list.
    DependsOnTaskNotFound,
    /// The depending task belongs to another project.
    CrossProjectTask,
    /// The depended-on task belongs to another project.
    CrossProjectDependsOnTask,
    /// The edge already exists.
    DuplicateDependency,
    /// Adding the edge would close a dependency cycle.
    CycleDetected,
}

/// Check if a dependency exists between two tasks.
pub fn dependency_exists(
    dependencies: &Vec<TaskDependency>,
    task_id: Id,
    depends_on_task_id: Id,
) -> (r: bool)
    ensures
        r == has_edge(dependencies@, task_id, depends_on_task_id),
{
    let n = dependencies.len();
    for i in 0..n
        invariant
            n == dependencies@.len(),
            forall|k: int|
                0 <= k < i ==> !((#[trigger] dependencies@[k]).task_id == task_id
                    && dependencies@[k].depends_on_task_id == depends_on_task_id),
    {
        if dependencies[i].task_id == task_id && dependencies[i].depends_on_task_id
            == depends_on_task_id {
            return true;
        }
    }
    false
}

/// The exact outcome of validating a requested edge, checks in order: no
/// self-dependency; the depending task present and in the project; the
/// depended-on task present and in the project; no duplicate edge; no
/// cycle.
pub open spec fn spec_validate_create_dependency(
    project_id: Id,
    payload: CreateTaskDependency,
    tasks: Seq<Task>,
    dependencies: Seq<TaskDependency>,
    creates_cycle: bool,
) -> Result<(), DependencyError> {
    if payload.task_id == payload.depends_on_task_id {
        Err(DependencyError::SelfDependency)
    } else if !has_task(tasks, payload.task_id) {
        Err(DependencyError::TaskNotFound)
    } else if task_with(tasks, payload.task_id).project_id != project_id {
        Err(DependencyError::CrossProjectTask)
    } else if !has_task(tasks, payload.depends_on_task_id) {
        Err(DependencyError::DependsOnTaskNotFound)
    } else if task_with(tasks, payload.depends_on_task_id).project_id != project_id {
        Err(DependencyError::CrossProjectDependsOnTask)
    } else if has_edge(dependencies, payload.task_id, payload.depends_on_task_id) {
        Err(DependencyError::DuplicateDependency)
    } else if creates_cycle {
        Err(DependencyError::CycleDetected)
    } else {
        Ok(())
    }
}

/// Validate a requested dependency edge against the project's snapshot: no
/// self-dependency, both tasks present and in the project, no duplicate
/// edge, and no cycle. The cycle answer of the storage engine's
/// reachability query (or of `reaches` on the same snapshot) is passed in.
/// The result is pinned exactly, each refusal with its condition.
pub fn validate_create_dependency(
    project_id: Id,
    payload: &CreateTaskDependency,
    tasks: &Vec<Task>,
    dependencies: &Vec<TaskDependency>,
    creates_cycle: bool,
) -> (r: Result<(), DependencyError>)
    requires
        distinct_ids(tasks@),
    ensures
        r == spec_validate_create_dependency(
            project_id,
            *payload,
            tasks@,
            dependencies@,
            creates_cycle,
        ),
{
    if payload.task_id == payload.depends_on_task_id {
        return Err(DependencyError::SelfDependency);
    }
    let task_idx = match crate::task::find_task_index(tasks, payload.task_id) {
        Some(k) => k,
        None => {
            return Err(DependencyError::TaskNotFound);
        },
    };
    proof {
        crate::task::lemma_task_with_is_unique(tasks@, task_idx as int);
    }
    if tasks[task_idx].project_id != project_id {
        return Err(DependencyError::CrossProjectTask);
    }
    let dep_idx = match crate::task::find_task_index(tasks, payload.depends_on_task_id) {
        Some(k) => k,
        None => {
            return Err(DependencyError::DependsOnTaskNotFound);
        },
    };
    proof {
        crate::task::lemma_task_with_is_unique(tasks@, dep_idx as int);
    }
    if tasks[dep_idx].project_id != project_id {
        return Err(DependencyError::CrossProjectDependsOnTask);
    }
    if dependency_exists(dependencies, payload.task_id, payload.depends_on_task_id) {
        return Err(DependencyError::DuplicateDependency);
    }
    if creates_cycle {
        return Err(DependencyError::CycleDetected);
    }
    Ok(())
}


/// Some dependency walk leads from `from` to `to`.
#[verifier::opaque]
pub open spec fn reachable(deps: Seq<TaskDependency>, from: Id, to: Id) -> bool {
    exists|p: Seq<Id>|
        p.len() >= 2 && path_in(deps, p) && p.first() == from && p.last() == to
}

/// One more edge extends reachability.
proof fn lemma_reach_step(deps: Seq<TaskDependency>, from: Id, mid: Id, to: Id)
    requires
        mid == from || reachable(deps, from, mid),
        has_edge(deps, mid, to),
    ensures
        reachable(deps, from, to),
{
    reveal(reachable);
    if mid == from {
        let p = seq![from, to];
        assert(path_in(deps, p)) by {
            assert(p[0] == mid && p[1] == to);
        }
        assert(p.len() >= 2 && p.first() == from && p.last() == to);
    } else {
        let p = choose|p: Seq<Id>|
            p.len() >= 2 && path_in(deps, p) && p.first() == from && p.last() == mid;
        let p2 = p.push(to);
        assert forall|i: int| 0 <= i < p2.len() - 1 implies has_edge(
            deps,
            #[trigger] p2[i],
            p2[i + 1],
        ) by {
            if i < p.len() - 1 {
                assert(p2[i] == p[i] && p2[i + 1] == p[i + 1]);
            } else {
                assert(p2[i] == p.last() && p2[i + 1] == to);
            }
        }
        assert(path_in(deps, p2));
        assert(p2.len() >= 2 && p2.first() == from && p2.last() == to);
    }
}

/// A walk that starts inside a set closed under the edges stays inside it.
proof fn lemma_path_stays(
    deps: Seq<TaskDependency>,
    visited: Seq<Id>,
    p: Seq<Id>,
    i: int,
)
    requires
        forall|k: int|
            0 <= k < deps.len() && visited.contains((#[trigger] deps[k]).task_id)
                ==> visited.contains(deps[k].depends_on_task_id),
        path_in(deps, p),
        visited.contains(p.first()),
        0 <= i < p.len(),
    ensures
        visited.contains(p[i]),
    decreases i,
{
    if i > 0 {
        lemma_path_stays(deps, visited, p, i - 1);
        assert(has_edge(deps, p[i - 1], p[i]));
        let k = choose|k: int|
            0 <= k < deps.len() && (#[trigger] deps[k]).task_id == p[i - 1]
                && deps[k].depends_on_task_id == p[i];
        assert(visited.contains(deps[k].task_id));
    }
}

/// The search set holds the start and otherwise only edge targets, without
/// repeats, so it never outgrows the edge list by more than one.
proof fn lemma_visited_bound(visited: Seq<Id>, deps: Seq<TaskDependency>, from: Id)
    requires
        visited.no_duplicates(),
        forall|i: int|
            0 <= i < visited.len() ==> visited[i] == from || exists|k: int|
                0 <= k < deps.len() && (#[trigger] visited[i]) == (
                #[trigger] deps[k]).depends_on_task_id,
    ensures
        visited.len() <= deps.len() + 1,
{
    let universe = seq![from] + Seq::new(deps.len(), |k: int| deps[k].depends_on_task_id);
    universe.lemma_cardinality_of_set();
    if visited.len() > deps.len() + 1 {
        assert forall|i: int| 0 <= i < visited.len() implies universe.to_set().contains(
            #[trigger] visited[i],
        ) by {
            if visited[i] == from {
                assert(universe[0] == from);
                assert(universe.contains(visited[i]));
            } else {
                let k = choose|k: int|
                    0 <= k < deps.len() && (#[trigger] visited[i]) == (
                    #[trigger] deps[k]).depends_on_task_id;
                assert(universe[k + 1] == visited[i]);
                assert(universe.contains(visited[i]));
            }
        }
        crate::seqs::lemma_dup_in_seq(visited, universe.to_set());
        let (i, j) = choose|i: int, j: int| 0 <= i < j < visited.len() && visited[i] == visited[j];
        assert(false);
    }
}

/// Can `to` be reached from `from` along the dependency edges? The search
/// grows a set of reached ids until it either meets `to` or closes.
#[verifier::rlimit(100)]
#[verifier::spinoff_prover]
pub fn reaches(dependencies: &Vec<TaskDependency>, from: Id, to: Id) -> (r: bool)
    ensures
        r == reachable(dependencies@, from, to),
{
    let n = dependencies.len();
    let mut visited: Vec<Id> = Vec::new();
    visited.push(from);
    let mut pi: usize = 0;
    while pi < visited.len()
        invariant
            n == dependencies@.len(),
            pi <= visited@.len(),
            visited@.len() <= n + 1,
            visited@.no_duplicates(),
            visited@[0] == from,
            visited@.len() >= 1,
            forall|i: int|
                0 <= i < visited@.len() ==> #[trigger] visited@[i] == from || reachable(
                    dependencies@,
                    from,
                    visited@[i],
                ),
            forall|i: int|
                0 <= i < visited@.len() ==> #[trigger] visited@[i] == from || exists|k: int|
                    0 <= k < dependencies@.len() && visited@[i] == (
                    #[trigger] dependencies@[k]).depends_on_task_id,
            forall|q: int, k: int|
                #![trigger visited@[q], dependencies@[k]]
                0 <= q < pi && 0 <= k < dependencies@.len() && dependencies@[k].task_id
                    == visited@[q] ==> visited@.contains(dependencies@[k].depends_on_task_id)
                    && dependencies@[k].depends_on_task_id != to,
        decreases n + 1 - visited@.len(), visited@.len() - pi,
    {
        let cur = visited[pi];
        let ghost entry_len = visited@.len();
        for k in 0..n
            invariant
                n == dependencies@.len(),
                pi < visited@.len(),
                visited@.len() <= n + 1,
                visited@.len() >= entry_len,
                visited@.no_duplicates(),
                visited@[0] == from,
                cur == visited@[pi as int],
                forall|i: int|
                    0 <= i < visited@.len() ==> #[trigger] visited@[i] == from || reachable(
                        dependencies@,
                        from,
                        visited@[i],
                    ),
                forall|i: int|
                    0 <= i < visited@.len() ==> #[trigger] visited@[i] == from || exists|k2: int|
                        0 <= k2 < dependencies@.len() && visited@[i] == (
                        #[trigger] dependencies@[k2]).depends_on_task_id,
                forall|q: int, k2: int|
                    #![trigger visited@[q], dependencies@[k2]]
                    0 <= q < pi && 0 <= k2 < dependencies@.len() && dependencies@[k2].task_id
                        == visited@[q] ==> visited@.contains(dependencies@[k2].depends_on_task_id)
                        && dependencies@[k2].depends_on_task_id != to,
                forall|k2: int|
                    0 <= k2 < k && dependencies@[k2].task_id == cur ==> visited@.contains(
                        (#[trigger] dependencies@[k2]).depends_on_task_id,
                    ) && dependencies@[k2].depends_on_task_id != to,
        {
            if dependencies[k].task_id == cur {
                let t = dependencies[k].depends_on_task_id;
                if t == to {
                    proof {
                        assert(has_edge(dependencies@, cur, t)) by {
                            assert(dependencies@[k as int].task_id == cur
                                && dependencies@[k as int].depends_on_task_id == t);
                        }
                        lemma_reach_step(dependencies@, from, cur, to);
                    }
                    return true;
                }
                if !id_list_contains(&visited, t) {
                    let ghost pre = visited@;
                    visited.push(t);
                    proof {
                        assert(has_edge(dependencies@, cur, t)) by {
                            assert(dependencies@[k as int].task_id == cur
                                && dependencies@[k as int].depends_on_task_id == t);
                        }
                        lemma_reach_step(dependencies@, from, cur, t);
                        assert forall|i: int, j: int|
                            0 <= i < visited@.len() && 0 <= j < visited@.len() && i != j implies
                            visited@[i] != visited@[j] by {
                            if i < pre.len() && j < pre.len() {
                            } else if j == pre.len() {
                                assert(visited@[j] == t);
                                assert(!pre.contains(t));
                                assert(visited@[i] == pre[i]);
                                assert(pre.contains(pre[i]));
                            } else {
                                assert(visited@[i] == t);
                                assert(!pre.contains(t));
                                assert(visited@[j] == pre[j]);
                                assert(pre.contains(pre[j]));
                            }
                        }
                        assert(visited@.no_duplicates());
                        assert forall|q: int, k2: int|
                            #![trigger visited@[q], dependencies@[k2]]
                            0 <= q < pi && 0 <= k2 < dependencies@.len()
                                && dependencies@[k2].task_id == visited@[q] implies visited@.contains(
                            dependencies@[k2].depends_on_task_id,
                        ) && dependencies@[k2].depends_on_task_id != to by {
                            assert(visited@[q] == pre[q]);
                            assert(pre.contains(dependencies@[k2].depends_on_task_id));
                            let w = choose|w: int|
                                0 <= w < pre.len() && pre[w] == dependencies@[k2].depends_on_task_id;
                            assert(visited@[w] == dependencies@[k2].depends_on_task_id);
                        }
                        lemma_visited_bound(visited@, dependencies@, from);
                        assert forall|k2: int|
                            0 <= k2 < k + 1 && dependencies@[k2].task_id == cur implies visited@.contains(
                            (#[trigger] dependencies@[k2]).depends_on_task_id,
                        ) && dependencies@[k2].depends_on_task_id != to by {
                            if k2 < k {
                                assert(pre.contains(dependencies@[k2].depends_on_task_id));
                                let w = choose|w: int|
                                    0 <= w < pre.len() && pre[w]
                                        == dependencies@[k2].depends_on_task_id;
                                assert(visited@[w] == dependencies@[k2].depends_on_task_id);
                            } else {
                                assert(visited@[visited@.len() - 1] == t);
                            }
                        }
                    }
                }
            }
        }
        pi = pi + 1;
    }
    proof {
        if reachable(dependencies@, from, to) {
            reveal(reachable);
            let p = choose|p: Seq<Id>|
                p.len() >= 2 && path_in(dependencies@, p) && p.first() == from && p.last() == to;
            assert forall|k: int|
                0 <= k < dependencies@.len() && visited@.contains(
                    (#[trigger] dependencies@[k]).task_id,
                ) implies visited@.contains(dependencies@[k].depends_on_task_id) by {
                let q = choose|q: int|
                    0 <= q < visited@.len() && visited@[q] == dependencies@[k].task_id;
                assert(0 <= q < pi);
            }
            assert(visited@.contains(p.first())) by {
                assert(visited@[0] == from);
            }
            lemma_path_stays(dependencies@, visited@, p, p.len() - 2);
            assert(has_edge(dependencies@, p[p.len() - 2], p[p.len() - 1]));
            let k = choose|k: int|
                0 <= k < dependencies@.len() && (#[trigger] dependencies@[k]).task_id == p[p.len()
                    - 2] && dependencies@[k].depends_on_task_id == p[p.len() - 1];
            let q = choose|q: int| 0 <= q < visited@.len() && visited@[q] == p[p.len() - 2];
            assert(0 <= q < pi);
            assert(dependencies@[k].depends_on_task_id != to);
            assert(false);
        }
    }
    false
}

/// Does the tail of the list hold the id?
fn id_list_contains(v: &Vec<Id>, id: Id) -> (r: bool)
    ensures
        r == v@.contains(id),
{
    let n = v.len();
    for i in 0..n
        invariant
            n == v@.len(),
            forall|k: int| 0 <= k < i ==> v@[k] != id,
    {
        if v[i] == id {
            return true;
        }
    }
    false
}

/// Check if adding the edge `task_id -> depends_on_task_id` would close a
/// dependency cycle: it does exactly when `task_id` is already reachable
/// from `depends_on_task_id` along the existing edges.
pub fn would_create_cycle(
    dependencies: &Vec<TaskDependency>,
    task_id: Id,
    depends_on_task_id: Id,
) -> (r: bool)
    ensures
        r == reachable(dependencies@, depends_on_task_id, task_id),
{
    reaches(dependencies, depends_on_task_id, task_id)
}

} // verus!
