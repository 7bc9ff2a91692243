//! Dependency edges between tasks.
//!
//! An edge `task_id -> depends_on_task_id` means the task may not leave
//! `Todo` until the task it depends on is `Done`.

use vstd::prelude::*;

verus! {

use crate::task::{Id, Task, has_task};

/// Who created the dependency relationship.
#[derive(Clone, Copy, PartialEq, Eq, Structural, Debug)]
pub enum DependencyCreator {
    User,
    Ai,
}

impl DependencyCreator {
    /// The lower-case name of the creator.
    pub open spec fn spec_name(self) -> Seq<char> {
        match self {
            DependencyCreator::User => "user"@,
            DependencyCreator::Ai => "ai"@,
        }
    }

    /// The lower-case name of the creator, as stored and serialized.
    pub fn as_str(&self) -> (r: &'static str)
        ensures
            r@ == self.spec_name(),
    {
        match self {
            DependencyCreator::User => "user",
            DependencyCreator::Ai => "ai",
        }
    }
}

impl core::str::FromStr for DependencyCreator {
    type Err = ();

    fn from_str(s: &str) -> Result<Self, Self::Err> {
        if crate::strings::str_eq(s, "user") {
            Ok(DependencyCreator::User)
        } else if crate::strings::str_eq(s, "ai") {
            Ok(DependencyCreator::Ai)
        } else {
            Err(())
        }
    }
}

impl Default for DependencyCreator {
    fn default() -> (r: Self)
        ensures
            r == DependencyCreator::User,
    {
        DependencyCreator::User
    }
}

/// A dependency edge: `task_id` cannot start until `depends_on_task_id` is done.
#[derive(Clone)]
pub struct TaskDependency {
    pub id: Id,
    pub task_id: Id,
    pub depends_on_task_id: Id,
    pub genre_id: Option<Id>,
    pub created_at: i64,
    pub created_by: DependencyCreator,
}

/// Payload for creating a dependency edge.
#[derive(Clone)]
pub struct CreateTaskDependency {
    pub task_id: Id,
    pub depends_on_task_id: Id,
    pub created_by: Option<DependencyCreator>,
    pub genre_id: Option<Id>,
}

/// Three-way update of an edge's genre: leave it, clear it, or set it.
#[derive(Clone, Copy, PartialEq, Eq, Structural, Debug)]
pub enum GenreUpdate {
    Unchanged,
    Clear,
    Assign(Id),
}

/// Payload for updating a dependency edge.
#[derive(Clone)]
pub struct UpdateTaskDependency {
    pub genre_id: GenreUpdate,
}

/// The ids a task depends on, in edge-list order.
pub open spec fn dep_ids_of(deps: Seq<TaskDependency>, task_id: Id) -> Seq<Id>
    decreases deps.len(),
{
    if deps.len() == 0 {
        Seq::empty()
    } else {
        let rest = dep_ids_of(deps.drop_last(), task_id);
        if deps.last().task_id == task_id {
            rest.push(deps.last().depends_on_task_id)
        } else {
            rest
        }
    }
}

/// The ids of tasks that depend on the given task, in edge-list order.
pub open spec fn dependent_ids_of(deps: Seq<TaskDependency>, task_id: Id) -> Seq<Id>
    decreases deps.len(),
{
    if deps.len() == 0 {
        Seq::empty()
    } else {
        let rest = dependent_ids_of(deps.drop_last(), task_id);
        if deps.last().depends_on_task_id == task_id {
            rest.push(deps.last().task_id)
        } else {
            rest
        }
    }
}

/// Some edge links `task_id` to `depends_on_task_id`.
pub open spec fn has_edge(deps: Seq<TaskDependency>, task_id: Id, depends_on_task_id: Id) -> bool {
    exists|k: int|
        0 <= k < deps.len() && deps[k].task_id == task_id && deps[k].depends_on_task_id
            == depends_on_task_id
}

/// Get all tasks that depend on the given task (direct dependents).
pub fn get_dependent_tasks(task_id: Id, dependencies: &Vec<TaskDependency>) -> (r: Vec<Id>)
    ensures
        r@ == dependent_ids_of(dependencies@, task_id),
{
    let mut out: Vec<Id> = Vec::new();
    let n = dependencies.len();
    for i in 0..n
        invariant
            n == dependencies@.len(),
            out@ == dependent_ids_of(dependencies@.take(i as int), task_id),
    {
        proof {
            crate::seqs::lemma_take_succ(dependencies@, i as int);
        }
        if dependencies[i].depends_on_task_id == task_id {
            out.push(dependencies[i].task_id);
        }
    }
    proof {
        crate::seqs::lemma_take_full(dependencies@);
    }
    out
}

/// Get all tasks that the given task depends on (direct dependencies).
pub fn get_dependency_tasks(task_id: Id, dependencies: &Vec<TaskDependency>) -> (r: Vec<Id>)
    ensures
        r@ == dep_ids_of(dependencies@, task_id),
{
    let mut out: Vec<Id> = Vec::new();
    let n = dependencies.len();
    for i in 0..n
        invariant
            n == dependencies@.len(),
            out@ == dep_ids_of(dependencies@.take(i as int), task_id),
    {
        proof {
            crate::seqs::lemma_take_succ(dependencies@, i as int);
        }
        if dependencies[i].task_id == task_id {
            out.push(dependencies[i].depends_on_task_id);
        }
    }
    proof {
        crate::seqs::lemma_take_full(dependencies@);
    }
    out
}


/// Every edge endpoint names a task of the list.
pub open spec fn edges_closed(tasks: Seq<Task>, deps: Seq<TaskDependency>) -> bool {
    forall|k: int|
        0 <= k < deps.len() ==> has_task(tasks, (#[trigger] deps[k]).task_id) && has_task(
            tasks,
            deps[k].depends_on_task_id,
        )
}

/// Consecutive ids of the walk are joined by dependency edges.
pub open spec fn path_in(deps: Seq<TaskDependency>, p: Seq<Id>) -> bool {
    forall|i: int| 0 <= i < p.len() - 1 ==> has_edge(deps, #[trigger] p[i], p[i + 1])
}

/// Some dependency walk returns to its start.
pub open spec fn has_dependency_cycle(deps: Seq<TaskDependency>) -> bool {
    exists|p: Seq<Id>| p.len() >= 2 && path_in(deps, p) && p.first() == p.last()
}

/// Each collected dependency id is the target of an edge from the task.
pub proof fn lemma_dep_ids_edge(deps: Seq<TaskDependency>, task_id: Id, j: int)
    requires
        0 <= j < dep_ids_of(deps, task_id).len(),
    ensures
        has_edge(deps, task_id, dep_ids_of(deps, task_id)[j]),
    decreases deps.len(),
{
    if deps.len() > 0 {
        let rest = dep_ids_of(deps.drop_last(), task_id);
        if deps.last().task_id == task_id && j == rest.len() {
            let k = deps.len() - 1;
            assert(deps[k].task_id == task_id && deps[k].depends_on_task_id == dep_ids_of(
                deps,
                task_id,
            )[j]);
        } else {
            lemma_dep_ids_edge(deps.drop_last(), task_id, j);
            let d = dep_ids_of(deps.drop_last(), task_id)[j];
            let k = choose|k: int|
                0 <= k < deps.drop_last().len() && deps.drop_last()[k].task_id == task_id
                    && deps.drop_last()[k].depends_on_task_id == d;
            assert(deps[k].task_id == task_id && deps[k].depends_on_task_id == d);
        }
    }
}

} // verus!
