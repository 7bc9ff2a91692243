//! Deterministic two-dimensional placement of the dependency graph: when an
//! edge changes, every task taking part in at least one edge is placed at a
//! column given by its level and a row given by its rank within the level;
//! isolated tasks keep their prior position, and a write is issued only
//! where the stored coordinates differ.

use vstd::prelude::*;

verus! {

use crate::task::{Id, Task, distinct_ids, has_task, task_with};
use crate::dependency::TaskDependency;
use crate::models::{ExecutableTask, ExecutionLevel, ExecutionPlan};
use crate::seqs::{count_matching, lemma_take_succ, lemma_take_full};

/// Width of a drawn task node, in pixels.
pub const NODE_WIDTH: i64 = 220;

/// Height of a drawn task node, in pixels.
pub const NODE_HEIGHT: i64 = 80;

/// Horizontal gap between columns, in pixels.
pub const HORIZONTAL_SPACING: i64 = 120;

/// Vertical gap between rows, in pixels.
pub const VERTICAL_SPACING: i64 = 40;

/// One coordinate write the layout recomputation issues.
#[derive(Clone, Copy, PartialEq, Eq, Structural, Debug)]
pub struct DagPosition {
    pub task_id: Id,
    pub x: i64,
    pub y: i64,
}

/// The entry takes part in at least one dependency edge.
pub open spec fn involved_pred() -> spec_fn(ExecutableTask) -> bool {
    |e: ExecutableTask| e.dependencies@.len() > 0 || e.dependents@.len() > 0
}

/// The x coordinate of a column.
pub open spec fn column_x(level: int) -> int {
    level * (NODE_WIDTH + HORIZONTAL_SPACING)
}

/// The y coordinate of a row.
pub open spec fn row_y(rank: int) -> int {
    rank * (NODE_HEIGHT + VERTICAL_SPACING)
}

/// The stored coordinates of the task differ from the given ones.
pub open spec fn stored_position_differs(tasks: Seq<Task>, id: Id, x: int, y: int) -> bool {
    task_with(tasks, id).dag_position_x != Some(x as i64) || task_with(tasks, id).dag_position_y
        != Some(y as i64)
}

/// The writes one level contributes: each entry on an edge, ranked by its
/// position among the level's on-edge entries, and written only when the
/// task exists and its stored coordinates differ.
pub open spec fn spec_level_updates(tasks: Seq<Task>, es: Seq<ExecutableTask>, li: int) -> Seq<
    DagPosition,
>
    decreases es.len(),
{
    if es.len() == 0 {
        Seq::empty()
    } else {
        let rest = spec_level_updates(tasks, es.drop_last(), li);
        let e = es.last();
        let rank = count_matching(es.drop_last(), involved_pred());
        if involved_pred()(e) && has_task(tasks, e.task_id) && stored_position_differs(
            tasks,
            e.task_id,
            column_x(li),
            row_y(rank as int),
        ) {
            rest.push(
                DagPosition {
                    task_id: e.task_id,
                    x: column_x(li) as i64,
                    y: row_y(rank as int) as i64,
                },
            )
        } else {
            rest
        }
    }
}

/// The writes the whole plan contributes, level by level.
pub open spec fn spec_layout_updates(tasks: Seq<Task>, levels: Seq<ExecutionLevel>) -> Seq<
    DagPosition,
>
    decreases levels.len(),
{
    if levels.len() == 0 {
        Seq::empty()
    } else {
        spec_layout_updates(tasks, levels.drop_last()) + spec_level_updates(
            tasks,
            levels.last().tasks@,
            levels.len() - 1,
        )
    }
}

/// The coordinate writes for a built plan: exactly the on-edge entries
/// whose stored coordinates differ from their column and row.
pub fn dag_layout_updates_for_plan(tasks: &Vec<Task>, plan: &ExecutionPlan) -> (r: Vec<
    DagPosition,
>)
    requires
        distinct_ids(tasks@),
        plan.levels@.len() <= 0x7fff_ffff,
        forall|a: int|
            0 <= a < plan.levels@.len() ==> (#[trigger] plan.levels@[a]).tasks@.len()
                <= 0x7fff_ffff,
    ensures
        r@ == spec_layout_updates(tasks@, plan.levels@),
{
    let mut out: Vec<DagPosition> = Vec::new();
    let nl = plan.levels.len();
    proof {
        assert(plan.levels@.take(0) =~= Seq::<ExecutionLevel>::empty());
    }
    for li in 0..nl
        invariant
            nl == plan.levels@.len(),
            nl <= 0x7fff_ffff,
            distinct_ids(tasks@),
            forall|a: int|
                0 <= a < plan.levels@.len() ==> (#[trigger] plan.levels@[a]).tasks@.len()
                    <= 0x7fff_ffff,
            out@ == spec_layout_updates(tasks@, plan.levels@.take(li as int)),
    {
        let level = &plan.levels[li];
        let m = level.tasks.len();
        let mut rank: usize = 0;
        let ghost base = spec_layout_updates(tasks@, plan.levels@.take(li as int));
        proof {
            assert(level.tasks@.take(0) =~= Seq::<ExecutableTask>::empty());
        }
        for k in 0..m
            invariant
                nl == plan.levels@.len(),
                li < nl,
                nl <= 0x7fff_ffff,
                m == level.tasks@.len(),
                m <= 0x7fff_ffff,
                level == &plan.levels@[li as int],
                distinct_ids(tasks@),
                base == spec_layout_updates(tasks@, plan.levels@.take(li as int)),
                rank == count_matching(level.tasks@.take(k as int), involved_pred()),
                rank <= k,
                out@ == base + spec_level_updates(
                    tasks@,
                    level.tasks@.take(k as int),
                    li as int,
                ),
        {
            proof {
                lemma_take_succ(level.tasks@, k as int);
            }
            let e = &level.tasks[k];
            let involved = e.dependencies.len() > 0 || e.dependents.len() > 0;
            if involved {
                let x: i64 = (li as i64) * (NODE_WIDTH + HORIZONTAL_SPACING);
                let y: i64 = (rank as i64) * (NODE_HEIGHT + VERTICAL_SPACING);
                match crate::task::find_task_index(tasks, e.task_id) {
                    Some(t) => {
                        proof {
                            crate::task::lemma_task_with_is_unique(tasks@, t as int);
                        }
                        let differs = match (tasks[t].dag_position_x, tasks[t].dag_position_y) {
                            (Some(sx), Some(sy)) => sx != x || sy != y,
                            _ => true,
                        };
                        if differs {
                            out.push(DagPosition { task_id: e.task_id, x, y });
                        }
                    },
                    None => {},
                }
                rank = rank + 1;
            }
            proof {
                assert(out@ =~= base + spec_level_updates(
                    tasks@,
                    level.tasks@.take(k + 1),
                    li as int,
                ));
            }
        }
        proof {
            lemma_take_succ(plan.levels@, li as int);
            lemma_take_full(level.tasks@);
            assert(out@ =~= spec_layout_updates(tasks@, plan.levels@.take(li + 1)));
        }
    }
    proof {
        lemma_take_full(plan.levels@);
    }
    out
}

/// Every write of a level's update list names an existing task whose stored
/// coordinates differ, at that level's column and some row.
proof fn lemma_level_updates_sound(tasks: Seq<Task>, es: Seq<ExecutableTask>, li: int, i: int)
    requires
        li >= 0,
        0 <= i < spec_level_updates(tasks, es, li).len(),
    ensures
        ({
            let u = spec_level_updates(tasks, es, li)[i];
            &&& has_task(tasks, u.task_id)
            &&& stored_position_differs(tasks, u.task_id, u.x as int, u.y as int)
            &&& exists|rk: int| rk >= 0 && u.x == column_x(li) as i64 && u.y == row_y(rk) as i64
        }),
    decreases es.len(),
{
    if es.len() > 0 {
        let rest = spec_level_updates(tasks, es.drop_last(), li);
        if i < rest.len() {
            lemma_level_updates_sound(tasks, es.drop_last(), li, i);
        } else {
            let rank = count_matching(es.drop_last(), involved_pred()) as int;
            assert(rank >= 0);
        }
    }
}

/// Every write of the whole update list names an existing task whose stored
/// coordinates differ, at some column and row.
pub proof fn lemma_layout_updates_sound(tasks: Seq<Task>, levels: Seq<ExecutionLevel>, i: int)
    requires
        0 <= i < spec_layout_updates(tasks, levels).len(),
    ensures
        ({
            let u = spec_layout_updates(tasks, levels)[i];
            &&& has_task(tasks, u.task_id)
            &&& stored_position_differs(tasks, u.task_id, u.x as int, u.y as int)
            &&& exists|li: int, rk: int|
                li >= 0 && rk >= 0 && u.x == column_x(li) as i64 && u.y == row_y(rk) as i64
        }),
    decreases levels.len(),
{
    if levels.len() > 0 {
        let rest = spec_layout_updates(tasks, levels.drop_last());
        if i < rest.len() {
            lemma_layout_updates_sound(tasks, levels.drop_last(), i);
        } else {
            lemma_level_updates_sound(tasks, levels.last().tasks@, levels.len() - 1, i - rest.len());
        }
    }
}

/// Recompute the dependency-graph layout for a project's snapshot: with no
/// edges nothing is written; otherwise the plan of the task set is built
/// and every task on at least one edge is placed at its level's column and
/// its rank's row, skipping tasks whose stored coordinates already match.
/// Isolated tasks receive no write and keep their prior position. The
/// result is pinned exactly: it is the update list of a leveling of this
/// snapshot that satisfies the full plan shape (`plan_levels_ok`), which
/// under the stored data's invariant places every task.
pub fn recalculate_dag_layout(tasks: &Vec<Task>, dependencies: &Vec<TaskDependency>) -> (r: Vec<
    DagPosition,
>)
    requires
        distinct_ids(tasks@),
        tasks@.len() <= 0x7fff_ffff,
    ensures
        dependencies@.len() == 0 ==> r@.len() == 0,
        dependencies@.len() > 0 ==> exists|levels: Seq<ExecutionLevel>|
            #![trigger spec_layout_updates(tasks@, levels)]
            crate::scheduler::plan_levels_ok(tasks@, dependencies@, levels) && r@
                == spec_layout_updates(tasks@, levels),
        forall|i: int|
            0 <= i < r@.len() ==> {
                let u = #[trigger] r@[i];
                &&& has_task(tasks@, u.task_id)
                &&& stored_position_differs(tasks@, u.task_id, u.x as int, u.y as int)
                &&& exists|li: int, rk: int|
                    li >= 0 && rk >= 0 && u.x == column_x(li) as i64 && u.y == row_y(rk) as i64
            },
{
    if dependencies.len() == 0 {
        return Vec::new();
    }
    let plan = crate::scheduler::build_execution_plan(tasks, dependencies);
    let out = dag_layout_updates_for_plan(tasks, &plan);
    proof {
        assert(crate::scheduler::plan_levels_ok(tasks@, dependencies@, plan.levels@) && out@
            == spec_layout_updates(tasks@, plan.levels@));
    }
    proof {
        assert forall|i: int| 0 <= i < out@.len() implies {
            let u = #[trigger] out@[i];
            &&& has_task(tasks@, u.task_id)
            &&& stored_position_differs(tasks@, u.task_id, u.x as int, u.y as int)
            &&& exists|li: int, rk: int|
                li >= 0 && rk >= 0 && u.x == column_x(li) as i64 && u.y == row_y(rk) as i64
        } by {
            lemma_layout_updates_sound(tasks@, plan.levels@, i);
        }
    }
    out
}

} // verus!
