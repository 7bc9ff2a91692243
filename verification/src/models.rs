//! Data shapes of the orchestration core: readiness, execution plans,
//! transition validation results, orchestrator states and events.

use vstd::prelude::*;

verus! {

use crate::task::{Id, TaskStatus};

/// Readiness of a task for execution, derived from its own status and the
/// statuses of the tasks it depends on.
#[derive(Clone, Debug)]
pub enum TaskReadiness {
    /// All dependencies are done and the task itself is still to do.
    Ready,
    /// One or more dependencies are not done yet.
    Blocked { blocking_task_ids: Vec<Id> },
    /// The task is being worked on or reviewed.
    InProgress,
    /// The task is done.
    Completed,
    /// The task is cancelled.
    Cancelled,
}

/// A task with its execution metadata.
#[derive(Clone)]
pub struct ExecutableTask {
    pub task_id: Id,
    pub status: TaskStatus,
    pub readiness: TaskReadiness,
    /// Ids of the tasks that must complete before the task can start.
    pub dependencies: Vec<Id>,
    /// Ids of the tasks that depend on the task.
    pub dependents: Vec<Id>,
}

/// A level of the plan: tasks at the same depth can run in parallel.
#[derive(Clone)]
pub struct ExecutionLevel {
    pub level: usize,
    pub tasks: Vec<ExecutableTask>,
}

/// An execution plan: tasks grouped by level, with aggregate statistics
/// counted once over the full task set.
#[derive(Clone)]
pub struct ExecutionPlan {
    pub levels: Vec<ExecutionLevel>,
    pub total_tasks: usize,
    pub completed_tasks: usize,
    pub in_progress_tasks: usize,
    pub in_review_tasks: usize,
    pub ready_tasks: usize,
    pub blocked_tasks: usize,
}

/// Result of validating a status transition.
#[derive(Clone)]
pub enum TransitionValidation {
    /// The transition is valid.
    Valid,
    /// The transition is not allowed by the state machine.
    Invalid { reason: String },
    /// The transition is allowed but dependencies are not met; the caller
    /// may force it.
    RequiresConfirmation { reason: String, blocking_tasks: Vec<Id> },
}

/// Lifecycle state of a project's orchestrator.
#[derive(Clone, Copy, PartialEq, Eq, Structural, Debug)]
pub enum OrchestratorState {
    /// Not running tasks.
    Idle,
    /// Actively running tasks.
    Running,
    /// Tasks in progress may finish, but no new tasks start.
    Paused,
    /// Waiting for in-progress tasks before returning to idle.
    Stopping,
}

impl Default for OrchestratorState {
    fn default() -> (r: Self)
        ensures
            r == OrchestratorState::Idle,
    {
        OrchestratorState::Idle
    }
}

/// Event published by the orchestrator.
#[derive(Clone)]
pub enum OrchestratorEvent {
    TaskStarted { task_id: Id },
    TaskCompleted { task_id: Id },
    TaskFailed { task_id: Id, error: String },
    TaskAwaitingReview { task_id: Id },
    StateChanged { state: OrchestratorState },
    PlanUpdated { plan: ExecutionPlan },
}

} // verus!
