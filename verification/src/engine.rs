//! The per-project orchestrator core: lifecycle decisions and the ordered
//! events each operation publishes.
//!
//! The core is a pure state machine: each operation takes the freshly built
//! plan it needs as an argument and returns the events to publish, in the
//! order they must be observed. The surrounding process owns the lock, the
//! event channel and the storage reads.

use vstd::prelude::*;

verus! {

use crate::task::Id;
use crate::models::{ExecutionPlan, OrchestratorEvent, OrchestratorState, TransitionValidation};
use crate::scheduler::spec_ready_ids;

/// An error from an orchestrator operation.
#[derive(Clone, Debug)]
pub enum OrchestratorError {
    Database(String),
    InvalidTransition(String),
    TaskNotFound(Id),
    NotRunning,
    AlreadyRunning,
}

/// Orchestrator state for a single project.
pub struct ProjectOrchestrator {
    pub project_id: Id,
    pub state: OrchestratorState,
    /// Greatest number of tasks that may run in parallel.
    pub max_parallel_tasks: usize,
}

impl ProjectOrchestrator {
    /// A new, idle orchestrator.
    pub fn new(project_id: Id, max_parallel_tasks: usize) -> (r: Self)
        ensures
            r.project_id == project_id,
            r.state == OrchestratorState::Idle,
            r.max_parallel_tasks == max_parallel_tasks,
    {
        ProjectOrchestrator { project_id, state: OrchestratorState::Idle, max_parallel_tasks }
    }

    /// Current orchestrator state.
    pub fn get_state(&self) -> (r: OrchestratorState)
        ensures
            r == self.state,
    {
        self.state
    }

    /// Start: only an orchestrator that is not already running starts, and
    /// it publishes the state change followed by the fresh plan.
    pub fn start(&mut self, plan: ExecutionPlan) -> (r: Result<
        Vec<OrchestratorEvent>,
        OrchestratorError,
    >)
        ensures
            old(self).state == OrchestratorState::Running ==> (r matches Err(e) && e
                is AlreadyRunning) && final(self).state == old(self).state,
            old(self).state != OrchestratorState::Running ==> final(self).state
                == OrchestratorState::Running && (r matches Ok(events) && events@.len() == 2
                && (events@[0] matches OrchestratorEvent::StateChanged { state } && state
                == OrchestratorState::Running) && (events@[1] matches
                OrchestratorEvent::PlanUpdated { plan: p } && p == plan)),
            final(self).project_id == old(self).project_id,
            final(self).max_parallel_tasks == old(self).max_parallel_tasks,
    {
        if matches!(self.state, OrchestratorState::Running) {
            return Err(OrchestratorError::AlreadyRunning);
        }
        self.state = OrchestratorState::Running;
        let mut events: Vec<OrchestratorEvent> = Vec::new();
        events.push(OrchestratorEvent::StateChanged { state: OrchestratorState::Running });
        events.push(OrchestratorEvent::PlanUpdated { plan });
        Ok(events)
    }

    /// Pause: only a running orchestrator pauses; no plan is republished.
    pub fn pause(&mut self) -> (r: Result<Vec<OrchestratorEvent>, OrchestratorError>)
        ensures
            old(self).state != OrchestratorState::Running ==> (r matches Err(e) && e is NotRunning)
                && final(self).state == old(self).state,
            old(self).state == OrchestratorState::Running ==> final(self).state
                == OrchestratorState::Paused && (r matches Ok(events) && events@.len() == 1 && (
            events@[0] matches OrchestratorEvent::StateChanged { state } && state
                == OrchestratorState::Paused)),
            final(self).project_id == old(self).project_id,
            final(self).max_parallel_tasks == old(self).max_parallel_tasks,
    {
        if !matches!(self.state, OrchestratorState::Running) {
            return Err(OrchestratorError::NotRunning);
        }
        self.state = OrchestratorState::Paused;
        let mut events: Vec<OrchestratorEvent> = Vec::new();
        events.push(OrchestratorEvent::StateChanged { state: OrchestratorState::Paused });
        Ok(events)
    }

    /// Resume: only a paused orchestrator resumes, and it publishes the
    /// state change followed by the fresh plan.
    pub fn resume(&mut self, plan: ExecutionPlan) -> (r: Result<
        Vec<OrchestratorEvent>,
        OrchestratorError,
    >)
        ensures
            old(self).state != OrchestratorState::Paused ==> (r matches Err(e) && e is NotRunning)
                && final(self).state == old(self).state,
            old(self).state == OrchestratorState::Paused ==> final(self).state
                == OrchestratorState::Running && (r matches Ok(events) && events@.len() == 2 && (
            events@[0] matches OrchestratorEvent::StateChanged { state } && state
                == OrchestratorState::Running) && (events@[1] matches
                OrchestratorEvent::PlanUpdated { plan: p } && p == plan)),
            final(self).project_id == old(self).project_id,
            final(self).max_parallel_tasks == old(self).max_parallel_tasks,
    {
        if !matches!(self.state, OrchestratorState::Paused) {
            return Err(OrchestratorError::NotRunning);
        }
        self.state = OrchestratorState::Running;
        let mut events: Vec<OrchestratorEvent> = Vec::new();
        events.push(OrchestratorEvent::StateChanged { state: OrchestratorState::Running });
        events.push(OrchestratorEvent::PlanUpdated { plan });
        Ok(events)
    }

    /// Stop: an idle orchestrator stays idle and publishes nothing (stop is
    /// idempotent); any other state passes through stopping and returns to
    /// idle, publishing both edges.
    pub fn stop(&mut self) -> (r: Result<Vec<OrchestratorEvent>, OrchestratorError>)
        ensures
            final(self).state == OrchestratorState::Idle,
            r is Ok,
            old(self).state == OrchestratorState::Idle ==> (r matches Ok(events) && events@.len()
                == 0),
            old(self).state != OrchestratorState::Idle ==> (r matches Ok(events) && events@.len()
                == 2 && (events@[0] matches OrchestratorEvent::StateChanged { state } && state
                == OrchestratorState::Stopping) && (events@[1] matches
                OrchestratorEvent::StateChanged { state } && state == OrchestratorState::Idle)),
            final(self).project_id == old(self).project_id,
            final(self).max_parallel_tasks == old(self).max_parallel_tasks,
    {
        if matches!(self.state, OrchestratorState::Idle) {
            return Ok(Vec::new());
        }
        self.state = OrchestratorState::Stopping;
        let mut events: Vec<OrchestratorEvent> = Vec::new();
        events.push(OrchestratorEvent::StateChanged { state: OrchestratorState::Stopping });
        self.state = OrchestratorState::Idle;
        events.push(OrchestratorEvent::StateChanged { state: OrchestratorState::Idle });
        Ok(events)
    }

    /// The tasks handed out for execution: none unless running; otherwise
    /// the ready tasks of the fresh plan, in plan order, truncated to the
    /// parallelism budget left over by the tasks already in progress.
    pub fn get_ready_to_execute(&self, plan: &ExecutionPlan) -> (r: Vec<Id>)
        ensures
            self.state != OrchestratorState::Running ==> r@.len() == 0,
            self.state == OrchestratorState::Running ==> {
                let ready = spec_ready_ids(plan.levels@);
                let slots = if self.max_parallel_tasks >= plan.in_progress_tasks {
                    self.max_parallel_tasks - plan.in_progress_tasks
                } else {
                    0
                };
                r@ == ready.take(
                    if slots <= ready.len() {
                        slots as int
                    } else {
                        ready.len() as int
                    },
                )
            },
    {
        if !matches!(self.state, OrchestratorState::Running) {
            return Vec::new();
        }
        let entries = crate::scheduler::get_ready_tasks(plan);
        let slots = if self.max_parallel_tasks >= plan.in_progress_tasks {
            self.max_parallel_tasks - plan.in_progress_tasks
        } else {
            0
        };
        let limit = if slots <= entries.len() {
            slots
        } else {
            entries.len()
        };
        let mut out: Vec<Id> = Vec::new();
        for k in 0..limit
            invariant
                limit <= entries@.len(),
                entries@.len() == spec_ready_ids(plan.levels@).len(),
                forall|q: int|
                    0 <= q < entries@.len() ==> (*#[trigger] entries@[q]).task_id
                        == spec_ready_ids(plan.levels@)[q],
                out@.len() == k,
                forall|q: int|
                    0 <= q < k ==> #[trigger] out@[q] == spec_ready_ids(plan.levels@)[q],
        {
            out.push(entries[k].task_id);
        }
        proof {
            assert(out@ =~= spec_ready_ids(plan.levels@).take(limit as int));
        }
        out
    }

    /// Validate a requested status transition for one task of the project's
    /// snapshot: a missing task is the only error; an existing task is
    /// judged by the state machine and the dependency gate, with the full
    /// verdict of `validate_transition` pinned on the payload.
    pub fn validate_task_transition(
        &self,
        task_id: Id,
        new_status: &crate::task::TaskStatus,
        tasks: &Vec<crate::task::Task>,
        dependencies: &Vec<crate::dependency::TaskDependency>,
    ) -> (r: Result<TransitionValidation, OrchestratorError>)
        requires
            crate::task::distinct_ids(tasks@),
        ensures
            !crate::task::has_task(tasks@, task_id) <==> (r matches Err(e) && e matches
                OrchestratorError::TaskNotFound(t) && t == task_id),
            crate::task::has_task(tasks@, task_id) ==> (r matches Ok(v) && {
                let task = crate::task::task_with(tasks@, task_id);
                let blocking = crate::state_machine::spec_blocking_ids(
                    dependencies@,
                    tasks@,
                    task_id,
                );
                &&& (task.status == *new_status ==> v is Valid)
                &&& (!crate::state_machine::spec_is_valid_transition(task.status, *new_status)
                    ==> (v matches TransitionValidation::Invalid { reason } && reason@
                    == crate::state_machine::spec_invalid_reason(task.status, *new_status)))
                &&& (!crate::state_machine::spec_is_valid_transition(task.status, *new_status)
                    ==> !(v is Valid))
                &&& (task.status != *new_status
                    && crate::state_machine::spec_is_valid_transition(task.status, *new_status)
                    && *new_status == crate::task::TaskStatus::InProgress && blocking.len() > 0
                    ==> (v matches TransitionValidation::RequiresConfirmation {
                    reason,
                    blocking_tasks,
                } && blocking_tasks@ == blocking && reason@
                    == crate::state_machine::spec_confirmation_reason(blocking.len())))
                &&& (task.status != *new_status
                    && crate::state_machine::spec_is_valid_transition(task.status, *new_status)
                    && (*new_status != crate::task::TaskStatus::InProgress || blocking.len() == 0)
                    ==> v is Valid)
            }),
    {
        let idx = match crate::task::find_task_index(tasks, task_id) {
            Some(k) => k,
            None => {
                return Err(OrchestratorError::TaskNotFound(task_id));
            },
        };
        proof {
            crate::task::lemma_task_with_is_unique(tasks@, idx as int);
        }
        Ok(crate::state_machine::validate_transition(&tasks[idx], new_status, tasks, dependencies))
    }

    /// The events published when a task starts: the task event, then the
    /// fresh plan.
    pub fn on_task_started(&self, task_id: Id, plan: ExecutionPlan) -> (r: Vec<OrchestratorEvent>)
        ensures
            r@.len() == 2,
            r@[0] matches OrchestratorEvent::TaskStarted { task_id: t } && t == task_id,
            r@[1] matches OrchestratorEvent::PlanUpdated { plan: p } && p == plan,
    {
        let mut events: Vec<OrchestratorEvent> = Vec::new();
        events.push(OrchestratorEvent::TaskStarted { task_id });
        events.push(OrchestratorEvent::PlanUpdated { plan });
        events
    }

    /// The events published when a task fails; the orchestrator does not
    /// cancel dependents.
    pub fn on_task_failed(&self, task_id: Id, error: String, plan: ExecutionPlan) -> (r: Vec<
        OrchestratorEvent,
    >)
        ensures
            r@.len() == 2,
            r@[0] matches OrchestratorEvent::TaskFailed { task_id: t, error: e } && t == task_id
                && e@ == error@,
            r@[1] matches OrchestratorEvent::PlanUpdated { plan: p } && p == plan,
    {
        let mut events: Vec<OrchestratorEvent> = Vec::new();
        events.push(OrchestratorEvent::TaskFailed { task_id, error });
        events.push(OrchestratorEvent::PlanUpdated { plan });
        events
    }

    /// The events published when a task goes to review.
    pub fn on_task_review(&self, task_id: Id, plan: ExecutionPlan) -> (r: Vec<OrchestratorEvent>)
        ensures
            r@.len() == 2,
            r@[0] matches OrchestratorEvent::TaskAwaitingReview { task_id: t } && t == task_id,
            r@[1] matches OrchestratorEvent::PlanUpdated { plan: p } && p == plan,
    {
        let mut events: Vec<OrchestratorEvent> = Vec::new();
        events.push(OrchestratorEvent::TaskAwaitingReview { task_id });
        events.push(OrchestratorEvent::PlanUpdated { plan });
        events
    }

    /// The events published when a task completes, and the tasks whose only
    /// remaining blocker it was: the completion event comes first, the plan
    /// follows it.
    pub fn on_task_completed(&self, task_id: Id, plan: ExecutionPlan) -> (r: (
        Vec<Id>,
        Vec<OrchestratorEvent>,
    ))
        ensures
            r.0@ == crate::scheduler::spec_unblocked_ids(plan.levels@, task_id),
            r.1@.len() == 2,
            r.1@[0] matches OrchestratorEvent::TaskCompleted { task_id: t } && t == task_id,
            r.1@[1] matches OrchestratorEvent::PlanUpdated { plan: p } && p == plan,
    {
        let newly_ready = crate::scheduler::get_tasks_unblocked_by_completion(&plan, task_id);
        let mut events: Vec<OrchestratorEvent> = Vec::new();
        events.push(OrchestratorEvent::TaskCompleted { task_id });
        events.push(OrchestratorEvent::PlanUpdated { plan });
        (newly_ready, events)
    }
}

} // verus!
