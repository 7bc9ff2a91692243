use vibe_kanban::engine::ProjectOrchestrator;
use vibe_kanban::dependency::{DependencyCreator, TaskDependency};
use vibe_kanban::task::{Task, TaskStatus};
use vibe_kanban::models::{ExecutionPlan, OrchestratorEvent, OrchestratorState};
use vibe_kanban::scheduler::build_execution_plan;
use vibe_kanban::engine::OrchestratorError;

fn empty_plan() -> ExecutionPlan {
    build_execution_plan(&Vec::new(), &Vec::new())
}

#[test]
fn test_orchestrator_state_transitions() {
    let mut orch = ProjectOrchestrator::new(1, 3);
    assert_eq!(orch.get_state(), OrchestratorState::Idle);

    // Can't pause when idle
    assert!(orch.pause().is_err());

    // Can stop when idle (no-op)
    assert!(orch.stop().is_ok());
    assert_eq!(orch.get_state(), OrchestratorState::Idle);
}

#[test]
fn stop_when_idle_publishes_nothing() {
    let mut orch = ProjectOrchestrator::new(1, 3);
    let events = orch.stop().unwrap();
    assert!(events.is_empty());
    assert_eq!(orch.get_state(), OrchestratorState::Idle);
}

#[test]
fn start_publishes_state_then_plan() {
    let mut orch = ProjectOrchestrator::new(1, 3);
    let events = orch.start(empty_plan()).unwrap();
    assert_eq!(events.len(), 2);
    assert!(matches!(
        events[0],
        OrchestratorEvent::StateChanged { state: OrchestratorState::Running }
    ));
    assert!(matches!(events[1], OrchestratorEvent::PlanUpdated { .. }));
    assert_eq!(orch.get_state(), OrchestratorState::Running);

    // A second start is refused.
    assert!(orch.start(empty_plan()).is_err());
}

#[test]
fn stop_from_running_passes_through_stopping() {
    let mut orch = ProjectOrchestrator::new(1, 3);
    orch.start(empty_plan()).unwrap();
    let events = orch.stop().unwrap();
    assert_eq!(events.len(), 2);
    assert!(matches!(
        events[0],
        OrchestratorEvent::StateChanged { state: OrchestratorState::Stopping }
    ));
    assert!(matches!(
        events[1],
        OrchestratorEvent::StateChanged { state: OrchestratorState::Idle }
    ));
}

#[test]
fn pause_and_resume() {
    let mut orch = ProjectOrchestrator::new(1, 3);
    orch.start(empty_plan()).unwrap();
    let events = orch.pause().unwrap();
    assert_eq!(events.len(), 1);
    assert_eq!(orch.get_state(), OrchestratorState::Paused);
    let events = orch.resume(empty_plan()).unwrap();
    assert_eq!(events.len(), 2);
    assert_eq!(orch.get_state(), OrchestratorState::Running);
}

#[test]
fn completion_reports_unblocked_tasks_and_events() {
    let task = |id: u128, status: TaskStatus| Task {
        id,
        project_id: 1,
        title: format!("Task {}", id),
        description: None,
        status,
        parent_workspace_id: None,
        shared_task_id: None,
        position: None,
        dag_position_x: None,
        dag_position_y: None,
        created_at: id as i64,
        updated_at: id as i64,
    };
    let tasks = vec![task(1, TaskStatus::Todo), task(2, TaskStatus::Todo)];
    let deps = vec![TaskDependency {
        id: 21,
        task_id: 2,
        depends_on_task_id: 1,
        genre_id: None,
        created_by: DependencyCreator::User,
        created_at: 0,
    }];
    let plan = build_execution_plan(&tasks, &deps);
    let orch = ProjectOrchestrator::new(1, 3);
    let (unblocked, events) = orch.on_task_completed(1, plan);
    assert_eq!(unblocked, vec![2u128]);
    assert_eq!(events.len(), 2);
    assert!(matches!(events[0], OrchestratorEvent::TaskCompleted { task_id: 1 }));
}

#[test]
fn ready_to_execute_respects_parallelism() {
    let tasks = vec![
        {
            let mut t = task_for(1, TaskStatus::Todo);
            t.created_at = 1;
            t
        },
        {
            let mut t = task_for(2, TaskStatus::Todo);
            t.created_at = 2;
            t
        },
        {
            let mut t = task_for(3, TaskStatus::Todo);
            t.created_at = 3;
            t
        },
        task_for(4, TaskStatus::InProgress),
    ];
    let plan = build_execution_plan(&tasks, &Vec::new());
    let mut orch = ProjectOrchestrator::new(1, 2);
    // Not running: nothing is handed out.
    assert!(orch.get_ready_to_execute(&plan).is_empty());
    orch.start(build_execution_plan(&tasks, &Vec::new())).unwrap();
    // Two slots, one taken by the in-progress task: one ready task comes
    // back, the earliest-created first.
    let plan = build_execution_plan(&tasks, &Vec::new());
    let ready = orch.get_ready_to_execute(&plan);
    assert_eq!(ready, vec![1u128]);
}

fn task_for(id: u128, status: TaskStatus) -> Task {
    Task {
        id,
        project_id: 1,
        title: format!("Task {}", id),
        description: None,
        status,
        parent_workspace_id: None,
        shared_task_id: None,
        position: None,
        dag_position_x: None,
        dag_position_y: None,
        created_at: id as i64,
        updated_at: id as i64,
    }
}

#[test]
fn transition_validation_requires_an_existing_task() {
    let orch = ProjectOrchestrator::new(1, 3);
    let tasks = vec![task_for(1, TaskStatus::Todo)];
    match orch.validate_task_transition(9, &TaskStatus::InProgress, &tasks, &Vec::new()) {
        Err(OrchestratorError::TaskNotFound(9)) => {}
        _ => panic!("expected the missing task to be reported"),
    }
    assert!(orch
        .validate_task_transition(1, &TaskStatus::InProgress, &tasks, &Vec::new())
        .is_ok());
}
