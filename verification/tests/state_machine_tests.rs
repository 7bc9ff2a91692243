use vibe_kanban::models::TransitionValidation;
use vibe_kanban::state_machine::{
    can_start_task, is_valid_transition, status_to_string, validate_transition,
};
use vibe_kanban::task::{Task, TaskStatus};
use vibe_kanban::dependency::{DependencyCreator, TaskDependency};

fn create_test_task(id: u128, status: TaskStatus) -> Task {
    Task {
        id,
        project_id: 1,
        title: format!("Task {}", id),
        description: None,
        status,
        parent_workspace_id: None,
        shared_task_id: None,
        position: None,
        dag_position_x: None,
        dag_position_y: None,
        created_at: id as i64,
        updated_at: id as i64,
    }
}

fn create_test_dependency(task_id: u128, depends_on: u128) -> TaskDependency {
    TaskDependency {
        id: task_id * 1000 + depends_on,
        task_id,
        depends_on_task_id: depends_on,
        genre_id: None,
        created_by: DependencyCreator::User,
        created_at: 0,
    }
}

#[test]
fn test_valid_transitions() {
    assert!(is_valid_transition(&TaskStatus::Todo, &TaskStatus::InProgress));
    assert!(is_valid_transition(&TaskStatus::InProgress, &TaskStatus::Done));
    assert!(is_valid_transition(&TaskStatus::InProgress, &TaskStatus::InReview));
    assert!(is_valid_transition(&TaskStatus::InReview, &TaskStatus::Done));
    assert!(is_valid_transition(&TaskStatus::InReview, &TaskStatus::InProgress));
}

#[test]
fn test_invalid_transitions() {
    // Can't skip from Todo directly to Done
    assert!(!is_valid_transition(&TaskStatus::Todo, &TaskStatus::Done));
    // Can't skip from Todo directly to InReview
    assert!(!is_valid_transition(&TaskStatus::Todo, &TaskStatus::InReview));
}

#[test]
fn test_can_start_task_no_dependencies() {
    let task = create_test_task(1, TaskStatus::Todo);
    assert!(can_start_task(&task, &vec![task.clone()], &Vec::new()));
}

#[test]
fn test_can_start_task_with_incomplete_dependency() {
    let dep_task = create_test_task(1, TaskStatus::Todo);
    let task = create_test_task(2, TaskStatus::Todo);
    let deps = vec![create_test_dependency(2, 1)];
    assert!(!can_start_task(&task, &vec![task.clone(), dep_task.clone()], &deps));
}

#[test]
fn test_can_start_task_with_completed_dependency() {
    let dep_task = create_test_task(1, TaskStatus::Done);
    let task = create_test_task(2, TaskStatus::Todo);
    let deps = vec![create_test_dependency(2, 1)];
    assert!(can_start_task(&task, &vec![task.clone(), dep_task.clone()], &deps));
}

#[test]
fn test_validate_transition_with_blocking_dependency() {
    let dep_task = create_test_task(1, TaskStatus::Todo);
    let task = create_test_task(2, TaskStatus::Todo);
    let deps = vec![create_test_dependency(2, 1)];
    let all_tasks = vec![task.clone(), dep_task.clone()];
    let result = validate_transition(&task, &TaskStatus::InProgress, &all_tasks, &deps);
    assert!(matches!(result, TransitionValidation::RequiresConfirmation { .. }));
}

#[test]
fn force_start_requires_confirmation_names_blocker() {
    // Task X depends on Y, both to do: starting X asks for confirmation
    // and names Y; the pair Todo -> InProgress itself stays legal.
    let y = create_test_task(1, TaskStatus::Todo);
    let x = create_test_task(2, TaskStatus::Todo);
    let deps = vec![create_test_dependency(2, 1)];
    let all = vec![x.clone(), y.clone()];
    match validate_transition(&x, &TaskStatus::InProgress, &all, &deps) {
        TransitionValidation::RequiresConfirmation { blocking_tasks, reason } => {
            assert_eq!(blocking_tasks, vec![1u128]);
            assert!(reason.contains("1 incomplete dependencies"));
        }
        _ => panic!("expected confirmation"),
    }
    assert!(is_valid_transition(&TaskStatus::Todo, &TaskStatus::InProgress));
}

#[test]
fn invalid_pair_reports_reason() {
    let task = create_test_task(1, TaskStatus::Todo);
    let all = vec![task.clone()];
    match validate_transition(&task, &TaskStatus::Done, &all, &Vec::new()) {
        TransitionValidation::Invalid { reason } => {
            assert_eq!(reason, "Cannot transition from todo to done");
        }
        _ => panic!("expected invalid"),
    }
}

#[test]
fn status_names() {
    assert_eq!(status_to_string(&TaskStatus::Todo), "todo");
    assert_eq!(status_to_string(&TaskStatus::InProgress), "in_progress");
    assert_eq!(status_to_string(&TaskStatus::InReview), "in_review");
    assert_eq!(status_to_string(&TaskStatus::Done), "done");
    assert_eq!(status_to_string(&TaskStatus::Cancelled), "cancelled");
}
