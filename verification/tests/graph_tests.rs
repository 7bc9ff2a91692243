use vibe_kanban::dependency::{CreateTaskDependency, DependencyCreator, TaskDependency};
use vibe_kanban::graph::{DependencyError, dependency_exists, reaches, validate_create_dependency, would_create_cycle};
use vibe_kanban::task::{Task, TaskStatus};

fn task_in(id: u128, project_id: u128) -> Task {
    Task {
        id,
        project_id,
        title: format!("Task {}", id),
        description: None,
        status: TaskStatus::Todo,
        parent_workspace_id: None,
        shared_task_id: None,
        position: None,
        dag_position_x: None,
        dag_position_y: None,
        created_at: id as i64,
        updated_at: id as i64,
    }
}

fn edge(task_id: u128, depends_on: u128) -> TaskDependency {
    TaskDependency {
        id: task_id * 1000 + depends_on,
        task_id,
        depends_on_task_id: depends_on,
        genre_id: None,
        created_by: DependencyCreator::User,
        created_at: 0,
    }
}

fn payload(task_id: u128, depends_on: u128) -> CreateTaskDependency {
    CreateTaskDependency { task_id, depends_on_task_id: depends_on, created_by: None, genre_id: None }
}

#[test]
fn self_dependency_is_refused() {
    let tasks = vec![task_in(1, 9)];
    let r = validate_create_dependency(9, &payload(1, 1), &tasks, &Vec::new(), false);
    assert_eq!(r, Err(DependencyError::SelfDependency));
}

#[test]
fn missing_tasks_are_refused() {
    let tasks = vec![task_in(1, 9)];
    assert_eq!(
        validate_create_dependency(9, &payload(2, 1), &tasks, &Vec::new(), false),
        Err(DependencyError::TaskNotFound)
    );
    assert_eq!(
        validate_create_dependency(9, &payload(1, 2), &tasks, &Vec::new(), false),
        Err(DependencyError::DependsOnTaskNotFound)
    );
}

#[test]
fn cross_project_edges_are_refused() {
    let tasks = vec![task_in(1, 9), task_in(2, 8)];
    assert_eq!(
        validate_create_dependency(9, &payload(2, 1), &tasks, &Vec::new(), false),
        Err(DependencyError::CrossProjectTask)
    );
    assert_eq!(
        validate_create_dependency(9, &payload(1, 2), &tasks, &Vec::new(), false),
        Err(DependencyError::CrossProjectDependsOnTask)
    );
}

#[test]
fn duplicate_edges_are_refused() {
    let tasks = vec![task_in(1, 9), task_in(2, 9)];
    let deps = vec![edge(2, 1)];
    assert_eq!(
        validate_create_dependency(9, &payload(2, 1), &tasks, &deps, false),
        Err(DependencyError::DuplicateDependency)
    );
    assert!(dependency_exists(&deps, 2, 1));
    assert!(!dependency_exists(&deps, 1, 2));
}

#[test]
fn cycle_rejection_leaves_state_unchanged() {
    // Edges B -> A and C -> B exist; creating A -> C closes a cycle and is
    // refused, and the edge list is untouched because nothing was written.
    let tasks = vec![task_in(1, 9), task_in(2, 9), task_in(3, 9)];
    let deps = vec![edge(2, 1), edge(3, 2)];
    let r = validate_create_dependency(9, &payload(1, 3), &tasks, &deps, true);
    assert_eq!(r, Err(DependencyError::CycleDetected));
    assert_eq!(deps.len(), 2);
}

#[test]
fn valid_edge_is_accepted() {
    let tasks = vec![task_in(1, 9), task_in(2, 9)];
    let r = validate_create_dependency(9, &payload(2, 1), &tasks, &Vec::new(), false);
    assert_eq!(r, Ok(()));
}

#[test]
fn cycle_detection_follows_reachability() {
    // Edges B -> A and C -> B: A is reachable from C, so the edge A -> C
    // would close a cycle; the reverse directions stay acyclic.
    let deps = vec![edge(2, 1), edge(3, 2)];
    assert!(reaches(&deps, 3, 1));
    assert!(reaches(&deps, 2, 1));
    assert!(!reaches(&deps, 1, 3));
    assert!(would_create_cycle(&deps, 1, 3));
    assert!(!would_create_cycle(&deps, 3, 1));
    // A direct two-cycle is also caught.
    assert!(would_create_cycle(&deps, 1, 2));
    // A self-loop is found only through an existing cycle.
    assert!(!would_create_cycle(&deps, 2, 2));
}
