use vibe_kanban::models::TaskReadiness;
use vibe_kanban::scheduler::{build_execution_plan, get_tasks_unblocked_by_completion};
use vibe_kanban::task::{Task, TaskStatus};
use vibe_kanban::dependency::{DependencyCreator, TaskDependency};
use vibe_kanban::layout::recalculate_dag_layout;

fn create_test_task(id: u128, status: TaskStatus) -> Task {
    Task {
        id,
        project_id: 1,
        title: format!("Task {}", id),
        description: None,
        status,
        parent_workspace_id: None,
        shared_task_id: None,
        position: None,
        dag_position_x: None,
        dag_position_y: None,
        created_at: id as i64,
        updated_at: id as i64,
    }
}

fn create_test_dependency(task_id: u128, depends_on: u128) -> TaskDependency {
    TaskDependency {
        id: task_id * 1000 + depends_on,
        task_id,
        depends_on_task_id: depends_on,
        genre_id: None,
        created_by: DependencyCreator::User,
        created_at: 0,
    }
}

#[test]
fn test_no_dependencies() {
    let tasks = vec![
        create_test_task(1, TaskStatus::Todo),
        create_test_task(2, TaskStatus::Todo),
    ];
    let plan = build_execution_plan(&tasks, &Vec::new());
    assert_eq!(plan.levels.len(), 1);
    assert_eq!(plan.levels[0].tasks.len(), 2);
    assert_eq!(plan.ready_tasks, 2);
    assert_eq!(plan.blocked_tasks, 0);
}

#[test]
fn test_linear_dependencies() {
    let tasks = vec![
        create_test_task(1, TaskStatus::Todo),
        create_test_task(2, TaskStatus::Todo),
        create_test_task(3, TaskStatus::Todo),
    ];
    // task 3 -> task 2 -> task 1 (task 1 must complete first)
    let deps = vec![create_test_dependency(2, 1), create_test_dependency(3, 2)];
    let plan = build_execution_plan(&tasks, &deps);
    assert_eq!(plan.levels.len(), 3);
    assert_eq!(plan.ready_tasks, 1);
    assert_eq!(plan.blocked_tasks, 2);
}

#[test]
fn test_completed_dependency_unblocks() {
    let tasks = vec![
        create_test_task(1, TaskStatus::Done),
        create_test_task(2, TaskStatus::Todo),
    ];
    let deps = vec![create_test_dependency(2, 1)];
    let plan = build_execution_plan(&tasks, &deps);
    assert_eq!(plan.ready_tasks, 1);
    assert_eq!(plan.completed_tasks, 1);
}

#[test]
fn test_parallel_tasks_same_level() {
    let tasks = vec![
        create_test_task(1, TaskStatus::Done),
        create_test_task(2, TaskStatus::Todo),
        create_test_task(3, TaskStatus::Todo),
    ];
    let deps = vec![create_test_dependency(2, 1), create_test_dependency(3, 1)];
    let plan = build_execution_plan(&tasks, &deps);
    assert_eq!(plan.ready_tasks, 2);
}

#[test]
fn linear_chain_readiness_and_unblocking() {
    // Tasks A, B, C all to do; edges B -> A, C -> B.
    let tasks = vec![
        create_test_task(1, TaskStatus::Todo),
        create_test_task(2, TaskStatus::Todo),
        create_test_task(3, TaskStatus::Todo),
    ];
    let deps = vec![create_test_dependency(2, 1), create_test_dependency(3, 2)];
    let plan = build_execution_plan(&tasks, &deps);
    assert_eq!(plan.levels.len(), 3);
    assert_eq!(plan.ready_tasks, 1);
    assert_eq!(plan.blocked_tasks, 2);
    // B's only blocker is A.
    assert_eq!(get_tasks_unblocked_by_completion(&plan, 1), vec![2u128]);

    // Set A done and rebuild.
    let tasks2 = vec![
        create_test_task(1, TaskStatus::Done),
        create_test_task(2, TaskStatus::Todo),
        create_test_task(3, TaskStatus::Todo),
    ];
    let plan2 = build_execution_plan(&tasks2, &deps);
    assert_eq!(plan2.ready_tasks, 1);
    assert_eq!(plan2.blocked_tasks, 1);
    assert_eq!(plan2.completed_tasks, 1);
}

#[test]
fn diamond_levels() {
    // A done; B -> A, C -> A, D -> B, D -> C.
    let tasks = vec![
        create_test_task(1, TaskStatus::Done),
        create_test_task(2, TaskStatus::Todo),
        create_test_task(3, TaskStatus::Todo),
        create_test_task(4, TaskStatus::Todo),
    ];
    let deps = vec![
        create_test_dependency(2, 1),
        create_test_dependency(3, 1),
        create_test_dependency(4, 2),
        create_test_dependency(4, 3),
    ];
    let plan = build_execution_plan(&tasks, &deps);
    assert_eq!(plan.levels.len(), 3);
    assert_eq!(plan.levels[0].tasks.len(), 1);
    assert_eq!(plan.levels[0].tasks[0].task_id, 1);
    assert_eq!(plan.levels[1].tasks.len(), 2);
    assert_eq!(plan.levels[2].tasks.len(), 1);
    assert_eq!(plan.levels[2].tasks[0].task_id, 4);
    assert_eq!(plan.ready_tasks, 2);
    assert_eq!(plan.blocked_tasks, 1);
}

#[test]
fn in_review_counted_by_status() {
    let tasks = vec![
        create_test_task(1, TaskStatus::InReview),
        create_test_task(2, TaskStatus::InProgress),
    ];
    let plan = build_execution_plan(&tasks, &Vec::new());
    // An in-review task has readiness in-progress but is counted in review
    // by its own status.
    assert_eq!(plan.in_progress_tasks, 2);
    assert_eq!(plan.in_review_tasks, 1);
    assert!(matches!(
        plan.levels[0].tasks[0].readiness,
        TaskReadiness::InProgress
    ));
}

#[test]
fn blocked_lists_unfinished_dependencies() {
    let tasks = vec![
        create_test_task(1, TaskStatus::Todo),
        create_test_task(2, TaskStatus::Done),
        create_test_task(3, TaskStatus::Todo),
    ];
    let deps = vec![create_test_dependency(3, 1), create_test_dependency(3, 2)];
    let plan = build_execution_plan(&tasks, &deps);
    let entry = plan
        .levels
        .iter()
        .flat_map(|l| l.tasks.iter())
        .find(|e| e.task_id == 3)
        .unwrap();
    match &entry.readiness {
        TaskReadiness::Blocked { blocking_task_ids } => {
            assert_eq!(blocking_task_ids, &vec![1u128]);
        }
        other => panic!("expected blocked, got {:?}", other),
    }
}

#[test]
fn layout_places_changed_tasks_only() {
    let mut a = create_test_task(1, TaskStatus::Todo);
    a.dag_position_x = Some(0);
    a.dag_position_y = Some(0);
    let b = create_test_task(2, TaskStatus::Todo);
    let isolated = create_test_task(3, TaskStatus::Todo);
    let deps = vec![create_test_dependency(2, 1)];
    let updates = recalculate_dag_layout(&vec![a, b, isolated], &deps);
    // Task 1 already sits at column 0, row 0; task 2 moves to column 1;
    // the isolated task is never written.
    assert_eq!(updates.len(), 1);
    assert_eq!(updates[0].task_id, 2);
    assert_eq!(updates[0].x, 340);
    assert_eq!(updates[0].y, 0);
}

#[test]
fn layout_writes_nothing_without_edges() {
    let tasks = vec![create_test_task(1, TaskStatus::Todo)];
    assert!(recalculate_dag_layout(&tasks, &Vec::new()).is_empty());
}
