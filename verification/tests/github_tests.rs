use vibe_kanban::github::{
    GitHubGraphQLError, GitHubIssue, GitHubIssueMapping, GitHubProjectItem, StatusMapping,
    SyncDirection, SyncItemAction, sync_item_decision, tally_sync_actions,
};
use vibe_kanban::task::TaskStatus;
use vibe_kanban::dependency::DependencyCreator;
use std::str::FromStr;
use vibe_kanban::github::{ProjectFieldValue, issue_property_upserts, sync_task_push};
use vibe_kanban::task::Task;

#[test]
fn test_dependency_creator_display() {
    assert_eq!(DependencyCreator::User.as_str(), "user");
    assert_eq!(DependencyCreator::Ai.as_str(), "ai");
}

#[test]
fn test_dependency_creator_from_str() {
    assert_eq!(DependencyCreator::from_str("user").unwrap(), DependencyCreator::User);
    assert_eq!(DependencyCreator::from_str("ai").unwrap(), DependencyCreator::Ai);
}

#[test]
fn test_graphql_error_display() {
    let error = GitHubGraphQLError::QueryFailed("test error".to_string());
    assert!(error.message().contains("test error"));
}

#[test]
fn test_status_mapping_github_to_vibe() {
    assert_eq!(StatusMapping::github_to_vibe("OPEN", None), TaskStatus::Todo);
    assert_eq!(StatusMapping::github_to_vibe("CLOSED", None), TaskStatus::Done);
    assert_eq!(
        StatusMapping::github_to_vibe("OPEN", Some("In Progress")),
        TaskStatus::InProgress
    );
    assert_eq!(
        StatusMapping::github_to_vibe("OPEN", Some("In Review")),
        TaskStatus::InReview
    );
}

#[test]
fn test_status_mapping_vibe_to_github() {
    assert_eq!(StatusMapping::vibe_to_github_state(&TaskStatus::Todo), "OPEN");
    assert_eq!(StatusMapping::vibe_to_github_state(&TaskStatus::InProgress), "OPEN");
    assert_eq!(StatusMapping::vibe_to_github_state(&TaskStatus::Done), "CLOSED");
    assert_eq!(StatusMapping::vibe_to_github_state(&TaskStatus::Cancelled), "CLOSED");
}

#[test]
fn default_mappings_cover_all_statuses() {
    let defaults = StatusMapping::defaults();
    assert_eq!(defaults.len(), 5);
    assert_eq!(defaults[0].github_project_status, "Todo");
    assert_eq!(defaults[3].github_issue_state, "CLOSED");
}

fn sample_issue() -> GitHubIssue {
    GitHubIssue {
        id: "I_1".to_string(),
        number: 42,
        title: "X".to_string(),
        body: Some("body".to_string()),
        state: "CLOSED".to_string(),
        url: "https://example.invalid/i/42".to_string(),
        created_at: 10,
        updated_at: 20,
        closed_at: None,
        author_login: None,
        assignees: Vec::new(),
        labels: Vec::new(),
        milestone: None,
    }
}

fn sample_mapping(direction: SyncDirection) -> GitHubIssueMapping {
    GitHubIssueMapping {
        id: 7,
        task_id: 3,
        github_project_link_id: 9,
        github_issue_number: 42,
        github_issue_id: "I_1".to_string(),
        github_issue_url: "https://example.invalid/i/42".to_string(),
        sync_direction: direction,
        last_synced_at: None,
        github_updated_at: None,
        vibe_updated_at: None,
        created_at: 0,
        updated_at: 0,
    }
}

#[test]
fn mapped_issue_updates_text_and_preserves_status() {
    // A mapped remote issue with new title "X" and a closed remote state:
    // the decision rewrites the text and records the remote update time,
    // and carries no status at all, so the local status stays what it was.
    let item = GitHubProjectItem {
        id: "ITEM_1".to_string(),
        issue: Some(sample_issue()),
        field_values: Vec::new(),
    };
    match sync_item_decision(&item, &Some(sample_mapping(SyncDirection::Bidirectional))) {
        SyncItemAction::UpdateTask { task_id, title, github_updated_at, .. } => {
            assert_eq!(task_id, 3);
            assert_eq!(title, "X");
            assert_eq!(github_updated_at, 20);
        }
        _ => panic!("expected an update"),
    }
}

#[test]
fn outward_only_mapping_is_skipped() {
    let item = GitHubProjectItem {
        id: "ITEM_1".to_string(),
        issue: Some(sample_issue()),
        field_values: Vec::new(),
    };
    assert!(matches!(
        sync_item_decision(&item, &Some(sample_mapping(SyncDirection::VibeToGithub))),
        SyncItemAction::Skip
    ));
}

#[test]
fn draft_item_is_skipped() {
    let item = GitHubProjectItem {
        id: "ITEM_1".to_string(),
        issue: None,
        field_values: Vec::new(),
    };
    assert!(matches!(sync_item_decision(&item, &None), SyncItemAction::Skip));
}

#[test]
fn unmapped_issue_creates_task() {
    let item = GitHubProjectItem {
        id: "ITEM_1".to_string(),
        issue: Some(sample_issue()),
        field_values: Vec::new(),
    };
    match sync_item_decision(&item, &None) {
        SyncItemAction::CreateTask { title, status, issue_number, sync_direction, .. } => {
            assert_eq!(title, "X");
            assert_eq!(issue_number, 42);
            // A created task always starts still to do, bound both ways,
            // even though the remote issue is closed.
            assert_eq!(status, TaskStatus::Todo);
            assert_eq!(sync_direction, SyncDirection::Bidirectional);
        }
        _ => panic!("expected a creation"),
    }
}

#[test]
fn tally_counts_creations_and_updates() {
    let actions = vec![
        SyncItemAction::Skip,
        SyncItemAction::CreateTask {
            title: "a".to_string(),
            body: None,
            status: TaskStatus::Todo,
            issue_number: 1,
            issue_id: "I_1".to_string(),
            issue_url: "u".to_string(),
            sync_direction: SyncDirection::Bidirectional,
        },
        SyncItemAction::Skip,
    ];
    let result = tally_sync_actions(&actions);
    assert_eq!(result.items_synced, 1);
    assert_eq!(result.items_created, 1);
    assert_eq!(result.items_updated, 0);
    assert_eq!(result.items_skipped, 2);
    assert!(result.errors.is_empty());
}

#[test]
fn property_upserts_cover_issue_and_fields() {
    let mut issue = sample_issue();
    issue.number = 42;
    let item = GitHubProjectItem {
        id: "ITEM_1".to_string(),
        issue: Some(issue.clone()),
        field_values: vec![ProjectFieldValue {
            field_name: "Status Field".to_string(),
            value: "Done".to_string(),
        }],
    };
    let ups = issue_property_upserts(7, &issue, &item, Some("[]".to_string()), None, None);
    assert_eq!(ups.len(), 4);
    assert_eq!(ups[0].name, "github_issue_url");
    assert_eq!(ups[0].value, issue.url);
    assert_eq!(ups[1].name, "github_issue_number");
    assert_eq!(ups[1].value, "42");
    assert_eq!(ups[2].name, "labels");
    assert_eq!(ups[2].value, "[]");
    assert_eq!(ups[3].name, "github_status_field");
    assert_eq!(ups[3].value, "Done");
    assert!(ups.iter().all(|u| u.task_id == 7));
}

#[test]
fn push_payload_follows_direction_and_status() {
    let task = Task {
        id: 3,
        project_id: 1,
        title: "t".to_string(),
        description: Some("d".to_string()),
        status: TaskStatus::Done,
        parent_workspace_id: None,
        shared_task_id: None,
        position: None,
        dag_position_x: None,
        dag_position_y: None,
        created_at: 0,
        updated_at: 0,
    };
    assert!(sync_task_push(&task, &sample_mapping(SyncDirection::GithubToVibe)).is_none());
    let p = sync_task_push(&task, &sample_mapping(SyncDirection::Bidirectional)).unwrap();
    assert_eq!(p.state, "CLOSED");
    assert_eq!(p.title, "t");
    assert_eq!(p.body.as_deref(), Some("d"));
}
