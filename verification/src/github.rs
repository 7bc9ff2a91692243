//! The remote issue-tracker model: projects, issues, project items and the
//! mapping between remote statuses and local task statuses.
//!
//! Remote timestamps are microseconds since the epoch; the process edge
//! converts from its own time types when it fetches items.

use vstd::prelude::*;

verus! {

use vstd::string::StringExecFns;
use crate::task::{Id, TaskStatus};
use crate::strings::{contains_ci, eq_ci, str_contains_ci, str_eq_ci};

/// An error from the low-level GraphQL transport.
#[derive(Clone)]
pub enum GitHubGraphQLError {
    CliNotAvailable,
    AuthFailed(String),
    QueryFailed(String),
    ParseError(String),
    ApiErrors(Vec<GraphQLError>),
}

/// One error object of a GraphQL response.
#[derive(Clone)]
pub struct GraphQLError {
    pub message: String,
    pub error_type: Option<String>,
    pub path: Option<Vec<String>>,
}

impl GitHubGraphQLError {
    /// A readable description of the error.
    pub fn message(&self) -> (r: String)
        ensures
            self matches GitHubGraphQLError::QueryFailed(m) ==> r@ == "GraphQL query failed: "@
                + m@,
            self matches GitHubGraphQLError::AuthFailed(m) ==> r@
                == "GitHub CLI authentication failed: "@ + m@,
            self matches GitHubGraphQLError::ParseError(m) ==> r@
                == "Failed to parse GraphQL response: "@ + m@,
            self is CliNotAvailable ==> r@ == "GitHub CLI (`gh`) executable not found"@,
            self is ApiErrors ==> r@ == "GraphQL API returned errors"@,
    {
        let mut out = String::new();
        match self {
            GitHubGraphQLError::CliNotAvailable => {
                out.append("GitHub CLI (`gh`) executable not found");
            },
            GitHubGraphQLError::AuthFailed(m) => {
                out.append("GitHub CLI authentication failed: ");
                out.append(m.as_str());
            },
            GitHubGraphQLError::QueryFailed(m) => {
                out.append("GraphQL query failed: ");
                out.append(m.as_str());
            },
            GitHubGraphQLError::ParseError(m) => {
                out.append("Failed to parse GraphQL response: ");
                out.append(m.as_str());
            },
            GitHubGraphQLError::ApiErrors(_) => {
                out.append("GraphQL API returned errors");
            },
        }
        out
    }
}

/// An error from the remote project service.
#[derive(Clone)]
pub enum GitHubProjectsError {
    GraphQL(GitHubGraphQLError),
    ProjectNotFound(String),
    IssueNotFound(String),
    FieldNotFound(String),
}

/// A remote project board.
#[derive(Clone)]
pub struct GitHubProject {
    pub id: String,
    pub title: String,
    pub number: i64,
    pub url: String,
    pub closed: bool,
    pub short_description: Option<String>,
    pub public: bool,
    pub owner_login: String,
}

/// A label attached to a remote issue.
#[derive(Clone)]
pub struct GitHubLabel {
    pub name: String,
    pub color: String,
}

/// A milestone attached to a remote issue.
#[derive(Clone)]
pub struct GitHubMilestone {
    pub id: String,
    pub title: String,
    pub number: i64,
}

/// A remote issue; timestamps are microseconds since the epoch.
#[derive(Clone)]
pub struct GitHubIssue {
    pub id: String,
    pub number: i64,
    pub title: String,
    pub body: Option<String>,
    pub state: String,
    pub url: String,
    pub created_at: i64,
    pub updated_at: i64,
    pub closed_at: Option<i64>,
    pub author_login: Option<String>,
    pub assignees: Vec<String>,
    pub labels: Vec<GitHubLabel>,
    pub milestone: Option<GitHubMilestone>,
}

/// One field value on a project item.
#[derive(Clone)]
pub struct ProjectFieldValue {
    pub field_name: String,
    pub value: String,
}

/// A project item: an issue with its project field values, or a draft
/// without an issue.
#[derive(Clone)]
pub struct GitHubProjectItem {
    pub id: String,
    pub issue: Option<GitHubIssue>,
    pub field_values: Vec<ProjectFieldValue>,
}

/// A project field definition.
#[derive(Clone)]
pub struct ProjectField {
    pub id: String,
    pub name: String,
    pub data_type: String,
    pub options: Option<Vec<ProjectFieldOption>>,
}

/// One option of a single-select project field.
#[derive(Clone)]
pub struct ProjectFieldOption {
    pub id: String,
    pub name: String,
}

/// Status mapping between local task statuses and the remote tracker.
#[derive(Clone)]
pub struct StatusMapping {
    pub vibe_status: TaskStatus,
    pub github_project_status: String,
    pub github_issue_state: String,
}

/// The local status that a remote state and optional project status map to:
/// a project status naming progress, review, completion or cancellation wins;
/// otherwise a closed issue is done and an open one is still to do. Letters
/// are compared without regard to ASCII case.
pub open spec fn spec_github_to_vibe(
    issue_state: Seq<char>,
    project_status: Option<Seq<char>>,
) -> TaskStatus {
    match project_status {
        Some(st) => if contains_ci(st, "progress"@) {
            TaskStatus::InProgress
        } else if contains_ci(st, "review"@) {
            TaskStatus::InReview
        } else if contains_ci(st, "done"@) || contains_ci(st, "complete"@) {
            TaskStatus::Done
        } else if contains_ci(st, "cancel"@) {
            TaskStatus::Cancelled
        } else if eq_ci(issue_state, "closed"@) {
            TaskStatus::Done
        } else {
            TaskStatus::Todo
        },
        None => if eq_ci(issue_state, "closed"@) {
            TaskStatus::Done
        } else {
            TaskStatus::Todo
        },
    }
}

impl StatusMapping {
    /// The default status mappings, one per local status.
    pub fn defaults() -> (r: Vec<StatusMapping>)
        ensures
            r@.len() == 5,
            r@[0].vibe_status == TaskStatus::Todo && r@[0].github_project_status@ == "Todo"@
                && r@[0].github_issue_state@ == "OPEN"@,
            r@[1].vibe_status == TaskStatus::InProgress && r@[1].github_project_status@
                == "In Progress"@ && r@[1].github_issue_state@ == "OPEN"@,
            r@[2].vibe_status == TaskStatus::InReview && r@[2].github_project_status@
                == "In Review"@ && r@[2].github_issue_state@ == "OPEN"@,
            r@[3].vibe_status == TaskStatus::Done && r@[3].github_project_status@ == "Done"@
                && r@[3].github_issue_state@ == "CLOSED"@,
            r@[4].vibe_status == TaskStatus::Cancelled && r@[4].github_project_status@
                == "Cancelled"@ && r@[4].github_issue_state@ == "CLOSED"@,
    {
        let mut out: Vec<StatusMapping> = Vec::new();
        let mut s = String::new();
        s.append("Todo");
        let mut t = String::new();
        t.append("OPEN");
        out.push(StatusMapping { vibe_status: TaskStatus::Todo, github_project_status: s, github_issue_state: t });
        let mut s = String::new();
        s.append("In Progress");
        let mut t = String::new();
        t.append("OPEN");
        out.push(StatusMapping { vibe_status: TaskStatus::InProgress, github_project_status: s, github_issue_state: t });
        let mut s = String::new();
        s.append("In Review");
        let mut t = String::new();
        t.append("OPEN");
        out.push(StatusMapping { vibe_status: TaskStatus::InReview, github_project_status: s, github_issue_state: t });
        let mut s = String::new();
        s.append("Done");
        let mut t = String::new();
        t.append("CLOSED");
        out.push(StatusMapping { vibe_status: TaskStatus::Done, github_project_status: s, github_issue_state: t });
        let mut s = String::new();
        s.append("Cancelled");
        let mut t = String::new();
        t.append("CLOSED");
        out.push(StatusMapping { vibe_status: TaskStatus::Cancelled, github_project_status: s, github_issue_state: t });
        out
    }

    /// Map a remote issue state and optional project status to a local
    /// status.
    pub fn github_to_vibe(issue_state: &str, project_status: Option<&str>) -> (r: TaskStatus)
        ensures
            r == spec_github_to_vibe(
                issue_state@,
                match project_status {
                    Some(s) => Some(s@),
                    None => None,
                },
            ),
    {
        match project_status {
            Some(status) => {
                if str_contains_ci(status, "progress") {
                    return TaskStatus::InProgress;
                }
                if str_contains_ci(status, "review") {
                    return TaskStatus::InReview;
                }
                if str_contains_ci(status, "done") || str_contains_ci(status, "complete") {
                    return TaskStatus::Done;
                }
                if str_contains_ci(status, "cancel") {
                    return TaskStatus::Cancelled;
                }
            },
            None => {},
        }
        if str_eq_ci(issue_state, "closed") {
            TaskStatus::Done
        } else {
            TaskStatus::Todo
        }
    }

    /// The remote issue state written for a local status: finished and
    /// cancelled tasks close the issue, everything else keeps it open.
    pub fn vibe_to_github_state(status: &TaskStatus) -> (r: &'static str)
        ensures
            (*status == TaskStatus::Done || *status == TaskStatus::Cancelled) ==> r@ == "CLOSED"@,
            (*status != TaskStatus::Done && *status != TaskStatus::Cancelled) ==> r@ == "OPEN"@,
    {
        match status {
            TaskStatus::Done => "CLOSED",
            TaskStatus::Cancelled => "CLOSED",
            _ => "OPEN",
        }
    }
}

/// Result counters of one synchronization run.
#[derive(Clone)]
pub struct SyncResult {
    pub items_synced: u32,
    pub items_created: u32,
    pub items_updated: u32,
    pub items_skipped: u32,
    pub errors: Vec<String>,
}

impl Default for SyncResult {
    /// A sync result with every counter at zero and no errors.
    fn default() -> (r: Self)
        ensures
            r.items_synced == 0 && r.items_created == 0 && r.items_updated == 0
                && r.items_skipped == 0 && r.errors@.len() == 0,
    {
        SyncResult {
            items_synced: 0,
            items_created: 0,
            items_updated: 0,
            items_skipped: 0,
            errors: Vec::new(),
        }
    }
}

/// Which way changes flow between a local task and its remote issue.
#[derive(Clone, Copy, PartialEq, Eq, Structural, Debug)]
pub enum SyncDirection {
    Bidirectional,
    GithubToVibe,
    VibeToGithub,
}

/// A stored binding between a local task and a remote issue.
#[derive(Clone)]
pub struct GitHubIssueMapping {
    pub id: Id,
    pub task_id: Id,
    pub github_project_link_id: Id,
    pub github_issue_number: i64,
    pub github_issue_id: String,
    pub github_issue_url: String,
    pub sync_direction: SyncDirection,
    pub last_synced_at: Option<i64>,
    pub github_updated_at: Option<i64>,
    pub vibe_updated_at: Option<i64>,
    pub created_at: i64,
    pub updated_at: i64,
}

/// A stored link between a local project and a remote project board.
#[derive(Clone)]
pub struct GitHubProjectLink {
    pub id: Id,
    pub project_id: Id,
    pub github_project_id: String,
    pub github_owner: String,
    pub github_repo: Option<String>,
    pub github_project_number: Option<i64>,
    pub sync_enabled: bool,
    pub last_sync_at: Option<i64>,
    pub created_at: i64,
    pub updated_at: i64,
}

/// Payload for updating a link's sync flag.
#[derive(Clone)]
pub struct UpdateGitHubProjectLink {
    pub sync_enabled: Option<bool>,
}

/// Payload for creating a project link.
#[derive(Clone)]
pub struct CreateGitHubLinkRequest {
    pub github_project_id: String,
    pub github_owner: String,
    pub github_repo: Option<String>,
    pub github_project_number: Option<i64>,
}

/// The availability report of the remote tracker integration.
#[derive(Clone)]
pub struct GitHubStatusResponse {
    pub available: bool,
    pub authenticated: bool,
    pub user_login: Option<String>,
    pub error: Option<String>,
}

/// Where a task property came from.
#[derive(Clone, Copy, PartialEq, Eq, Structural, Debug)]
pub enum PropertySource {
    Vibe,
    Github,
}

/// A stored task property, keyed by task and name.
#[derive(Clone)]
pub struct TaskProperty {
    pub id: Id,
    pub task_id: Id,
    pub property_name: String,
    pub property_value: String,
    pub source: PropertySource,
    pub created_at: i64,
    pub updated_at: i64,
}

/// Payload for upserting a task property.
#[derive(Clone)]
pub struct CreateTaskProperty {
    pub task_id: Id,
    pub property_name: String,
    pub property_value: String,
    pub source: Option<PropertySource>,
}

/// What the synchronizer decides to do with one fetched project item.
pub enum SyncItemAction {
    /// The item is a draft without an issue, or its mapping only pushes
    /// changes outward: nothing is written.
    Skip,
    /// The issue is already mapped to the task: rewrite its title and
    /// description and record the remote update time; the local status is
    /// never touched.
    UpdateTask { task_id: Id, mapping_id: Id, title: String, body: Option<String>, github_updated_at: i64 },
    /// The issue is new: create a task that starts still to do — the
    /// remote status is stored only as a property, never applied here —
    /// and bind it both ways.
    CreateTask {
        title: String,
        body: Option<String>,
        status: TaskStatus,
        issue_number: i64,
        issue_id: String,
        issue_url: String,
        sync_direction: SyncDirection,
    },
}

/// The decision for one fetched project item is correct: a draft item or
/// an outward-only mapping is skipped; a mapped issue updates the task's
/// text only (never its status); an unmapped issue creates a new task.
pub open spec fn spec_sync_item_ok(
    item: GitHubProjectItem,
    mapping: Option<GitHubIssueMapping>,
    r: SyncItemAction,
) -> bool {
    match item.issue {
        None => r is Skip,
        Some(issue) => match mapping {
            Some(m) => if m.sync_direction == SyncDirection::VibeToGithub {
                r is Skip
            } else {
                match r {
                    SyncItemAction::UpdateTask {
                        task_id,
                        mapping_id,
                        title,
                        body,
                        github_updated_at,
                    } => task_id == m.task_id && mapping_id == m.id && title@ == issue.title@ && (
                    match (body, issue.body) {
                        (Some(b), Some(ib)) => b@ == ib@,
                        (None, None) => true,
                        _ => false,
                    }) && github_updated_at == issue.updated_at,
                    _ => false,
                }
            },
            None => match r {
                SyncItemAction::CreateTask {
                    title,
                    body,
                    status,
                    issue_number,
                    issue_id,
                    issue_url,
                    sync_direction,
                } => {
                    title@ == issue.title@ && (match (body, issue.body) {
                        (Some(b), Some(ib)) => b@ == ib@,
                        (None, None) => true,
                        _ => false,
                    }) && status == TaskStatus::Todo && issue_number == issue.number && issue_id@
                        == issue.id@ && issue_url@ == issue.url@ && sync_direction
                        == SyncDirection::Bidirectional
                },
                _ => false,
            },
        },
    }
}

/// Decide what to do with one fetched project item, given the mapping that
/// was looked up for its issue number. A draft item or an outward-only
/// mapping is skipped; a mapped issue updates the task's text only; an
/// unmapped issue creates a new task that starts as still to do.
pub fn sync_item_decision(item: &GitHubProjectItem, mapping: &Option<GitHubIssueMapping>) -> (r:
    SyncItemAction)
    ensures
        spec_sync_item_ok(*item, *mapping, r),
{
    let issue = match &item.issue {
        Some(i) => i,
        None => {
            return SyncItemAction::Skip;
        },
    };
    match mapping {
        Some(m) => {
            if matches!(m.sync_direction, SyncDirection::VibeToGithub) {
                return SyncItemAction::Skip;
            }
            let body = match &issue.body {
                Some(b) => Some(clone_string(b)),
                None => None,
            };
            SyncItemAction::UpdateTask {
                task_id: m.task_id,
                mapping_id: m.id,
                title: clone_string(&issue.title),
                body,
                github_updated_at: issue.updated_at,
            }
        },
        None => {
            let body = match &issue.body {
                Some(b) => Some(clone_string(b)),
                None => None,
            };
            SyncItemAction::CreateTask {
                title: clone_string(&issue.title),
                body,
                status: TaskStatus::Todo,
                issue_number: issue.number,
                issue_id: clone_string(&issue.id),
                issue_url: clone_string(&issue.url),
                sync_direction: SyncDirection::Bidirectional,
            }
        },
    }
}

/// Copy a string, keeping its characters.
fn clone_string(s: &String) -> (r: String)
    ensures
        r@ == s@,
{
    let mut out = String::new();
    out.append(s.as_str());
    out
}

/// Whether pushing a task outward is allowed by its mapping: an
/// inward-only mapping is never pushed to.
pub fn should_push_to_github(mapping: &GitHubIssueMapping) -> (r: bool)
    ensures
        r == (mapping.sync_direction != SyncDirection::GithubToVibe),
{
    !matches!(mapping.sync_direction, SyncDirection::GithubToVibe)
}

/// The issue mutation that pushing one task sends: title, body, and the
/// issue state its status maps to.
pub struct UpdateIssuePayload {
    pub issue_id: String,
    pub title: String,
    pub body: Option<String>,
    pub state: String,
}

/// Decide the outward push for one task: an inward-only mapping sends
/// nothing; otherwise the issue named by the mapping gets the task's title
/// and description, closed when the task is done or cancelled and open
/// otherwise.
pub fn sync_task_push(task: &crate::task::Task, mapping: &GitHubIssueMapping) -> (r: Option<
    UpdateIssuePayload,
>)
    ensures
        mapping.sync_direction == SyncDirection::GithubToVibe <==> r is None,
        r matches Some(p) ==> {
            &&& p.issue_id@ == mapping.github_issue_id@
            &&& p.title@ == task.title@
            &&& (match (p.body, task.description) {
                (Some(b), Some(d)) => b@ == d@,
                (None, None) => true,
                _ => false,
            })
            &&& ((task.status == crate::task::TaskStatus::Done || task.status
                == crate::task::TaskStatus::Cancelled) ==> p.state@ == "CLOSED"@)
            &&& ((task.status != crate::task::TaskStatus::Done && task.status
                != crate::task::TaskStatus::Cancelled) ==> p.state@ == "OPEN"@)
        },
{
    if matches!(mapping.sync_direction, SyncDirection::GithubToVibe) {
        return None;
    }
    let body = match &task.description {
        Some(d) => Some(clone_string(d)),
        None => None,
    };
    let mut state = String::new();
    state.append(StatusMapping::vibe_to_github_state(&task.status));
    Some(
        UpdateIssuePayload {
            issue_id: clone_string(&mapping.github_issue_id),
            title: clone_string(&task.title),
            body,
            state,
        },
    )
}


/// Synchronizing an item whose issue already has a mapping never creates a
/// task and never carries a task status: the local status of a mapped task
/// is preserved by construction, since the update action has no status to
/// write.
pub proof fn lemma_sync_preserves_mapped_status(
    item: GitHubProjectItem,
    m: GitHubIssueMapping,
    r: SyncItemAction,
)
    requires
        spec_sync_item_ok(item, Some(m), r),
    ensures
        r is Skip || r is UpdateTask,
{
}


/// The action creates a task.
pub open spec fn action_creates() -> spec_fn(SyncItemAction) -> bool {
    |a: SyncItemAction| a is CreateTask
}

/// The action updates an existing task.
pub open spec fn action_updates() -> spec_fn(SyncItemAction) -> bool {
    |a: SyncItemAction| a is UpdateTask
}

/// The action skips the item (a draft, or an outward-only mapping).
pub open spec fn action_skips() -> spec_fn(SyncItemAction) -> bool {
    |a: SyncItemAction| a is Skip
}

/// Tally one synchronization run from its per-item decisions: a creation
/// raises the created counter, an update the updated one, and a skipped
/// item (a draft, or an outward-only mapping) the skipped one; synced
/// counts the items actually written, created plus updated. Per-item
/// errors are accumulated by the caller and never abort the run.
pub fn tally_sync_actions(actions: &Vec<SyncItemAction>) -> (r: SyncResult)
    requires
        actions@.len() <= u32::MAX as int,
    ensures
        r.items_created == crate::seqs::count_matching(actions@, action_creates()),
        r.items_updated == crate::seqs::count_matching(actions@, action_updates()),
        r.items_skipped == crate::seqs::count_matching(actions@, action_skips()),
        r.items_synced == r.items_created + r.items_updated,
        r.errors@.len() == 0,
{
    let mut created: u32 = 0;
    let mut updated: u32 = 0;
    let mut skipped: u32 = 0;
    let n = actions.len();
    for i in 0..n
        invariant
            n == actions@.len(),
            n <= u32::MAX as int,
            created == crate::seqs::count_matching(actions@.take(i as int), action_creates()),
            updated == crate::seqs::count_matching(actions@.take(i as int), action_updates()),
            skipped == crate::seqs::count_matching(actions@.take(i as int), action_skips()),
            created + updated + skipped == i,
    {
        proof {
            crate::seqs::lemma_take_succ(actions@, i as int);
        }
        match actions[i] {
            SyncItemAction::CreateTask { .. } => {
                created = created + 1;
            },
            SyncItemAction::UpdateTask { .. } => {
                updated = updated + 1;
            },
            SyncItemAction::Skip => {
                skipped = skipped + 1;
            },
        }
    }
    proof {
        crate::seqs::lemma_take_full(actions@);
    }
    SyncResult {
        items_synced: created + updated,
        items_created: created,
        items_updated: updated,
        items_skipped: skipped,
        errors: Vec::new(),
    }
}

/// Re-running a synchronization on unchanged remote state creates nothing:
/// when every item's issue already has a mapping (as it does right after a
/// first run, which created the missing ones), no decision is a creation,
/// so the created counter of the tally is zero.
pub proof fn lemma_second_run_creates_nothing(
    items: Seq<GitHubProjectItem>,
    mappings: Seq<Option<GitHubIssueMapping>>,
    actions: Seq<SyncItemAction>,
)
    requires
        items.len() == mappings.len(),
        actions.len() == items.len(),
        forall|k: int|
            0 <= k < items.len() && (#[trigger] items[k]).issue is Some ==> mappings[k] is Some,
        forall|k: int|
            0 <= k < items.len() ==> spec_sync_item_ok(items[k], mappings[k], #[trigger] actions[k]),
    ensures
        crate::seqs::count_matching(actions, action_creates()) == 0,
    decreases actions.len(),
{
    if actions.len() > 0 {
        let k = actions.len() - 1;
        assert(spec_sync_item_ok(items[k], mappings[k], actions[k]));
        assert(!(actions[k] is CreateTask));
        lemma_second_run_creates_nothing(
            items.drop_last(),
            mappings.drop_last(),
            actions.drop_last(),
        );
    }
}


/// One property write the synchronizer issues, keyed by task and name.
pub struct PropertyUpsert {
    pub task_id: Id,
    pub name: String,
    pub value: String,
}

/// The property upserts for one fetched issue: the issue's address and
/// number always; the labels, milestone and assignee encodings when the
/// caller supplies them (it does exactly when the issue has labels, a
/// milestone, assignees — their JSON text is produced at the process
/// edge); and one `github_` property per project field value, its suffix
/// the field name with spaces as underscores and ASCII letters lowered.
pub fn issue_property_upserts(
    task_id: Id,
    issue: &GitHubIssue,
    item: &GitHubProjectItem,
    labels_json: Option<String>,
    milestone_json: Option<String>,
    assignees_json: Option<String>,
) -> (r: Vec<PropertyUpsert>)
    ensures
        ({
            let nl: int = if labels_json is Some {
                1
            } else {
                0
            };
            let nm: int = if milestone_json is Some {
                1
            } else {
                0
            };
            let na: int = if assignees_json is Some {
                1
            } else {
                0
            };
            let base = 2 + nl + nm + na;
            &&& r@.len() == base + item.field_values@.len()
            &&& (forall|i: int| 0 <= i < r@.len() ==> (#[trigger] r@[i]).task_id == task_id)
            &&& r@[0].name@ == "github_issue_url"@ && r@[0].value@ == issue.url@
            &&& r@[1].name@ == "github_issue_number"@ && r@[1].value@
                == crate::strings::dec_digits_signed(issue.number as int)
            &&& (labels_json matches Some(lj) ==> r@[2].name@ == "labels"@ && r@[2].value@ == lj@)
            &&& (milestone_json matches Some(mj) ==> r@[2 + nl].name@ == "milestone"@ && r@[2
                + nl].value@ == mj@)
            &&& (assignees_json matches Some(aj) ==> r@[2 + nl + nm].name@ == "github_assignees"@
                && r@[2 + nl + nm].value@ == aj@)
            &&& (forall|j: int|
                0 <= j < item.field_values@.len() ==> (#[trigger] r@[base + j]).name@ == "github_"@
                    + crate::strings::snake_of(item.field_values@[j].field_name@) && r@[base
                    + j].value@ == item.field_values@[j].value@)
        }),
{
    let ghost glj = labels_json;
    let ghost gmj = milestone_json;
    let ghost gaj = assignees_json;
    let ghost nl: int = if labels_json is Some {
        1
    } else {
        0
    };
    let ghost nm: int = if milestone_json is Some {
        1
    } else {
        0
    };
    let ghost na: int = if assignees_json is Some {
        1
    } else {
        0
    };
    let mut out: Vec<PropertyUpsert> = Vec::new();
    let mut name = String::new();
    name.append("github_issue_url");
    out.push(PropertyUpsert { task_id, name, value: clone_string(&issue.url) });
    let mut name = String::new();
    name.append("github_issue_number");
    out.push(
        PropertyUpsert {
            task_id,
            name,
            value: crate::strings::i64_to_string(issue.number),
        },
    );
    match labels_json {
        Some(lj) => {
            let mut name = String::new();
            name.append("labels");
            out.push(PropertyUpsert { task_id, name, value: lj });
        },
        None => {},
    }
    match milestone_json {
        Some(mj) => {
            let mut name = String::new();
            name.append("milestone");
            out.push(PropertyUpsert { task_id, name, value: mj });
        },
        None => {},
    }
    match assignees_json {
        Some(aj) => {
            let mut name = String::new();
            name.append("github_assignees");
            out.push(PropertyUpsert { task_id, name, value: aj });
        },
        None => {},
    }
    let ghost base: int = 2 + nl + nm + na;
    proof {
        assert(out@.len() == base);
    }
    let m = item.field_values.len();
    for j in 0..m
        invariant
            m == item.field_values@.len(),
            base == 2 + nl + nm + na,
            nl == (if glj is Some {
                1int
            } else {
                0
            }),
            nm == (if gmj is Some {
                1int
            } else {
                0
            }),
            na == (if gaj is Some {
                1int
            } else {
                0
            }),
            out@.len() == base + j,
            forall|q: int| 0 <= q < out@.len() ==> (#[trigger] out@[q]).task_id == task_id,
            out@[0].name@ == "github_issue_url"@ && out@[0].value@ == issue.url@,
            out@[1].name@ == "github_issue_number"@ && out@[1].value@
                == crate::strings::dec_digits_signed(issue.number as int),
            glj matches Some(lj) ==> out@[2].name@ == "labels"@ && out@[2].value@ == lj@,
            gmj matches Some(mj) ==> out@[2 + nl].name@ == "milestone"@ && out@[2 + nl].value@
                == mj@,
            gaj matches Some(aj) ==> out@[2 + nl + nm].name@ == "github_assignees"@ && out@[2 + nl
                + nm].value@ == aj@,
            forall|q: int|
                0 <= q < j ==> (#[trigger] out@[base + q]).name@ == "github_"@
                    + crate::strings::snake_of(item.field_values@[q].field_name@) && out@[base
                    + q].value@ == item.field_values@[q].value@,
    {
        let fv = &item.field_values[j];
        let mut name = String::new();
        name.append("github_");
        let suffix = crate::strings::snake_ascii(fv.field_name.as_str());
        name.append(suffix.as_str());
        out.push(PropertyUpsert { task_id, name, value: clone_string(&fv.value) });
    }
    out
}

} // verus!
