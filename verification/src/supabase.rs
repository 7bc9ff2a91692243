//! Team-backend data shapes and the offline write queue for pushing task
//! changes to the remote store.

use vstd::prelude::*;

verus! {

use vstd::string::StringExecFns;
use crate::task::Id;

/// Role of a team member.
#[derive(Clone, Copy, PartialEq, Eq, Structural, Debug)]
pub enum TeamRole {
    Admin,
    Member,
}

/// Status of a user story.
#[derive(Clone, Copy, PartialEq, Eq, Structural, Debug)]
pub enum StoryStatus {
    Backlog,
    Ready,
    InProgress,
    Done,
    Cancelled,
}

/// Kind of a remote task.
#[derive(Clone, Copy, PartialEq, Eq, Structural, Debug)]
pub enum TaskType {
    Feature,
    Bug,
    Enhancement,
    Spike,
    Chore,
}

/// Status of a remote task.
#[derive(Clone, Copy, PartialEq, Eq, Structural, Debug)]
pub enum RemoteTaskStatus {
    Todo,
    InProgress,
    InReview,
    Done,
    Blocked,
}

/// Payload for creating a team.
#[derive(Clone)]
pub struct CreateTeamRequest {
    pub name: String,
    pub description: Option<String>,
}

/// Payload for joining a team by invite code.
#[derive(Clone)]
pub struct JoinTeamRequest {
    pub invite_code: String,
    pub display_name: Option<String>,
}

/// Partial update of a remote task.
#[derive(Clone)]
pub struct UpdateTaskRequest {
    pub title: Option<String>,
    pub description: Option<String>,
    pub status: Option<RemoteTaskStatus>,
    pub assigned_to: Option<String>,
    pub branch_name: Option<String>,
}

impl Default for UpdateTaskRequest {
    /// An update that changes nothing.
    fn default() -> (r: Self)
        ensures
            r.title is None && r.description is None && r.status is None && r.assigned_to is None
                && r.branch_name is None,
    {
        UpdateTaskRequest {
            title: None,
            description: None,
            status: None,
            assigned_to: None,
            branch_name: None,
        }
    }
}

/// Connection settings of the team backend.
#[derive(Clone)]
pub struct SupabaseConfig {
    pub url: String,
    pub anon_key: String,
}

/// The REST endpoint for a table of the backend.
pub fn rest_url(base_url: &str, table: &str) -> (r: String)
    ensures
        r@ == base_url@ + "/rest/v1/"@ + table@,
{
    let mut out = String::new();
    out.append(base_url);
    out.append("/rest/v1/");
    out.append(table);
    proof {
        assert(out@ =~= base_url@ + "/rest/v1/"@ + table@);
    }
    out
}

/// A queued outbound write, with its retry budget.
#[derive(Clone)]
pub struct SyncOperation {
    pub id: Id,
    pub operation_type: SyncOperationType,
    pub created_at: i64,
    pub retry_count: u32,
}

/// The kinds of outbound writes that can be queued.
#[derive(Clone)]
pub enum SyncOperationType {
    UpdateTaskStatus { task_id: Id, status: RemoteTaskStatus },
    UpdateTaskAssignment { task_id: Id, assigned_to: Option<String> },
    UpdateTaskBranch { task_id: Id, branch_name: String },
}

/// The partial update that one queued operation sends.
pub fn update_request_of(operation_type: &SyncOperationType) -> (r: UpdateTaskRequest)
    ensures
        operation_type matches SyncOperationType::UpdateTaskStatus { task_id, status } ==> (
        r.status matches Some(s) && s == status && r.title is None && r.description is None
            && r.assigned_to is None && r.branch_name is None),
        operation_type matches SyncOperationType::UpdateTaskAssignment { task_id, assigned_to }
            ==> ((match (r.assigned_to, assigned_to) {
            (Some(a), Some(b)) => a@ == b@,
            (None, None) => true,
            _ => false,
        }) && r.title is None && r.description is None && r.status is None && r.branch_name
            is None),
        operation_type matches SyncOperationType::UpdateTaskBranch { task_id, branch_name } ==> (
        r.branch_name matches Some(b) && b@ == branch_name@ && r.title is None && r.description
            is None && r.status is None && r.assigned_to is None),
{
    match operation_type {
        SyncOperationType::UpdateTaskStatus { task_id: _, status } => {
            let mut r = UpdateTaskRequest::default();
            r.status = Some(*status);
            r
        },
        SyncOperationType::UpdateTaskAssignment { task_id: _, assigned_to } => {
            let mut r = UpdateTaskRequest::default();
            r.assigned_to = match assigned_to {
                Some(a) => {
                    let mut s = String::new();
                    s.append(a.as_str());
                    Some(s)
                },
                None => None,
            };
            r
        },
        SyncOperationType::UpdateTaskBranch { task_id: _, branch_name } => {
            let mut r = UpdateTaskRequest::default();
            let mut s = String::new();
            s.append(branch_name.as_str());
            r.branch_name = Some(s);
            r
        },
    }
}

/// The greatest number of operations the offline queue holds.
pub const MAX_QUEUE_SIZE: usize = 100;

/// The number of attempts after which a failed operation is dropped.
pub const MAX_RETRIES: u32 = 3;

/// The offline write queue: a capped first-in-first-out list of outbound
/// operations. When full, the oldest operation is evicted to admit the new
/// one; enqueueing never fails.
pub struct SyncQueue {
    pub ops: Vec<SyncOperation>,
}

impl SyncQueue {
    /// The queue never exceeds its capacity.
    pub open spec fn wf(self) -> bool {
        self.ops@.len() <= MAX_QUEUE_SIZE as int
    }

    /// An empty queue.
    pub fn new() -> (r: Self)
        ensures
            r.ops@.len() == 0,
            r.wf(),
    {
        SyncQueue { ops: Vec::new() }
    }

    /// The number of queued operations.
    pub fn queue_length(&self) -> (r: usize)
        ensures
            r == self.ops@.len(),
    {
        self.ops.len()
    }

    /// Enqueue an operation, evicting the oldest ones while the queue is at
    /// capacity.
    pub fn queue_operation(&mut self, operation: SyncOperation)
        requires
            old(self).wf(),
        ensures
            final(self).wf(),
            final(self).ops@.len() <= MAX_QUEUE_SIZE as int,
            final(self).ops@.last() == operation,
            old(self).ops@.len() < MAX_QUEUE_SIZE as int ==> final(self).ops@ == old(
                self,
            ).ops@.push(operation),
            old(self).ops@.len() == MAX_QUEUE_SIZE as int ==> final(self).ops@ == old(
                self,
            ).ops@.skip(1).push(operation),
    {
        if self.ops.len() >= MAX_QUEUE_SIZE {
            let _ = self.ops.remove(0);
            proof {
                assert(self.ops@ =~= old(self).ops@.skip(1));
            }
        }
        self.ops.push(operation);
    }

    /// Take every queued operation out, oldest first.
    pub fn drain(&mut self) -> (r: Vec<SyncOperation>)
        ensures
            r@ == old(self).ops@,
            final(self).ops@.len() == 0,
            final(self).wf(),
    {
        let mut out: Vec<SyncOperation> = Vec::new();
        let n = self.ops.len();
        while self.ops.len() > 0
            invariant
                out@ + self.ops@ == old(self).ops@,
            decreases self.ops@.len(),
        {
            let op = self.ops.remove(0);
            out.push(op);
            proof {
                assert(out@ + self.ops@ =~= old(self).ops@);
            }
        }
        proof {
            assert(out@ =~= old(self).ops@);
        }
        out
    }

    /// Record a failed attempt of a drained operation: below the retry
    /// budget it goes back at the tail of the queue with its count raised,
    /// leaving the operations already queued in place and in order; at the
    /// budget it is dropped for good and the queue is untouched.
    pub fn requeue_failed(&mut self, operation: SyncOperation) -> (kept: bool)
        requires
            old(self).wf(),
            operation.retry_count < u32::MAX,
        ensures
            final(self).wf(),
            kept == (operation.retry_count + 1 < MAX_RETRIES),
            kept ==> {
                let requeued = final(self).ops@.last();
                &&& requeued.id == operation.id
                &&& requeued.operation_type == operation.operation_type
                &&& requeued.created_at == operation.created_at
                &&& requeued.retry_count == operation.retry_count + 1
                &&& (old(self).ops@.len() < MAX_QUEUE_SIZE as int ==> final(self).ops@ == old(
                    self,
                ).ops@.push(requeued))
                &&& (old(self).ops@.len() == MAX_QUEUE_SIZE as int ==> final(self).ops@ == old(
                    self,
                ).ops@.skip(1).push(requeued))
            },
            !kept ==> final(self).ops@ == old(self).ops@,
    {
        let mut op = operation;
        op.retry_count = op.retry_count + 1;
        if op.retry_count < MAX_RETRIES {
            self.queue_operation(op);
            true
        } else {
            false
        }
    }
}

} // verus!
