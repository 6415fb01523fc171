//! Task state machine, risk classification and the approval matrix.

use vstd::prelude::*;

verus! {

use crate::payload::Payload;
use vstd::string::StringExecFns;

/// Status of a task in its lifecycle.
///
/// `Pending` and `Scheduled` are the two initial states, `Running` the
/// active state, and `Completed`, `Failed` and `Cancelled` the terminal
/// states.
#[derive(Clone, Copy, Debug, PartialEq, Eq, Structural)]
pub enum TaskStatus {
    Pending,
    Scheduled,
    Running,
    Completed,
    Failed,
    Cancelled,
}

impl TaskStatus {
    /// A terminal status: once reached, the task is never mutated again
    /// (re-delivery of the same terminal status excepted, which is a no-op).
    pub open spec fn is_terminal(self) -> bool {
        self == TaskStatus::Completed || self == TaskStatus::Failed
            || self == TaskStatus::Cancelled
    }

    /// One of the two states a task can be created in.
    pub open spec fn is_initial(self) -> bool {
        self == TaskStatus::Pending || self == TaskStatus::Scheduled
    }

    /// The task state transition graph: a not-yet-running task may start
    /// running or be cancelled; a running task may reach any terminal state;
    /// a terminal state has no outgoing edges.
    pub open spec fn can_transition(self, to: TaskStatus) -> bool {
        ||| (self.is_initial() && (to == TaskStatus::Running || to == TaskStatus::Cancelled))
        ||| (self == TaskStatus::Running && to.is_terminal())
    }

    /// Executable twin of [`TaskStatus::is_terminal`].
    pub fn terminal(&self) -> (r: bool)
        ensures
            r == self.is_terminal(),
    {
        matches!(self, TaskStatus::Completed | TaskStatus::Failed | TaskStatus::Cancelled)
    }

    /// The lowercase name of a status.
    pub fn label(&self) -> (r: String)
        ensures
            r@ == status_label(*self),
    {
        match self {
            TaskStatus::Pending => String::from_str("pending"),
            TaskStatus::Scheduled => String::from_str("scheduled"),
            TaskStatus::Running => String::from_str("running"),
            TaskStatus::Completed => String::from_str("completed"),
            TaskStatus::Failed => String::from_str("failed"),
            TaskStatus::Cancelled => String::from_str("cancelled"),
        }
    }

    /// Executable twin of [`TaskStatus::can_transition`].
    pub fn transition_allowed(&self, to: &TaskStatus) -> (r: bool)
        ensures
            r == self.can_transition(*to),
    {
        match self {
            TaskStatus::Pending | TaskStatus::Scheduled => matches!(
                to,
                TaskStatus::Running | TaskStatus::Cancelled,
            ),
            TaskStatus::Running => to.terminal(),
            _ => false,
        }
    }
}

/// The lowercase name of each status.
pub open spec fn status_label(s: TaskStatus) -> Seq<char> {
    match s {
        TaskStatus::Pending => "pending"@,
        TaskStatus::Scheduled => "scheduled"@,
        TaskStatus::Running => "running"@,
        TaskStatus::Completed => "completed"@,
        TaskStatus::Failed => "failed"@,
        TaskStatus::Cancelled => "cancelled"@,
    }
}

/// Terminal states are sinks of the transition graph, so no sequence of
/// transitions leaves them; in particular no path reaches `Running` from a
/// terminal state.
pub proof fn lemma_terminal_is_sink(from: TaskStatus, to: TaskStatus)
    requires
        from.is_terminal(),
    ensures
        !from.can_transition(to),
{
}

/// The transition graph never re-enters an initial state: a task that has
/// left `Pending`/`Scheduled` cannot go back through `update_task_status`.
pub proof fn lemma_no_reentry_to_initial(from: TaskStatus, to: TaskStatus)
    requires
        from.can_transition(to),
    ensures
        !to.is_initial(),
{
}

/// No walk along transition-graph edges leaves a terminal state, so no
/// path reaches `Running` from a terminal state: every status on such a
/// walk is the terminal starting status itself.
pub proof fn lemma_no_path_from_terminal(path: Seq<TaskStatus>)
    requires
        path.len() >= 1,
        path[0].is_terminal(),
        forall|i: int| 1 <= i < path.len() ==> path[i - 1].can_transition(#[trigger] path[i]),
    ensures
        forall|i: int| 0 <= i < path.len() ==> (#[trigger] path[i]) == path[0],
        forall|i: int| 0 <= i < path.len() ==> (#[trigger] path[i]) != TaskStatus::Running,
{
    if path.len() >= 2 {
        assert(path[0].can_transition(path[1]));
    }
}

/// Coarse classification of an action's reversibility and impact; drives
/// the approval gate.
#[derive(Clone, Copy, Debug, PartialEq, Eq, Structural)]
pub enum RiskLevel {
    /// Read-only operations.
    Low,
    /// Write operations with easy undo.
    Medium,
    /// Write operations with difficult undo, external communication.
    High,
    /// Irreversible or financial operations.
    Critical,
}

/// The approval decision matrix: whether an action of the given risk level
/// requires human approval for an agent at the given autonomy level.
///
/// Autonomy 1 always asks; 2 asks for medium risk and above; 3 asks only
/// for critical risk; 4 never asks.  An autonomy level outside 1..=4 falls
/// back to asking for medium risk and above.
pub open spec fn approval_required(risk: RiskLevel, autonomy_level: u8) -> bool {
    if autonomy_level == 1 {
        true
    } else if autonomy_level == 2 {
        risk != RiskLevel::Low
    } else if autonomy_level == 3 {
        risk == RiskLevel::Critical
    } else if autonomy_level == 4 {
        false
    } else {
        risk != RiskLevel::Low
    }
}

impl RiskLevel {
    /// Consults the approval matrix for this risk level and the given
    /// agent autonomy level.
    pub fn requires_approval(&self, autonomy_level: u8) -> (r: bool)
        ensures
            r == approval_required(*self, autonomy_level),
    {
        match (self, autonomy_level) {
            (_, 1) => true,
            (RiskLevel::Low, 2) => false,
            (_, 2) => true,
            (RiskLevel::Critical, 3) => true,
            (_, 3) => false,
            (_, 4) => false,
            (RiskLevel::Low, _) => false,
            (_, _) => true,
        }
    }
}

/// The approval matrix is exhaustive and total: every risk/autonomy pair
/// in the 4-by-4 table yields exactly the documented boolean.
pub proof fn lemma_approval_matrix_total(risk: RiskLevel, autonomy_level: u8)
    requires
        1 <= autonomy_level <= 4,
    ensures
        autonomy_level == 1 ==> approval_required(risk, autonomy_level),
        autonomy_level == 2 ==> (approval_required(risk, autonomy_level) <==> risk
            != RiskLevel::Low),
        autonomy_level == 3 ==> (approval_required(risk, autonomy_level) <==> risk
            == RiskLevel::Critical),
        autonomy_level == 4 ==> !approval_required(risk, autonomy_level),
{
}

/// The deterministic action-to-risk table.  Read-only actions are low
/// risk; writes with easy undo are medium; actions with external effect
/// are high; irreversible or financial actions are critical.  An unknown
/// action type fails toward caution: medium.
pub open spec fn action_risk(action: Seq<char>) -> RiskLevel {
    if action == "web_search"@ || action == "web_scrape"@ || action == "email_read"@ || action
        == "csv_read"@ || action == "file_read"@ || action == "pdf_read"@ || action
        == "news_search"@ || action == "company_search"@ || action == "market_data"@ || action
        == "calculator"@ {
        RiskLevel::Low
    } else if action == "email_draft"@ || action == "file_write"@ || action == "csv_write"@
        || action == "excel_write"@ || action == "web_screenshot"@ {
        RiskLevel::Medium
    } else if action == "email_send"@ || action == "email_categorize"@ || action
        == "calendar_events"@ || action == "browser_automation"@ {
        RiskLevel::High
    } else if action == "email_unsubscribe"@ || action == "payment"@ || action == "trade"@
        || action == "delete"@ {
        RiskLevel::Critical
    } else {
        RiskLevel::Medium
    }
}

impl RiskLevel {
    /// Classifies an action type per the [`action_risk`] table.
    pub fn from_action(action_type: &str) -> (r: RiskLevel)
        ensures
            r == action_risk(action_type@),
    {
        if crate::strutil::str_eq(action_type, "web_search") || crate::strutil::str_eq(
            action_type,
            "web_scrape",
        ) || crate::strutil::str_eq(action_type, "email_read") || crate::strutil::str_eq(
            action_type,
            "csv_read",
        ) || crate::strutil::str_eq(action_type, "file_read") || crate::strutil::str_eq(
            action_type,
            "pdf_read",
        ) || crate::strutil::str_eq(action_type, "news_search") || crate::strutil::str_eq(
            action_type,
            "company_search",
        ) || crate::strutil::str_eq(action_type, "market_data") || crate::strutil::str_eq(
            action_type,
            "calculator",
        ) {
            RiskLevel::Low
        } else if crate::strutil::str_eq(action_type, "email_draft") || crate::strutil::str_eq(
            action_type,
            "file_write",
        ) || crate::strutil::str_eq(action_type, "csv_write") || crate::strutil::str_eq(
            action_type,
            "excel_write",
        ) || crate::strutil::str_eq(action_type, "web_screenshot") {
            RiskLevel::Medium
        } else if crate::strutil::str_eq(action_type, "email_send") || crate::strutil::str_eq(
            action_type,
            "email_categorize",
        ) || crate::strutil::str_eq(action_type, "calendar_events") || crate::strutil::str_eq(
            action_type,
            "browser_automation",
        ) {
            RiskLevel::High
        } else if crate::strutil::str_eq(action_type, "email_unsubscribe")
            || crate::strutil::str_eq(action_type, "payment") || crate::strutil::str_eq(
            action_type,
            "trade",
        ) || crate::strutil::str_eq(action_type, "delete") {
            RiskLevel::Critical
        } else {
            RiskLevel::Medium
        }
    }
}

/// A task to be executed by an agent on the Executor.
#[derive(Debug, Clone)]
pub struct Task {
    pub id: String,
    pub agent_id: String,
    pub task_type: String,
    pub input: Payload,
    pub status: TaskStatus,
    /// Opaque serialized result, set on completion.
    pub result: Option<String>,
    pub error: Option<String>,
    pub scheduled_at: Option<u64>,
    pub started_at: Option<u64>,
    pub completed_at: Option<u64>,
    pub created_at: u64,
    pub retry_count: u32,
}

/// Two tasks carry the same data, compared through views.
pub open spec fn task_eq_view(a: Task, b: Task) -> bool {
    &&& a.id@ == b.id@
    &&& a.agent_id@ == b.agent_id@
    &&& a.task_type@ == b.task_type@
    &&& a.input.fields@ == b.input.fields@
    &&& a.status == b.status
    &&& match (a.result, b.result) {
        (Some(x), Some(y)) => x@ == y@,
        (None, None) => true,
        _ => false,
    }
    &&& match (a.error, b.error) {
        (Some(x), Some(y)) => x@ == y@,
        (None, None) => true,
        _ => false,
    }
    &&& a.scheduled_at == b.scheduled_at
    &&& a.started_at == b.started_at
    &&& a.completed_at == b.completed_at
    &&& a.created_at == b.created_at
    &&& a.retry_count == b.retry_count
}

impl Task {
    /// The input payload is well-formed.
    pub open spec fn wf(&self) -> bool {
        self.input.wf()
    }

    /// A copy carrying the same data.
    pub fn duplicate(&self) -> (r: Task)
        ensures
            task_eq_view(r, *self),
    {
        Task {
            id: self.id.clone(),
            agent_id: self.agent_id.clone(),
            task_type: self.task_type.clone(),
            input: self.input.duplicate(),
            status: self.status,
            result: clone_opt_string(&self.result),
            error: clone_opt_string(&self.error),
            scheduled_at: self.scheduled_at,
            started_at: self.started_at,
            completed_at: self.completed_at,
            created_at: self.created_at,
            retry_count: self.retry_count,
        }
    }
}

/// A copy of an optional string with the same view.
pub fn clone_opt_string(s: &Option<String>) -> (r: Option<String>)
    ensures
        match (s, r) {
            (Some(x), Some(y)) => x@ == y@,
            (None, None) => true,
            _ => false,
        },
{
    match s {
        Some(x) => Some(x.clone()),
        None => None,
    }
}

/// Counts of tasks per status, plus the total.
#[derive(Clone, Copy, Debug, PartialEq, Eq, Structural, Default)]
pub struct TaskStats {
    pub total: u32,
    pub pending: u32,
    pub scheduled: u32,
    pub running: u32,
    pub completed: u32,
    pub failed: u32,
    pub cancelled: u32,
}

/// An append-only audit record; one entry per meaningful state change.
#[derive(Debug, Clone)]
pub struct ActivityLogEntry {
    pub id: String,
    pub agent_id: Option<String>,
    pub task_id: Option<String>,
    pub action: String,
    pub details: Option<String>,
    pub timestamp: u64,
}

/// Two log entries carry the same data, compared through views.
pub open spec fn log_eq_view(a: ActivityLogEntry, b: ActivityLogEntry) -> bool {
    &&& a.id@ == b.id@
    &&& crate::strutil::opt_view(a.agent_id) == crate::strutil::opt_view(b.agent_id)
    &&& crate::strutil::opt_view(a.task_id) == crate::strutil::opt_view(b.task_id)
    &&& a.action@ == b.action@
    &&& crate::strutil::opt_view(a.details) == crate::strutil::opt_view(b.details)
    &&& a.timestamp == b.timestamp
}

impl ActivityLogEntry {
    /// A copy carrying the same data.
    pub fn duplicate(&self) -> (r: ActivityLogEntry)
        ensures
            log_eq_view(r, *self),
    {
        ActivityLogEntry {
            id: self.id.clone(),
            agent_id: clone_opt_string(&self.agent_id),
            task_id: clone_opt_string(&self.task_id),
            action: self.action.clone(),
            details: clone_opt_string(&self.details),
            timestamp: self.timestamp,
        }
    }
}

/// Status of an approval request.
#[derive(Clone, Copy, Debug, PartialEq, Eq, Structural)]
pub enum ApprovalStatus {
    Pending,
    Approved,
    Rejected,
}

/// Two approval requests carry the same data, compared through views.
pub open spec fn appr_eq_view(a: ApprovalRequest, b: ApprovalRequest) -> bool {
    &&& a.id@ == b.id@
    &&& a.agent_id@ == b.agent_id@
    &&& crate::strutil::opt_view(a.task_id) == crate::strutil::opt_view(b.task_id)
    &&& a.action_type@ == b.action_type@
    &&& a.action_details.fields@ == b.action_details.fields@
    &&& a.risk_level == b.risk_level
    &&& a.status == b.status
    &&& match (a.modified_input, b.modified_input) {
        (Some(x), Some(y)) => x.fields@ == y.fields@,
        (None, None) => true,
        _ => false,
    }
    &&& a.created_at == b.created_at
    &&& a.decided_at == b.decided_at
}

/// A request for human approval of an autonomous action.
#[derive(Debug, Clone)]
pub struct ApprovalRequest {
    pub id: String,
    pub agent_id: String,
    pub task_id: Option<String>,
    pub action_type: String,
    pub action_details: Payload,
    pub risk_level: RiskLevel,
    pub status: ApprovalStatus,
    /// Set on approval to replace the task's input.
    pub modified_input: Option<Payload>,
    pub created_at: u64,
    /// Set exactly once, on leaving `Pending`.
    pub decided_at: Option<u64>,
}

impl ApprovalRequest {
    /// Payloads are well-formed and `decided_at` is set exactly on the
    /// decided states.
    pub open spec fn wf(&self) -> bool {
        &&& self.action_details.wf()
        &&& (self.modified_input matches Some(p) ==> p.wf())
        &&& (self.status == ApprovalStatus::Pending <==> self.decided_at is None)
    }

    /// A copy carrying the same data.
    pub fn duplicate(&self) -> (r: ApprovalRequest)
        ensures
            appr_eq_view(r, *self),
            self.wf() ==> r.wf(),
    {
        ApprovalRequest {
            id: self.id.clone(),
            agent_id: self.agent_id.clone(),
            task_id: clone_opt_string(&self.task_id),
            action_type: self.action_type.clone(),
            action_details: self.action_details.duplicate(),
            risk_level: self.risk_level,
            status: self.status,
            modified_input: match &self.modified_input {
                Some(p) => Some(p.duplicate()),
                None => None,
            },
            created_at: self.created_at,
            decided_at: self.decided_at,
        }
    }
}

/// How task execution is bounded: retries, backoff, timeout.
#[derive(Debug, Clone, Copy, PartialEq, Eq, Structural)]
pub struct TaskExecutionConfig {
    /// How many times a failed task may re-enter `Pending`.
    pub max_retries: u32,
    /// Wait before a retry, in milliseconds.
    pub retry_delay_ms: u64,
    /// How long a task may stay `Running`, in milliseconds.
    pub timeout_ms: u64,
    /// Plan without dispatching.
    pub dry_run: bool,
}

impl Default for TaskExecutionConfig {
    /// Three retries, one-second backoff, one-minute timeout, real runs.
    fn default() -> (r: TaskExecutionConfig)
        ensures
            r.max_retries == 3,
            r.retry_delay_ms == 1000,
            r.timeout_ms == 60000,
            !r.dry_run,
    {
        TaskExecutionConfig { max_retries: 3, retry_delay_ms: 1000, timeout_ms: 60000, dry_run: false }
    }
}

} // verus!
