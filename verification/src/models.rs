//! The data model: issues, notes, and the aggregate shapes handed to callers.

use vstd::prelude::*;

use crate::types::{Kind, Priority, Status};
use crate::util::clone_string_vec;

verus! {

/// The unit of work.
#[derive(Debug, Clone)]
pub struct Issue {
    pub id: i64,
    pub title: String,
    pub status: Status,
    pub priority: Priority,
    pub kind: Kind,
    pub context: String,
    pub files: Vec<String>,
    pub tags: Vec<String>,
    pub acceptance: String,
    pub parent_id: Option<i64>,
    pub close_reason: String,
    pub created_at: String,
    pub updated_at: String,
}

/// Mathematical image of an [`Issue`].
#[verifier::ext_equal]
pub struct IssueV {
    pub id: i64,
    pub title: Seq<char>,
    pub status: Status,
    pub priority: Priority,
    pub kind: Kind,
    pub context: Seq<char>,
    pub files: Seq<Seq<char>>,
    pub tags: Seq<Seq<char>>,
    pub acceptance: Seq<char>,
    pub parent_id: Option<i64>,
    pub close_reason: Seq<char>,
    pub created_at: Seq<char>,
    pub updated_at: Seq<char>,
}

impl View for Issue {
    type V = IssueV;

    open spec fn view(&self) -> IssueV {
        IssueV {
            id: self.id,
            title: self.title@,
            status: self.status,
            priority: self.priority,
            kind: self.kind,
            context: self.context@,
            files: self.files.deep_view(),
            tags: self.tags.deep_view(),
            acceptance: self.acceptance@,
            parent_id: self.parent_id,
            close_reason: self.close_reason@,
            created_at: self.created_at@,
            updated_at: self.updated_at@,
        }
    }
}

impl DeepView for Issue {
    type V = IssueV;

    open spec fn deep_view(&self) -> IssueV {
        self.view()
    }
}

impl Issue {
    /// An owned copy with the same contents.
    pub fn duplicate(&self) -> (r: Issue)
        ensures
            r@ == self@,
    {
        Issue {
            id: self.id,
            title: self.title.clone(),
            status: self.status,
            priority: self.priority,
            kind: self.kind,
            context: self.context.clone(),
            files: clone_string_vec(&self.files),
            tags: clone_string_vec(&self.tags),
            acceptance: self.acceptance.clone(),
            parent_id: self.parent_id,
            close_reason: self.close_reason.clone(),
            created_at: self.created_at.clone(),
            updated_at: self.updated_at.clone(),
        }
    }
}

impl IssueV {
    /// The same issue with another status and a refreshed update time.
    pub open spec fn with_status(self, v: Status, now: Seq<char>) -> IssueV {
        IssueV { status: v, updated_at: now, ..self }
    }

    /// The same issue with another priority and a refreshed update time.
    pub open spec fn with_priority(self, v: Priority, now: Seq<char>) -> IssueV {
        IssueV { priority: v, updated_at: now, ..self }
    }

    /// The same issue with another kind and a refreshed update time.
    pub open spec fn with_kind(self, v: Kind, now: Seq<char>) -> IssueV {
        IssueV { kind: v, updated_at: now, ..self }
    }

    /// The same issue with another title and a refreshed update time.
    pub open spec fn with_title(self, v: Seq<char>, now: Seq<char>) -> IssueV {
        IssueV { title: v, updated_at: now, ..self }
    }

    /// The same issue with another context and a refreshed update time.
    pub open spec fn with_context(self, v: Seq<char>, now: Seq<char>) -> IssueV {
        IssueV { context: v, updated_at: now, ..self }
    }

    /// The same issue with other acceptance criteria and a refreshed update time.
    pub open spec fn with_acceptance(self, v: Seq<char>, now: Seq<char>) -> IssueV {
        IssueV { acceptance: v, updated_at: now, ..self }
    }

    /// The same issue with another close reason and a refreshed update time.
    pub open spec fn with_close_reason(self, v: Seq<char>, now: Seq<char>) -> IssueV {
        IssueV { close_reason: v, updated_at: now, ..self }
    }

    /// The same issue with another file list and a refreshed update time.
    pub open spec fn with_files(self, v: Seq<Seq<char>>, now: Seq<char>) -> IssueV {
        IssueV { files: v, updated_at: now, ..self }
    }

    /// The same issue with another tag list and a refreshed update time.
    pub open spec fn with_tags(self, v: Seq<Seq<char>>, now: Seq<char>) -> IssueV {
        IssueV { tags: v, updated_at: now, ..self }
    }

    /// The same issue with another parent and a refreshed update time.
    pub open spec fn with_parent(self, v: Option<i64>, now: Seq<char>) -> IssueV {
        IssueV { parent_id: v, updated_at: now, ..self }
    }
}

/// An immutable annotation appended to one issue.
#[derive(Debug, Clone)]
pub struct Note {
    pub id: i64,
    pub issue_id: i64,
    pub content: String,
    pub agent: String,
    pub created_at: String,
}

/// Mathematical image of a [`Note`].
#[verifier::ext_equal]
pub struct NoteV {
    pub id: i64,
    pub issue_id: i64,
    pub content: Seq<char>,
    pub agent: Seq<char>,
    pub created_at: Seq<char>,
}

impl View for Note {
    type V = NoteV;

    open spec fn view(&self) -> NoteV {
        NoteV {
            id: self.id,
            issue_id: self.issue_id,
            content: self.content@,
            agent: self.agent@,
            created_at: self.created_at@,
        }
    }
}

impl DeepView for Note {
    type V = NoteV;

    open spec fn deep_view(&self) -> NoteV {
        self.view()
    }
}

impl Note {
    /// An owned copy with the same contents.
    pub fn duplicate(&self) -> (r: Note)
        ensures
            r@ == self@,
    {
        Note {
            id: self.id,
            issue_id: self.issue_id,
            content: self.content.clone(),
            agent: self.agent.clone(),
            created_at: self.created_at.clone(),
        }
    }
}

/// One named contribution to an urgency score.
#[derive(Clone, Copy, PartialEq, Eq, Structural, Debug)]
pub enum ComponentKey {
    PriorityTier(Priority),
    KindTier(Kind),
    Blocking,
    Blocked,
    Age,
    InProgress,
    HasAcceptance,
    Notes,
}

/// The named-component decomposition of an urgency score, in centi-units.
#[derive(Debug, Clone)]
pub struct UrgencyBreakdown {
    pub components: Vec<(ComponentKey, i64)>,
}

/// An issue that just transitioned from blocked to ready.
#[derive(Debug, Clone)]
pub struct UnblockedIssue {
    pub id: i64,
    pub title: String,
}

/// One directed edge of the rendered dependency graph.
#[derive(Debug, Clone)]
pub struct GraphEdge {
    pub from: i64,
    pub to: i64,
    pub edge_type: String,
}

/// One node of the rendered dependency graph. Urgency is in centi-units.
#[derive(Debug, Clone)]
pub struct GraphNode {
    pub id: i64,
    pub title: String,
    pub status: Status,
    pub urgency: i64,
    pub is_blocked: bool,
}

/// The rendered dependency graph.
#[derive(Debug, Clone)]
pub struct GraphOutput {
    pub nodes: Vec<GraphNode>,
    pub edges: Vec<GraphEdge>,
}

/// Full detail for one issue. Urgency is in centi-units.
#[derive(Debug, Clone)]
pub struct IssueDetail {
    pub issue: Issue,
    pub urgency: i64,
    pub blocked_by: Vec<i64>,
    pub blocks: Vec<i64>,
    pub is_blocked: bool,
    pub notes: Vec<Note>,
    pub urgency_breakdown: Option<UrgencyBreakdown>,
    pub children: Option<Vec<IssueSummary>>,
}

/// Listing row for one issue. Urgency is in centi-units.
#[derive(Debug, Clone)]
pub struct IssueSummary {
    pub id: i64,
    pub title: String,
    pub status: Status,
    pub priority: Priority,
    pub kind: Kind,
    pub urgency: i64,
    pub is_blocked: bool,
    pub blocked_by: Vec<i64>,
    pub tags: Vec<String>,
    pub files: Vec<String>,
    pub acceptance: String,
}

/// Issue counts keyed by status.
#[derive(Clone, Copy, PartialEq, Eq, Structural, Debug)]
pub struct StatusCounts {
    pub open: i64,
    pub in_progress: i64,
    pub done: i64,
    pub wontfix: i64,
}

/// Issue counts keyed by priority.
#[derive(Clone, Copy, PartialEq, Eq, Structural, Debug)]
pub struct PriorityCounts {
    pub critical: i64,
    pub high: i64,
    pub medium: i64,
    pub low: i64,
}

/// Issue counts keyed by kind.
#[derive(Clone, Copy, PartialEq, Eq, Structural, Debug)]
pub struct KindCounts {
    pub bug: i64,
    pub feature: i64,
    pub task: i64,
    pub epic: i64,
}

/// The oldest still-open issue, by age in whole days.
#[derive(Debug, Clone)]
pub struct OldestOpen {
    pub id: i64,
    pub title: String,
    pub days_old: i64,
}

/// Project health summary. Average urgency is in centi-units.
#[derive(Debug, Clone)]
pub struct Stats {
    pub total: i64,
    pub by_status: StatusCounts,
    pub by_priority: PriorityCounts,
    pub by_kind: KindCounts,
    pub blocked: i64,
    pub ready: i64,
    pub avg_urgency: i64,
    pub oldest_open: Option<OldestOpen>,
}

/// One issue with its notes and direct blockers, as exported or imported.
#[derive(Debug, Clone)]
pub struct ExportData {
    pub issue: Issue,
    pub notes: Vec<Note>,
    pub blocked_by: Vec<i64>,
}

} // verus!
