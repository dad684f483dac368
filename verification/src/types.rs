//! The closed enumerations of the data model: issue status, priority, kind,
//! and the output format selector.

use vstd::prelude::*;

use crate::error::NitError;
use crate::util::str_eq;

verus! {

/// Lifecycle status of an issue.
#[derive(Clone, Copy, PartialEq, Eq, Structural, Debug)]
pub enum Status {
    Open,
    InProgress,
    Done,
    Wontfix,
}

/// Priority tier of an issue.
#[derive(Clone, Copy, PartialEq, Eq, Structural, Debug)]
pub enum Priority {
    Critical,
    High,
    Medium,
    Low,
}

/// Kind of an issue.
#[derive(Clone, Copy, PartialEq, Eq, Structural, Debug)]
pub enum Kind {
    Bug,
    Feature,
    Task,
    Epic,
}

impl Status {
    /// A terminal status: the issue no longer blocks others.
    pub open spec fn spec_is_terminal(self) -> bool {
        self is Done || self is Wontfix
    }

    #[verifier::when_used_as_spec(spec_is_terminal)]
    pub fn is_terminal(self) -> (r: bool)
        ensures
            r == self.spec_is_terminal(),
    {
        match self {
            Status::Done => true,
            Status::Wontfix => true,
            _ => false,
        }
    }
}

/// Rank of a priority tier for sorting: lower rank sorts first.
pub fn priority_ord(p: Priority) -> (r: u8)
    ensures
        r == spec_priority_ord(p),
{
    match p {
        Priority::Critical => 0,
        Priority::High => 1,
        Priority::Medium => 2,
        Priority::Low => 3,
    }
}

pub open spec fn spec_priority_ord(p: Priority) -> u8 {
    match p {
        Priority::Critical => 0u8,
        Priority::High => 1u8,
        Priority::Medium => 2u8,
        Priority::Low => 3u8,
    }
}

/// The priority an issue is created with when none is given.
pub fn default_priority() -> (r: Priority)
    ensures
        r == Priority::Medium,
{
    Priority::Medium
}

/// The kind an issue is created with when none is given.
pub fn default_kind() -> (r: Kind)
    ensures
        r == Kind::Task,
{
    Kind::Task
}

impl Status {
    /// The text of this status in the store's encoding.
    pub open spec fn spec_name(self) -> Seq<char> {
        match self {
            Status::Open => "open"@,
            Status::InProgress => "in-progress"@,
            Status::Done => "done"@,
            Status::Wontfix => "wontfix"@,
        }
    }

    /// The store's text for this status.
    pub fn as_str(self) -> (r: &'static str)
        ensures
            r@ == self.spec_name(),
    {
        match self {
            Status::Open => "open",
            Status::InProgress => "in-progress",
            Status::Done => "done",
            Status::Wontfix => "wontfix",
        }
    }

    /// The status a text names, if any.
    pub fn parse(s: &str) -> (r: Option<Status>)
        ensures
            match r {
                Some(v) => s@ == v.spec_name(),
                None => s@ != "open"@ && s@ != "in-progress"@ && s@ != "done"@ && s@
                    != "wontfix"@,
            },
    {
        proof {
            reveal_strlit("open");
            reveal_strlit("in-progress");
            reveal_strlit("done");
            reveal_strlit("wontfix");
        }
        if str_eq(s, "open") {
            Some(Status::Open)
        } else if str_eq(s, "in-progress") {
            Some(Status::InProgress)
        } else if str_eq(s, "done") {
            Some(Status::Done)
        } else if str_eq(s, "wontfix") {
            Some(Status::Wontfix)
        } else {
            None
        }
    }
}

impl Priority {
    /// The text of this priority in the store's encoding.
    pub open spec fn spec_name(self) -> Seq<char> {
        match self {
            Priority::Critical => "critical"@,
            Priority::High => "high"@,
            Priority::Medium => "medium"@,
            Priority::Low => "low"@,
        }
    }

    /// The store's text for this priority.
    pub fn as_str(self) -> (r: &'static str)
        ensures
            r@ == self.spec_name(),
    {
        match self {
            Priority::Critical => "critical",
            Priority::High => "high",
            Priority::Medium => "medium",
            Priority::Low => "low",
        }
    }

    /// The priority a text names, if any.
    pub fn parse(s: &str) -> (r: Option<Priority>)
        ensures
            match r {
                Some(v) => s@ == v.spec_name(),
                None => s@ != "critical"@ && s@ != "high"@ && s@ != "medium"@ && s@ != "low"@,
            },
    {
        proof {
            reveal_strlit("critical");
            reveal_strlit("high");
            reveal_strlit("medium");
            reveal_strlit("low");
        }
        if str_eq(s, "critical") {
            Some(Priority::Critical)
        } else if str_eq(s, "high") {
            Some(Priority::High)
        } else if str_eq(s, "medium") {
            Some(Priority::Medium)
        } else if str_eq(s, "low") {
            Some(Priority::Low)
        } else {
            None
        }
    }
}

impl Kind {
    /// The text of this kind in the store's encoding.
    pub open spec fn spec_name(self) -> Seq<char> {
        match self {
            Kind::Bug => "bug"@,
            Kind::Feature => "feature"@,
            Kind::Task => "task"@,
            Kind::Epic => "epic"@,
        }
    }

    /// The store's text for this kind.
    pub fn as_str(self) -> (r: &'static str)
        ensures
            r@ == self.spec_name(),
    {
        match self {
            Kind::Bug => "bug",
            Kind::Feature => "feature",
            Kind::Task => "task",
            Kind::Epic => "epic",
        }
    }

    /// The kind a text names, if any.
    pub fn parse(s: &str) -> (r: Option<Kind>)
        ensures
            match r {
                Some(v) => s@ == v.spec_name(),
                None => s@ != "bug"@ && s@ != "feature"@ && s@ != "task"@ && s@ != "epic"@,
            },
    {
        proof {
            reveal_strlit("bug");
            reveal_strlit("feature");
            reveal_strlit("task");
            reveal_strlit("epic");
        }
        if str_eq(s, "bug") {
            Some(Kind::Bug)
        } else if str_eq(s, "feature") {
            Some(Kind::Feature)
        } else if str_eq(s, "task") {
            Some(Kind::Task)
        } else if str_eq(s, "epic") {
            Some(Kind::Epic)
        } else {
            None
        }
    }
}

/// Rejects a priority text that names no tier, before any mutation happens.
pub fn validate_priority(p: &str) -> (r: Result<(), NitError>)
    ensures
        match r {
            Ok(()) => p@ == "critical"@ || p@ == "high"@ || p@ == "medium"@ || p@ == "low"@,
            Err(e) => {
                &&& p@ != "critical"@ && p@ != "high"@ && p@ != "medium"@ && p@ != "low"@
                &&& e matches NitError::InvalidValue { field, value, valid: _ } && field@
                    == "priority"@ && value@ == p@
            },
        },
{
    match Priority::parse(p) {
        Some(_) => Ok(()),
        None => Err(
            NitError::InvalidValue {
                field: String::from_str("priority"),
                value: String::from_str(p),
                valid: String::from_str("critical, high, medium, low"),
            },
        ),
    }
}

/// Rejects a kind text that names no kind, before any mutation happens.
pub fn validate_kind(k: &str) -> (r: Result<(), NitError>)
    ensures
        match r {
            Ok(()) => k@ == "bug"@ || k@ == "feature"@ || k@ == "task"@ || k@ == "epic"@,
            Err(e) => {
                &&& k@ != "bug"@ && k@ != "feature"@ && k@ != "task"@ && k@ != "epic"@
                &&& e matches NitError::InvalidValue { field, value, valid: _ } && field@
                    == "kind"@ && value@ == k@
            },
        },
{
    match Kind::parse(k) {
        Some(_) => Ok(()),
        None => Err(
            NitError::InvalidValue {
                field: String::from_str("kind"),
                value: String::from_str(k),
                valid: String::from_str("bug, feature, task, epic"),
            },
        ),
    }
}

/// Rejects a status text that names no status, before any mutation happens.
pub fn validate_status(s: &str) -> (r: Result<(), NitError>)
    ensures
        match r {
            Ok(()) => s@ == "open"@ || s@ == "in-progress"@ || s@ == "done"@ || s@ == "wontfix"@,
            Err(e) => {
                &&& s@ != "open"@ && s@ != "in-progress"@ && s@ != "done"@ && s@ != "wontfix"@
                &&& e matches NitError::InvalidValue { field, value, valid: _ } && field@
                    == "status"@ && value@ == s@
            },
        },
{
    match Status::parse(s) {
        Some(_) => Ok(()),
        None => Err(
            NitError::InvalidValue {
                field: String::from_str("status"),
                value: String::from_str(s),
                valid: String::from_str("open, in-progress, done, wontfix"),
            },
        ),
    }
}

} // verus!
