//! The issue store: durable entity state for issues, notes, dependency edges
//! and configuration overrides, with the invariants the engine relies on.
//!
//! The store itself is plain data; a caller loads it from its persistence
//! layer, drives it through the operations here, and writes it back.

use vstd::prelude::*;

use crate::error::NitError;
use crate::models::{Issue, IssueV, Note, NoteV};
use crate::types::{Kind, Priority, Status};
use crate::util::{lemma_filter_step, lemma_subrange_full, str_eq};

verus! {

/// The SQL schema of the on-disk representation of the store.
pub const SCHEMA_SQL: &'static str = "
PRAGMA journal_mode=WAL;
PRAGMA foreign_keys=ON;

CREATE TABLE IF NOT EXISTS issues (
    id              INTEGER PRIMARY KEY AUTOINCREMENT,
    title           TEXT NOT NULL,
    status          TEXT NOT NULL DEFAULT 'open'
                    CHECK (status IN ('open', 'in-progress', 'done', 'wontfix')),
    priority        TEXT NOT NULL DEFAULT 'medium'
                    CHECK (priority IN ('critical', 'high', 'medium', 'low')),
    kind            TEXT NOT NULL DEFAULT 'task'
                    CHECK (kind IN ('bug', 'feature', 'task', 'epic')),
    context         TEXT NOT NULL DEFAULT '',
    files           TEXT NOT NULL DEFAULT '[]',
    tags            TEXT NOT NULL DEFAULT '[]',
    acceptance      TEXT NOT NULL DEFAULT '',
    parent_id       INTEGER REFERENCES issues(id) ON DELETE SET NULL,
    close_reason    TEXT NOT NULL DEFAULT '',
    created_at      TEXT NOT NULL DEFAULT (strftime('%Y-%m-%dT%H:%M:%SZ', 'now')),
    updated_at      TEXT NOT NULL DEFAULT (strftime('%Y-%m-%dT%H:%M:%SZ', 'now'))
);

CREATE TABLE IF NOT EXISTS dependencies (
    blocker_id      INTEGER NOT NULL REFERENCES issues(id) ON DELETE CASCADE,
    blocked_id      INTEGER NOT NULL REFERENCES issues(id) ON DELETE CASCADE,
    created_at      TEXT NOT NULL DEFAULT (strftime('%Y-%m-%dT%H:%M:%SZ', 'now')),
    PRIMARY KEY (blocker_id, blocked_id),
    CHECK (blocker_id != blocked_id)
);

CREATE TABLE IF NOT EXISTS notes (
    id              INTEGER PRIMARY KEY AUTOINCREMENT,
    issue_id        INTEGER NOT NULL REFERENCES issues(id) ON DELETE CASCADE,
    content         TEXT NOT NULL,
    agent           TEXT NOT NULL DEFAULT '',
    created_at      TEXT NOT NULL DEFAULT (strftime('%Y-%m-%dT%H:%M:%SZ', 'now'))
);

CREATE TABLE IF NOT EXISTS config (
    key             TEXT PRIMARY KEY,
    value           TEXT NOT NULL
);

CREATE INDEX IF NOT EXISTS idx_issues_status ON issues(status);
CREATE INDEX IF NOT EXISTS idx_issues_priority ON issues(priority);
CREATE INDEX IF NOT EXISTS idx_issues_kind ON issues(kind);
CREATE INDEX IF NOT EXISTS idx_issues_parent ON issues(parent_id);
CREATE INDEX IF NOT EXISTS idx_dependencies_blocked ON dependencies(blocked_id);
CREATE INDEX IF NOT EXISTS idx_dependencies_blocker ON dependencies(blocker_id);
CREATE INDEX IF NOT EXISTS idx_notes_issue ON notes(issue_id);

CREATE TRIGGER IF NOT EXISTS trg_issues_updated_at
    AFTER UPDATE ON issues
    FOR EACH ROW
BEGIN
    UPDATE issues SET updated_at = strftime('%Y-%m-%dT%H:%M:%SZ', 'now')
    WHERE id = OLD.id;
END;
";

/// The schema text of the on-disk representation.
pub open spec fn schema_text() -> Seq<char> {
    SCHEMA_SQL@
}

/// The SQL schema, for callers that create the on-disk form of the store.
pub fn get_schema_sql() -> (r: &'static str)
    ensures
        r@ == schema_text(),
{
    SCHEMA_SQL
}

/// The whole tracked state: issues, dependency edges (blocker id, blocked id),
/// notes, configuration overrides, and the next fresh identities.
pub struct Store {
    pub issues: Vec<Issue>,
    pub edges: Vec<(i64, i64)>,
    pub notes: Vec<Note>,
    pub config: Vec<(String, String)>,
    pub next_issue_id: i64,
    pub next_note_id: i64,
}

/// Mathematical image of a configuration entry vector.
pub open spec fn spec_config_view(s: Seq<(String, String)>) -> Seq<(Seq<char>, Seq<char>)> {
    s.map_values(|kv: (String, String)| (kv.0@, kv.1@))
}

/// Mathematical image of a [`Store`].
#[verifier::ext_equal]
pub struct StoreV {
    pub issues: Seq<IssueV>,
    pub edges: Seq<(i64, i64)>,
    pub notes: Seq<NoteV>,
    pub config: Seq<(Seq<char>, Seq<char>)>,
    pub next_issue_id: i64,
    pub next_note_id: i64,
}

impl View for Store {
    type V = StoreV;

    open spec fn view(&self) -> StoreV {
        StoreV {
            issues: self.issues.deep_view(),
            edges: self.edges@,
            notes: self.notes.deep_view(),
            config: spec_config_view(self.config@),
            next_issue_id: self.next_issue_id,
            next_note_id: self.next_note_id,
        }
    }
}

impl StoreV {
    /// Well-formedness: issue and note identities strictly increase (hence are
    /// unique), stay below the corresponding fresh identity, and configuration
    /// keys are distinct.
    pub open spec fn wf(self) -> bool {
        &&& forall|i: int, j: int|
            0 <= i < j < self.issues.len() ==> self.issues[i].id < self.issues[j].id
        &&& forall|i: int|
            0 <= i < self.issues.len() ==> (#[trigger] self.issues[i].id) < self.next_issue_id
        &&& 1 <= self.next_issue_id
        &&& forall|i: int, j: int|
            0 <= i < j < self.notes.len() ==> self.notes[i].id < self.notes[j].id
        &&& forall|i: int|
            0 <= i < self.notes.len() ==> (#[trigger] self.notes[i].id) < self.next_note_id
        &&& 1 <= self.next_note_id
        &&& forall|i: int, j: int|
            0 <= i < j < self.config.len() ==> self.config[i].0 != self.config[j].0
    }

    /// Whether an issue with this identity exists.
    pub open spec fn has_issue(self, id: i64) -> bool {
        exists|i: int| 0 <= i < self.issues.len() && self.issues[i].id == id
    }

    /// The position of the issue with this identity.
    pub open spec fn issue_idx(self, id: i64) -> int {
        choose|i: int| 0 <= i < self.issues.len() && self.issues[i].id == id
    }

    /// The issue with this identity.
    pub open spec fn issue(self, id: i64) -> IssueV {
        self.issues[self.issue_idx(id)]
    }

    /// Whether a configuration entry with this key exists.
    pub open spec fn has_config(self, key: Seq<char>) -> bool {
        exists|i: int| 0 <= i < self.config.len() && self.config[i].0 == key
    }

    /// The position of the configuration entry with this key.
    pub open spec fn config_idx(self, key: Seq<char>) -> int {
        choose|i: int| 0 <= i < self.config.len() && self.config[i].0 == key
    }

    /// The value of the configuration entry with this key.
    pub open spec fn config_val(self, key: Seq<char>) -> Seq<char> {
        self.config[self.config_idx(key)].1
    }

    /// The same store with another issue sequence.
    pub open spec fn with_issues(self, issues: Seq<IssueV>) -> StoreV {
        StoreV { issues, ..self }
    }

    /// The same store with another edge sequence.
    pub open spec fn with_edges(self, edges: Seq<(i64, i64)>) -> StoreV {
        StoreV { edges, ..self }
    }

    /// Everything but the issue sequence agrees with `other`.
    pub open spec fn same_but_issues(self, other: StoreV) -> bool {
        &&& self.edges == other.edges
        &&& self.notes == other.notes
        &&& self.config == other.config
        &&& self.next_issue_id == other.next_issue_id
        &&& self.next_note_id == other.next_note_id
    }

    /// Everything but the edge sequence agrees with `other`.
    pub open spec fn same_but_edges(self, other: StoreV) -> bool {
        &&& self.issues == other.issues
        &&& self.notes == other.notes
        &&& self.config == other.config
        &&& self.next_issue_id == other.next_issue_id
        &&& self.next_note_id == other.next_note_id
    }

    /// Everything but the notes and their fresh identity agrees with `other`.
    pub open spec fn same_but_notes(self, other: StoreV) -> bool {
        &&& self.issues == other.issues
        &&& self.edges == other.edges
        &&& self.config == other.config
        &&& self.next_issue_id == other.next_issue_id
    }

    /// Everything but the configuration entries agrees with `other`.
    pub open spec fn same_but_config(self, other: StoreV) -> bool {
        &&& self.issues == other.issues
        &&& self.edges == other.edges
        &&& self.notes == other.notes
        &&& self.next_issue_id == other.next_issue_id
        &&& self.next_note_id == other.next_note_id
    }
}

/// The notes attached to one issue, in insertion order.
pub open spec fn note_for(issue_id: i64) -> spec_fn(NoteV) -> bool {
    |n: NoteV| n.issue_id == issue_id
}

/// The index found for an issue identity is the index the specification names.
pub proof fn lemma_issue_idx_unique(s: StoreV, id: i64, i: int)
    requires
        s.wf(),
        0 <= i < s.issues.len(),
        s.issues[i].id == id,
    ensures
        s.has_issue(id),
        s.issue_idx(id) == i,
        s.issue(id) == s.issues[i],
{
    assert(s.has_issue(id));
    let j = s.issue_idx(id);
    if i < j {
        assert(s.issues[i].id < s.issues[j].id);
    } else if j < i {
        assert(s.issues[j].id < s.issues[i].id);
    }
}

/// The index found for a configuration key is the index the specification names.
pub proof fn lemma_config_idx_unique(s: StoreV, key: Seq<char>, i: int)
    requires
        s.wf(),
        0 <= i < s.config.len(),
        s.config[i].0 == key,
    ensures
        s.has_config(key),
        s.config_idx(key) == i,
        s.config_val(key) == s.config[i].1,
{
    assert(s.has_config(key));
    let j = s.config_idx(key);
    if i != j {
        assert(s.config[i].0 != s.config[j].0 || s.config[j].0 != s.config[i].0);
    }
}

/// Replacing one issue, keeping its identity, preserves well-formedness.
pub proof fn lemma_wf_update_issue(s0: StoreV, s1: StoreV, i: int, iv: IssueV)
    requires
        s0.wf(),
        0 <= i < s0.issues.len(),
        iv.id == s0.issues[i].id,
        s1.issues == s0.issues.update(i, iv),
        s1.notes == s0.notes,
        s1.config == s0.config,
        s1.next_issue_id == s0.next_issue_id,
        s1.next_note_id == s0.next_note_id,
    ensures
        s1.wf(),
{
    assert forall|a: int, b: int| 0 <= a < b < s1.issues.len() implies s1.issues[a].id
        < s1.issues[b].id by {
        assert(s0.issues[a].id < s0.issues[b].id);
    }
    assert forall|a: int| 0 <= a < s1.issues.len() implies (#[trigger] s1.issues[a].id)
        < s1.next_issue_id by {
        assert(s0.issues[a].id < s0.next_issue_id);
    }
}


/// After one issue is replaced by a same-identity issue, lookups behave as
/// before except at that identity.
pub proof fn lemma_lookup_after_update(s0: StoreV, s1: StoreV, id: i64, iv: IssueV)
    requires
        s0.wf(),
        s0.has_issue(id),
        iv.id == id,
        s1.issues == s0.issues.update(s0.issue_idx(id), iv),
        s1.same_but_issues(s0),
    ensures
        s1.wf(),
        forall|x: i64| s1.has_issue(x) == s0.has_issue(x),
        s1.has_issue(id) && s1.issue(id) == iv,
        forall|x: i64| s0.has_issue(x) && x != id ==> s1.issue(x) == s0.issue(x),
{
    let idx = s0.issue_idx(id);
    assert(0 <= idx < s0.issues.len() && s0.issues[idx].id == id);
    lemma_wf_update_issue(s0, s1, idx, iv);
    assert forall|x: i64| s1.has_issue(x) == s0.has_issue(x) by {
        if s0.has_issue(x) {
            let j = choose|j: int| 0 <= j < s0.issues.len() && s0.issues[j].id == x;
            assert(s1.issues[j].id == x);
        }
        if s1.has_issue(x) {
            let j = choose|j: int| 0 <= j < s1.issues.len() && s1.issues[j].id == x;
            assert(s0.issues[j].id == x);
        }
    }
    lemma_issue_idx_unique(s1, id, idx);
    assert forall|x: i64| s0.has_issue(x) && x != id implies s1.issue(x) == s0.issue(x) by {
        let j = choose|j: int| 0 <= j < s0.issues.len() && s0.issues[j].id == x;
        assert(j != idx);
        assert(s1.issues[j] == s0.issues[j]);
        lemma_issue_idx_unique(s0, x, j);
        lemma_issue_idx_unique(s1, x, j);
    }
}

/// After replacing the issue at the found position, the store relates to the
/// old one exactly as the specification-level update says.
pub proof fn lemma_setter_post(s0: StoreV, s1: StoreV, id: i64, i: int, iv: IssueV)
    requires
        s0.wf(),
        0 <= i < s0.issues.len(),
        s0.issues[i].id == id,
        iv.id == id,
        s1.issues == s0.issues.update(i, iv),
        s1.same_but_issues(s0),
    ensures
        s1.wf(),
        s0.has_issue(id),
        s1.issues == s0.issues.update(s0.issue_idx(id), iv),
{
    lemma_issue_idx_unique(s0, id, i);
    lemma_wf_update_issue(s0, s1, i, iv);
}

impl Store {
    /// An empty store.
    pub fn new() -> (s: Store)
        ensures
            s@.wf(),
            s@.issues.len() == 0,
            s@.edges.len() == 0,
            s@.notes.len() == 0,
            s@.config.len() == 0,
            s@.next_issue_id == 1,
            s@.next_note_id == 1,
    {
        let s = Store {
            issues: Vec::new(),
            edges: Vec::new(),
            notes: Vec::new(),
            config: Vec::new(),
            next_issue_id: 1,
            next_note_id: 1,
        };
        proof {
            assert(s@.issues =~= Seq::<IssueV>::empty());
            assert(s@.notes =~= Seq::<NoteV>::empty());
            assert(s@.config =~= Seq::<(Seq<char>, Seq<char>)>::empty());
        }
        s
    }

    /// Position of the issue with the given identity, if any.
    pub fn find_issue(&self, id: i64) -> (r: Option<usize>)
        ensures
            match r {
                Some(i) => i < self.issues.len() && self@.issues[i as int].id == id,
                None => !self@.has_issue(id),
            },
    {
        let mut i: usize = 0;
        while i < self.issues.len()
            invariant
                i <= self.issues.len(),
                forall|j: int| 0 <= j < i ==> self@.issues[j].id != id,
            decreases self.issues.len() - i,
        {
            if self.issues[i].id == id {
                return Some(i);
            }
            i = i + 1;
        }
        None
    }

    /// Whether an issue with this identity exists.
    pub fn issue_exists(&self, id: i64) -> (r: bool)
        ensures
            r == self@.has_issue(id),
    {
        self.find_issue(id).is_some()
    }

    /// The issue with this identity, or `NotFound`.
    pub fn get_issue(&self, id: i64) -> (r: Result<Issue, NitError>)
        requires
            self@.wf(),
        ensures
            match r {
                Ok(issue) => self@.has_issue(id) && issue@ == self@.issue(id),
                Err(e) => !self@.has_issue(id) && e == NitError::NotFound(id),
            },
    {
        match self.find_issue(id) {
            Some(i) => {
                proof {
                    lemma_issue_idx_unique(self@, id, i as int);
                }
                Ok(self.issues[i].duplicate())
            },
            None => Err(NitError::NotFound(id)),
        }
    }

    /// Creates an issue with a fresh identity and appends it.
    #[verifier::rlimit(20)]
    pub fn insert_issue(
        &mut self,
        title: String,
        priority: Priority,
        kind: Kind,
        context: String,
        files: Vec<String>,
        tags: Vec<String>,
        acceptance: String,
        parent_id: Option<i64>,
        now: String,
    ) -> (r: Issue)
        requires
            old(self)@.wf(),
            old(self).next_issue_id < i64::MAX,
        ensures
            final(self)@.wf(),
            r.id == old(self)@.next_issue_id,
            r@.title == title@,
            r@.status == Status::Open,
            r@.priority == priority,
            r@.kind == kind,
            r@.context == context@,
            r@.files == files.deep_view(),
            r@.tags == tags.deep_view(),
            r@.acceptance == acceptance@,
            r@.parent_id == parent_id,
            r@.close_reason.len() == 0,
            r@.created_at == now@,
            r@.updated_at == now@,
            final(self)@.issues == old(self)@.issues.push(r@),
            final(self)@.edges == old(self)@.edges,
            final(self)@.notes == old(self)@.notes,
            final(self)@.config == old(self)@.config,
            final(self)@.next_issue_id == old(self)@.next_issue_id + 1,
            final(self)@.next_note_id == old(self)@.next_note_id,
            final(self)@.has_issue(r.id) && final(self)@.issue(r.id) == r@,
    {
        let issue = Issue {
            id: self.next_issue_id,
            title,
            status: Status::Open,
            priority,
            kind,
            context,
            files,
            tags,
            acceptance,
            parent_id,
            close_reason: String::new(),
            created_at: now.clone(),
            updated_at: now,
        };
        let r = issue.duplicate();
        let ghost s0 = self@;
        self.issues.push(issue);
        self.next_issue_id = self.next_issue_id + 1;
        proof {
            assert(self@.issues =~= s0.issues.push(r@));
            assert forall|a: int, b: int| 0 <= a < b < self@.issues.len() implies self@.issues[a].id
                < self@.issues[b].id by {
                if b < s0.issues.len() {
                    assert(s0.issues[a].id < s0.issues[b].id);
                } else {
                    assert(s0.issues[a].id < s0.next_issue_id);
                }
            }
            assert forall|a: int| 0 <= a < self@.issues.len() implies (#[trigger] self@.issues[a].id)
                < self@.next_issue_id by {
                if a < s0.issues.len() {
                    assert(s0.issues[a].id < s0.next_issue_id);
                }
            }
            assert(self@.notes == s0.notes);
            assert(self@.config == s0.config);
            assert(self@.wf());
            lemma_issue_idx_unique(self@, r.id, s0.issues.len() as int);
        }
        r
    }


    /// Sets the status of the issue, refreshing its update time.
    pub fn set_status(&mut self, id: i64, status: Status, now: &str) -> (r: Result<(), NitError>)
        requires
            old(self)@.wf(),
        ensures
            final(self)@.wf(),
            match r {
                Ok(()) => {
                    &&& old(self)@.has_issue(id)
                    &&& final(self)@.same_but_issues(old(self)@)
                    &&& final(self)@.issues == old(self)@.issues.update(
                        old(self)@.issue_idx(id),
                        old(self)@.issue(id).with_status(status, now@),
                    )
                },
                Err(e) => {
                    &&& !old(self)@.has_issue(id)
                    &&& e == NitError::NotFound(id)
                    &&& final(self)@ == old(self)@
                },
            },
    {
        match self.find_issue(id) {
            Some(i) => {
                let ghost s0 = self@;
                proof {
                    lemma_issue_idx_unique(s0, id, i as int);
                }
                let mut issue = self.issues[i].duplicate();
                issue.status = status;
                issue.updated_at = String::from_str(now);
                let ghost iv = issue@;
                proof {
                    assert(iv =~= s0.issue(id).with_status(status, now@));
                }
                self.replace_issue_at(i, issue);
                proof {
                    lemma_setter_post(s0, self@, id, i as int, iv);
                }
                Ok(())
            },
            None => Err(NitError::NotFound(id)),
        }
    }

    /// Sets the priority of the issue, refreshing its update time.
    pub fn set_priority(&mut self, id: i64, priority: Priority, now: &str) -> (r: Result<(), NitError>)
        requires
            old(self)@.wf(),
        ensures
            final(self)@.wf(),
            match r {
                Ok(()) => {
                    &&& old(self)@.has_issue(id)
                    &&& final(self)@.same_but_issues(old(self)@)
                    &&& final(self)@.issues == old(self)@.issues.update(
                        old(self)@.issue_idx(id),
                        old(self)@.issue(id).with_priority(priority, now@),
                    )
                },
                Err(e) => {
                    &&& !old(self)@.has_issue(id)
                    &&& e == NitError::NotFound(id)
                    &&& final(self)@ == old(self)@
                },
            },
    {
        match self.find_issue(id) {
            Some(i) => {
                let ghost s0 = self@;
                proof {
                    lemma_issue_idx_unique(s0, id, i as int);
                }
                let mut issue = self.issues[i].duplicate();
                issue.priority = priority;
                issue.updated_at = String::from_str(now);
                let ghost iv = issue@;
                proof {
                    assert(iv =~= s0.issue(id).with_priority(priority, now@));
                }
                self.replace_issue_at(i, issue);
                proof {
                    lemma_setter_post(s0, self@, id, i as int, iv);
                }
                Ok(())
            },
            None => Err(NitError::NotFound(id)),
        }
    }

    /// Sets the kind of the issue, refreshing its update time.
    pub fn set_kind(&mut self, id: i64, kind: Kind, now: &str) -> (r: Result<(), NitError>)
        requires
            old(self)@.wf(),
        ensures
            final(self)@.wf(),
            match r {
                Ok(()) => {
                    &&& old(self)@.has_issue(id)
                    &&& final(self)@.same_but_issues(old(self)@)
                    &&& final(self)@.issues == old(self)@.issues.update(
                        old(self)@.issue_idx(id),
                        old(self)@.issue(id).with_kind(kind, now@),
                    )
                },
                Err(e) => {
                    &&& !old(self)@.has_issue(id)
                    &&& e == NitError::NotFound(id)
                    &&& final(self)@ == old(self)@
                },
            },
    {
        match self.find_issue(id) {
            Some(i) => {
                let ghost s0 = self@;
                proof {
                    lemma_issue_idx_unique(s0, id, i as int);
                }
                let mut issue = self.issues[i].duplicate();
                issue.kind = kind;
                issue.updated_at = String::from_str(now);
                let ghost iv = issue@;
                proof {
                    assert(iv =~= s0.issue(id).with_kind(kind, now@));
                }
                self.replace_issue_at(i, issue);
                proof {
                    lemma_setter_post(s0, self@, id, i as int, iv);
                }
                Ok(())
            },
            None => Err(NitError::NotFound(id)),
        }
    }

    /// Sets the title of the issue, refreshing its update time.
    pub fn set_title(&mut self, id: i64, title: String, now: &str) -> (r: Result<(), NitError>)
        requires
            old(self)@.wf(),
        ensures
            final(self)@.wf(),
            match r {
                Ok(()) => {
                    &&& old(self)@.has_issue(id)
                    &&& final(self)@.same_but_issues(old(self)@)
                    &&& final(self)@.issues == old(self)@.issues.update(
                        old(self)@.issue_idx(id),
                        old(self)@.issue(id).with_title(title@, now@),
                    )
                },
                Err(e) => {
                    &&& !old(self)@.has_issue(id)
                    &&& e == NitError::NotFound(id)
                    &&& final(self)@ == old(self)@
                },
            },
    {
        match self.find_issue(id) {
            Some(i) => {
                let ghost s0 = self@;
                proof {
                    lemma_issue_idx_unique(s0, id, i as int);
                }
                let mut issue = self.issues[i].duplicate();
                issue.title = title;
                issue.updated_at = String::from_str(now);
                let ghost iv = issue@;
                proof {
                    assert(iv =~= s0.issue(id).with_title(title@, now@));
                }
                self.replace_issue_at(i, issue);
                proof {
                    lemma_setter_post(s0, self@, id, i as int, iv);
                }
                Ok(())
            },
            None => Err(NitError::NotFound(id)),
        }
    }

    /// Sets the context text of the issue, refreshing its update time.
    pub fn set_context(&mut self, id: i64, context: String, now: &str) -> (r: Result<(), NitError>)
        requires
            old(self)@.wf(),
        ensures
            final(self)@.wf(),
            match r {
                Ok(()) => {
                    &&& old(self)@.has_issue(id)
                    &&& final(self)@.same_but_issues(old(self)@)
                    &&& final(self)@.issues == old(self)@.issues.update(
                        old(self)@.issue_idx(id),
                        old(self)@.issue(id).with_context(context@, now@),
                    )
                },
                Err(e) => {
                    &&& !old(self)@.has_issue(id)
                    &&& e == NitError::NotFound(id)
                    &&& final(self)@ == old(self)@
                },
            },
    {
        match self.find_issue(id) {
            Some(i) => {
                let ghost s0 = self@;
                proof {
                    lemma_issue_idx_unique(s0, id, i as int);
                }
                let mut issue = self.issues[i].duplicate();
                issue.context = context;
                issue.updated_at = String::from_str(now);
                let ghost iv = issue@;
                proof {
                    assert(iv =~= s0.issue(id).with_context(context@, now@));
                }
                self.replace_issue_at(i, issue);
                proof {
                    lemma_setter_post(s0, self@, id, i as int, iv);
                }
                Ok(())
            },
            None => Err(NitError::NotFound(id)),
        }
    }

    /// Sets the acceptance criteria of the issue, refreshing its update time.
    pub fn set_acceptance(&mut self, id: i64, acceptance: String, now: &str) -> (r: Result<(), NitError>)
        requires
            old(self)@.wf(),
        ensures
            final(self)@.wf(),
            match r {
                Ok(()) => {
                    &&& old(self)@.has_issue(id)
                    &&& final(self)@.same_but_issues(old(self)@)
                    &&& final(self)@.issues == old(self)@.issues.update(
                        old(self)@.issue_idx(id),
                        old(self)@.issue(id).with_acceptance(acceptance@, now@),
                    )
                },
                Err(e) => {
                    &&& !old(self)@.has_issue(id)
                    &&& e == NitError::NotFound(id)
                    &&& final(self)@ == old(self)@
                },
            },
    {
        match self.find_issue(id) {
            Some(i) => {
                let ghost s0 = self@;
                proof {
                    lemma_issue_idx_unique(s0, id, i as int);
                }
                let mut issue = self.issues[i].duplicate();
                issue.acceptance = acceptance;
                issue.updated_at = String::from_str(now);
                let ghost iv = issue@;
                proof {
                    assert(iv =~= s0.issue(id).with_acceptance(acceptance@, now@));
                }
                self.replace_issue_at(i, issue);
                proof {
                    lemma_setter_post(s0, self@, id, i as int, iv);
                }
                Ok(())
            },
            None => Err(NitError::NotFound(id)),
        }
    }

    /// Sets the close reason of the issue, refreshing its update time.
    pub fn set_close_reason(&mut self, id: i64, reason: String, now: &str) -> (r: Result<(), NitError>)
        requires
            old(self)@.wf(),
        ensures
            final(self)@.wf(),
            match r {
                Ok(()) => {
                    &&& old(self)@.has_issue(id)
                    &&& final(self)@.same_but_issues(old(self)@)
                    &&& final(self)@.issues == old(self)@.issues.update(
                        old(self)@.issue_idx(id),
                        old(self)@.issue(id).with_close_reason(reason@, now@),
                    )
                },
                Err(e) => {
                    &&& !old(self)@.has_issue(id)
                    &&& e == NitError::NotFound(id)
                    &&& final(self)@ == old(self)@
                },
            },
    {
        match self.find_issue(id) {
            Some(i) => {
                let ghost s0 = self@;
                proof {
                    lemma_issue_idx_unique(s0, id, i as int);
                }
                let mut issue = self.issues[i].duplicate();
                issue.close_reason = reason;
                issue.updated_at = String::from_str(now);
                let ghost iv = issue@;
                proof {
                    assert(iv =~= s0.issue(id).with_close_reason(reason@, now@));
                }
                self.replace_issue_at(i, issue);
                proof {
                    lemma_setter_post(s0, self@, id, i as int, iv);
                }
                Ok(())
            },
            None => Err(NitError::NotFound(id)),
        }
    }

    /// Replaces the files list of the issue, refreshing its update time.
    pub fn set_files(&mut self, id: i64, files: Vec<String>, now: &str) -> (r: Result<(), NitError>)
        requires
            old(self)@.wf(),
        ensures
            final(self)@.wf(),
            match r {
                Ok(()) => {
                    &&& old(self)@.has_issue(id)
                    &&& final(self)@.same_but_issues(old(self)@)
                    &&& final(self)@.issues == old(self)@.issues.update(
                        old(self)@.issue_idx(id),
                        old(self)@.issue(id).with_files(files.deep_view(), now@),
                    )
                },
                Err(e) => {
                    &&& !old(self)@.has_issue(id)
                    &&& e == NitError::NotFound(id)
                    &&& final(self)@ == old(self)@
                },
            },
    {
        match self.find_issue(id) {
            Some(i) => {
                let ghost s0 = self@;
                proof {
                    lemma_issue_idx_unique(s0, id, i as int);
                }
                let mut issue = self.issues[i].duplicate();
                issue.files = files;
                issue.updated_at = String::from_str(now);
                let ghost iv = issue@;
                proof {
                    assert(iv =~= s0.issue(id).with_files(iv.files, now@));
                }
                self.replace_issue_at(i, issue);
                proof {
                    lemma_setter_post(s0, self@, id, i as int, iv);
                }
                Ok(())
            },
            None => Err(NitError::NotFound(id)),
        }
    }

    /// Replaces the tags list of the issue, refreshing its update time.
    pub fn set_tags(&mut self, id: i64, tags: Vec<String>, now: &str) -> (r: Result<(), NitError>)
        requires
            old(self)@.wf(),
        ensures
            final(self)@.wf(),
            match r {
                Ok(()) => {
                    &&& old(self)@.has_issue(id)
                    &&& final(self)@.same_but_issues(old(self)@)
                    &&& final(self)@.issues == old(self)@.issues.update(
                        old(self)@.issue_idx(id),
                        old(self)@.issue(id).with_tags(tags.deep_view(), now@),
                    )
                },
                Err(e) => {
                    &&& !old(self)@.has_issue(id)
                    &&& e == NitError::NotFound(id)
                    &&& final(self)@ == old(self)@
                },
            },
    {
        match self.find_issue(id) {
            Some(i) => {
                let ghost s0 = self@;
                proof {
                    lemma_issue_idx_unique(s0, id, i as int);
                }
                let mut issue = self.issues[i].duplicate();
                issue.tags = tags;
                issue.updated_at = String::from_str(now);
                let ghost iv = issue@;
                proof {
                    assert(iv =~= s0.issue(id).with_tags(iv.tags, now@));
                }
                self.replace_issue_at(i, issue);
                proof {
                    lemma_setter_post(s0, self@, id, i as int, iv);
                }
                Ok(())
            },
            None => Err(NitError::NotFound(id)),
        }
    }

    /// Sets or clears the parent epic of the issue, refreshing its update time.
    pub fn update_issue_parent(&mut self, id: i64, parent_id: Option<i64>, now: &str) -> (r: Result<
        (),
        NitError,
    >)
        requires
            old(self)@.wf(),
        ensures
            final(self)@.wf(),
            match r {
                Ok(()) => {
                    &&& old(self)@.has_issue(id)
                    &&& final(self)@.same_but_issues(old(self)@)
                    &&& final(self)@.issues == old(self)@.issues.update(
                        old(self)@.issue_idx(id),
                        old(self)@.issue(id).with_parent(parent_id, now@),
                    )
                },
                Err(e) => {
                    &&& !old(self)@.has_issue(id)
                    &&& e == NitError::NotFound(id)
                    &&& final(self)@ == old(self)@
                },
            },
    {
        match self.find_issue(id) {
            Some(i) => {
                let ghost s0 = self@;
                proof {
                    lemma_issue_idx_unique(s0, id, i as int);
                }
                let mut issue = self.issues[i].duplicate();
                issue.parent_id = parent_id;
                issue.updated_at = String::from_str(now);
                let ghost iv = issue@;
                proof {
                    assert(iv =~= s0.issue(id).with_parent(parent_id, now@));
                }
                self.replace_issue_at(i, issue);
                proof {
                    lemma_setter_post(s0, self@, id, i as int, iv);
                }
                Ok(())
            },
            None => Err(NitError::NotFound(id)),
        }
    }


    /// Whether the store satisfies its well-formedness invariant; callers that
    /// assemble a store from external data check this before driving it.
    pub fn is_wf(&self) -> (r: bool)
        ensures
            r == self@.wf(),
    {
        if self.next_issue_id < 1 || self.next_note_id < 1 {
            return false;
        }
        let mut i: usize = 0;
        while i < self.issues.len()
            invariant
                i <= self.issues.len(),
                1 <= self.next_issue_id,
                forall|a: int, b: int|
                    0 <= a < b < i ==> self@.issues[a].id < self@.issues[b].id,
                forall|a: int| 0 <= a < i ==> (#[trigger] self@.issues[a].id) < self.next_issue_id,
            decreases self.issues.len() - i,
        {
            if self.issues[i].id >= self.next_issue_id {
                proof {
                    if self@.wf() {
                        assert(self@.issues[i as int].id < self@.next_issue_id);
                    }
                }
                return false;
            }
            if i > 0 && self.issues[i - 1].id >= self.issues[i].id {
                proof {
                    if self@.wf() {
                        assert(self@.issues[i - 1].id < self@.issues[i as int].id);
                    }
                }
                return false;
            }
            proof {
                assert forall|a: int, b: int| 0 <= a < b < i + 1 implies self@.issues[a].id
                    < self@.issues[b].id by {
                    if b < i {
                    } else {
                        assert(b == i);
                        if a < i - 1 {
                            assert(self@.issues[a].id < self@.issues[i - 1].id);
                        }
                    }
                }
            }
            i = i + 1;
        }
        let mut i: usize = 0;
        while i < self.notes.len()
            invariant
                i <= self.notes.len(),
                1 <= self.next_note_id,
                forall|a: int, b: int| 0 <= a < b < i ==> self@.notes[a].id < self@.notes[b].id,
                forall|a: int| 0 <= a < i ==> (#[trigger] self@.notes[a].id) < self.next_note_id,
            decreases self.notes.len() - i,
        {
            if self.notes[i].id >= self.next_note_id {
                proof {
                    if self@.wf() {
                        assert(self@.notes[i as int].id < self@.next_note_id);
                    }
                }
                return false;
            }
            if i > 0 && self.notes[i - 1].id >= self.notes[i].id {
                proof {
                    if self@.wf() {
                        assert(self@.notes[i - 1].id < self@.notes[i as int].id);
                    }
                }
                return false;
            }
            proof {
                assert forall|a: int, b: int| 0 <= a < b < i + 1 implies self@.notes[a].id
                    < self@.notes[b].id by {
                    if b < i {
                    } else {
                        assert(b == i);
                        if a < i - 1 {
                            assert(self@.notes[a].id < self@.notes[i - 1].id);
                        }
                    }
                }
            }
            i = i + 1;
        }
        let mut i: usize = 0;
        while i < self.config.len()
            invariant
                i <= self.config.len(),
                forall|a: int, b: int| 0 <= a < b < i ==> self@.config[a].0 != self@.config[b].0,
            decreases self.config.len() - i,
        {
            let mut j: usize = 0;
            while j < i
                invariant
                    j <= i < self.config.len(),
                    forall|a: int| 0 <= a < j ==> self@.config[a].0 != self@.config[i as int].0,
                decreases i - j,
            {
                if str_eq(self.config[j].0.as_str(), self.config[i].0.as_str()) {
                    proof {
                        assert(self@.config[j as int].0 == self@.config[i as int].0);
                        if self@.wf() {
                            assert(self@.config[j as int].0 != self@.config[i as int].0);
                        }
                    }
                    return false;
                }
                j = j + 1;
            }
            proof {
                assert forall|a: int, b: int| 0 <= a < b < i + 1 implies self@.config[a].0
                    != self@.config[b].0 by {
                    if b < i {
                    }
                }
            }
            i = i + 1;
        }
        true
    }

    /// Replaces the issue at a position, leaving everything else unchanged.
    fn replace_issue_at(&mut self, i: usize, issue: Issue)
        requires
            i < old(self).issues.len(),
        ensures
            final(self)@.issues == old(self)@.issues.update(i as int, issue@),
            final(self)@.edges == old(self)@.edges,
            final(self)@.notes == old(self)@.notes,
            final(self)@.config == old(self)@.config,
            final(self)@.next_issue_id == old(self)@.next_issue_id,
            final(self)@.next_note_id == old(self)@.next_note_id,
    {
        let ghost s0 = self@;
        self.issues.set(i, issue);
        proof {
            assert(self@.issues =~= s0.issues.update(i as int, issue@));
        }
    }

    /// Appends a note to an issue.
    pub fn add_note(&mut self, issue_id: i64, content: String, agent: String, now: String) -> (r:
        Result<Note, NitError>)
        requires
            old(self)@.wf(),
            old(self).next_note_id < i64::MAX,
        ensures
            final(self)@.wf(),
            match r {
                Ok(note) => {
                    &&& old(self)@.has_issue(issue_id)
                    &&& note@.id == old(self)@.next_note_id
                    &&& note@.issue_id == issue_id
                    &&& note@.content == content@
                    &&& note@.agent == agent@
                    &&& note@.created_at == now@
                    &&& final(self)@.same_but_notes(old(self)@)
                    &&& final(self)@.notes == old(self)@.notes.push(note@)
                    &&& final(self)@.next_note_id == old(self)@.next_note_id + 1
                },
                Err(e) => {
                    &&& !old(self)@.has_issue(issue_id)
                    &&& e == NitError::NotFound(issue_id)
                    &&& final(self)@ == old(self)@
                },
            },
    {
        if !self.issue_exists(issue_id) {
            return Err(NitError::NotFound(issue_id));
        }
        let note = Note { id: self.next_note_id, issue_id, content, agent, created_at: now };
        let r = note.duplicate();
        let ghost s0 = self@;
        self.notes.push(note);
        self.next_note_id = self.next_note_id + 1;
        proof {
            assert(self@.notes =~= s0.notes.push(r@));
            assert forall|a: int, b: int| 0 <= a < b < self@.notes.len() implies self@.notes[a].id
                < self@.notes[b].id by {
                if b < s0.notes.len() {
                    assert(s0.notes[a].id < s0.notes[b].id);
                } else {
                    assert(s0.notes[a].id < s0.next_note_id);
                }
            }
            assert forall|a: int| 0 <= a < self@.notes.len() implies (#[trigger] self@.notes[a].id)
                < self@.next_note_id by {
                if a < s0.notes.len() {
                    assert(s0.notes[a].id < s0.next_note_id);
                }
            }
            assert(self@.issues == s0.issues);
            assert(self@.config == s0.config);
            assert(self@.wf());
        }
        Ok(r)
    }

    /// The notes attached to an issue, in insertion order.
    pub fn get_notes(&self, issue_id: i64) -> (r: Vec<Note>)
        ensures
            r.deep_view() == self@.notes.filter(note_for(issue_id)),
    {
        let mut r: Vec<Note> = Vec::new();
        let mut i: usize = 0;
        while i < self.notes.len()
            invariant
                i <= self.notes.len(),
                r.deep_view() == self@.notes.subrange(0, i as int).filter(note_for(issue_id)),
            decreases self.notes.len() - i,
        {
            proof {
                lemma_filter_step(self@.notes, note_for(issue_id), i as int);
            }
            if self.notes[i].issue_id == issue_id {
                let ghost r0 = r.deep_view();
                let note = self.notes[i].duplicate();
                let ghost nv = note@;
                r.push(note);
                proof {
                    assert(r.deep_view() =~= r0.push(nv));
                }
            }
            i = i + 1;
        }
        proof {
            lemma_subrange_full(self@.notes);
        }
        r
    }

    /// How many notes an issue has.
    pub fn count_notes(&self, issue_id: i64) -> (r: usize)
        ensures
            r == self@.notes.filter(note_for(issue_id)).len(),
    {
        let notes = self.get_notes(issue_id);
        notes.len()
    }

    /// The configured value for a key, if any.
    pub fn config_get(&self, key: &str) -> (r: Option<String>)
        requires
            self@.wf(),
        ensures
            match r {
                Some(v) => self@.has_config(key@) && v@ == self@.config_val(key@),
                None => !self@.has_config(key@),
            },
    {
        let mut i: usize = 0;
        while i < self.config.len()
            invariant
                i <= self.config.len(),
                self@.wf(),
                forall|j: int| 0 <= j < i ==> self@.config[j].0 != key@,
            decreases self.config.len() - i,
        {
            if str_eq(self.config[i].0.as_str(), key) {
                proof {
                    lemma_config_idx_unique(self@, key@, i as int);
                }
                return Some(self.config[i].1.clone());
            }
            i = i + 1;
        }
        None
    }

    /// Sets a configuration entry, replacing the value of an existing key.
    pub fn config_set(&mut self, key: &str, value: &str)
        requires
            old(self)@.wf(),
        ensures
            final(self)@.wf(),
            final(self)@.same_but_config(old(self)@),
            old(self)@.has_config(key@) ==> final(self)@.config == old(self)@.config.update(
                old(self)@.config_idx(key@),
                (key@, value@),
            ),
            !old(self)@.has_config(key@) ==> final(self)@.config == old(self)@.config.push(
                (key@, value@),
            ),
    {
        let mut i: usize = 0;
        while i < self.config.len()
            invariant
                i <= self.config.len(),
                self@ == old(self)@,
                self@.wf(),
                forall|j: int| 0 <= j < i ==> self@.config[j].0 != key@,
            decreases self.config.len() - i,
        {
            if str_eq(self.config[i].0.as_str(), key) {
                let ghost s0 = self@;
                proof {
                    lemma_config_idx_unique(s0, key@, i as int);
                }
                self.config.set(i, (String::from_str(key), String::from_str(value)));
                proof {
                    assert(self@.config =~= s0.config.update(i as int, (key@, value@)));
                    assert forall|a: int, b: int| 0 <= a < b < self@.config.len() implies self@
                        .config[a].0 != self@.config[b].0 by {
                        assert(s0.config[a].0 != s0.config[b].0);
                        if a == i {
                            assert(s0.config[a].0 == key@);
                        }
                        if b == i {
                            assert(s0.config[b].0 == key@);
                        }
                    }
                    assert(self@.issues == s0.issues);
                    assert(self@.notes == s0.notes);
                    assert(self@.next_issue_id == s0.next_issue_id);
                    assert(self@.next_note_id == s0.next_note_id);
                    assert(self@.wf());
                }
                return ;
            }
            i = i + 1;
        }
        let ghost s0 = self@;
        self.config.push((String::from_str(key), String::from_str(value)));
        proof {
            assert(self@.config =~= s0.config.push((key@, value@)));
            assert forall|a: int, b: int| 0 <= a < b < self@.config.len() implies self@.config[a].0
                != self@.config[b].0 by {
                if b < s0.config.len() {
                    assert(s0.config[a].0 != s0.config[b].0);
                } else {
                    assert(s0.config[a].0 != key@);
                }
            }
            assert(self@.wf());
        }
    }

    /// All configuration entries, in storage order.
    pub fn config_list(&self) -> (r: Vec<(String, String)>)
        ensures
            spec_config_view(r@) == self@.config,
            r@.len() == self@.config.len(),
    {
        let mut r: Vec<(String, String)> = Vec::new();
        let mut i: usize = 0;
        while i < self.config.len()
            invariant
                i <= self.config.len(),
                r@.len() == i,
                forall|j: int|
                    0 <= j < i ==> r@[j].0@ == self@.config[j].0 && r@[j].1@ == self@.config[j].1,
            decreases self.config.len() - i,
        {
            r.push((self.config[i].0.clone(), self.config[i].1.clone()));
            i = i + 1;
        }
        proof {
            assert(spec_config_view(r@) =~= self@.config);
        }
        r
    }

    /// Removes every configuration entry.
    pub fn config_reset(&mut self)
        requires
            old(self)@.wf(),
        ensures
            final(self)@.wf(),
            final(self)@.same_but_config(old(self)@),
            final(self)@.config.len() == 0,
    {
        let ghost s0 = self@;
        self.config.clear();
        proof {
            assert(self@.config =~= Seq::<(Seq<char>, Seq<char>)>::empty());
            assert(self@.issues == s0.issues);
            assert(self@.notes == s0.notes);
            assert(self@.wf());
        }
    }

    /// Every issue, in identity order.
    pub fn all_issues(&self) -> (r: Vec<Issue>)
        ensures
            r.deep_view() == self@.issues,
    {
        let mut r: Vec<Issue> = Vec::new();
        let mut i: usize = 0;
        while i < self.issues.len()
            invariant
                i <= self.issues.len(),
                r@.len() == i,
                forall|j: int| 0 <= j < i ==> r@[j]@ == self@.issues[j],
            decreases self.issues.len() - i,
        {
            r.push(self.issues[i].duplicate());
            i = i + 1;
        }
        proof {
            assert(r.deep_view() =~= self@.issues);
        }
        r
    }

    /// Every dependency edge, as (blocker id, blocked id) pairs.
    pub fn all_dependencies(&self) -> (r: Vec<(i64, i64)>)
        ensures
            r@ == self@.edges,
    {
        let mut r: Vec<(i64, i64)> = Vec::new();
        let mut i: usize = 0;
        while i < self.edges.len()
            invariant
                i <= self.edges.len(),
                r@ == self@.edges.subrange(0, i as int),
            decreases self.edges.len() - i,
        {
            let e = self.edges[i];
            r.push(e);
            proof {
                assert(r@ =~= self@.edges.subrange(0, i + 1 as int));
            }
            i = i + 1;
        }
        proof {
            lemma_subrange_full(self@.edges);
        }
        r
    }

    /// Every note, in identity order.
    pub fn all_notes(&self) -> (r: Vec<Note>)
        ensures
            r.deep_view() == self@.notes,
    {
        let mut r: Vec<Note> = Vec::new();
        let mut i: usize = 0;
        while i < self.notes.len()
            invariant
                i <= self.notes.len(),
                r@.len() == i,
                forall|j: int| 0 <= j < i ==> r@[j]@ == self@.notes[j],
            decreases self.notes.len() - i,
        {
            r.push(self.notes[i].duplicate());
            i = i + 1;
        }
        proof {
            assert(r.deep_view() =~= self@.notes);
        }
        r
    }
}

} // verus!
