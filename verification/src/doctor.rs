//! The consistency auditor: batch diagnostics over the whole store, and
//! optional repair of the fixable findings.

use vstd::prelude::*;

use crate::graph::reaches;
use crate::models::IssueV;
use crate::store::{Store, StoreV};
use crate::types::{Kind, Status};
use crate::urgency::{epoch_of, spec_age_seconds};
use crate::util::{lemma_filter_step, lemma_subrange_full};

verus! {

/// Whether some issue of the sequence has this identity.
pub open spec fn issues_has(issues: Seq<IssueV>, id: i64) -> bool {
    exists|i: int| 0 <= i < issues.len() && issues[i].id == id
}

/// The issue of the sequence with this identity.
pub open spec fn issues_at(issues: Seq<IssueV>, id: i64) -> IssueV {
    issues[choose|i: int| 0 <= i < issues.len() && issues[i].id == id]
}

/// An edge referencing a missing issue on either side.
pub open spec fn orphan_edge(issues: Seq<IssueV>) -> spec_fn((i64, i64)) -> bool {
    |e: (i64, i64)| !issues_has(issues, e.0) || !issues_has(issues, e.1)
}

/// An edge both of whose issues exist.
pub open spec fn intact_edge(issues: Seq<IssueV>) -> spec_fn((i64, i64)) -> bool {
    |e: (i64, i64)| issues_has(issues, e.0) && issues_has(issues, e.1)
}

/// An edge whose blocker issue exists and has reached a terminal status but
/// was never removed.
pub open spec fn done_blocker_edge(issues: Seq<IssueV>) -> spec_fn((i64, i64)) -> bool {
    |e: (i64, i64)| issues_has(issues, e.0) && issues_at(issues, e.0).status.spec_is_terminal()
}

/// The complement of [`done_blocker_edge`].
pub open spec fn live_blocker_edge(issues: Seq<IssueV>) -> spec_fn((i64, i64)) -> bool {
    |e: (i64, i64)| !(issues_has(issues, e.0) && issues_at(issues, e.0).status.spec_is_terminal())
}

/// An issue in progress whose last update lies more than `max_days` whole
/// days before `now`.
pub open spec fn stale_issue(max_days: i64, now: i64) -> spec_fn(IssueV) -> bool {
    |iv: IssueV|
        iv.status is InProgress && spec_age_seconds(epoch_of(iv.updated_at), now) / 86400 > max_days
}

/// A non-terminal epic that no issue names as its parent.
pub open spec fn empty_epic(issues: Seq<IssueV>) -> spec_fn(IssueV) -> bool {
    |iv: IssueV|
        iv.kind is Epic && !iv.status.spec_is_terminal() && !(exists|j: int|
            0 <= j < issues.len() && (#[trigger] issues[j]).parent_id == Some(iv.id))
}

/// The dependency pairs that already sit on a cycle, first occurrence only,
/// scanned in edge order over the first `n` edges.
pub open spec fn spec_cycle_pairs(edges: Seq<(i64, i64)>, n: int) -> Seq<(i64, i64)>
    decreases n,
{
    if n <= 0 {
        Seq::empty()
    } else {
        let prev = spec_cycle_pairs(edges, n - 1);
        let e = edges[n - 1];
        if reaches(edges, e.1, e.0) && !prev.contains(e) {
            prev.push(e)
        } else {
            prev
        }
    }
}

/// One structural problem the auditor found.
#[derive(Clone, Copy, PartialEq, Eq, Structural, Debug)]
pub enum Finding {
    OrphanedDependency { blocker_id: i64, blocked_id: i64 },
    CircularDependency { blocker_id: i64, blocked_id: i64 },
    StaleInProgress { id: i64, days: i64 },
    EmptyEpic { id: i64 },
    DoneBlocker { blocker_id: i64, blocked_id: i64 },
}

impl Finding {
    /// Whether the auditor can repair this finding by itself.
    pub fn fixable(&self) -> (r: bool)
        ensures
            r == (self matches Finding::OrphanedDependency { .. } || self
                matches Finding::DoneBlocker { .. }),
    {
        match self {
            Finding::OrphanedDependency { .. } => true,
            Finding::DoneBlocker { .. } => true,
            _ => false,
        }
    }
}

/// What one audit pass found and repaired.
pub struct AuditReport {
    pub problems: Vec<Finding>,
    pub fixed_orphans: usize,
    pub fixed_done_blockers: usize,
    pub clean: bool,
}

/// The full problem list of one audit pass, in report order.
pub open spec fn spec_audit_problems(s: StoreV, max_days: i64, now: i64) -> Seq<Finding> {
    s.edges.filter(orphan_edge(s.issues)).map_values(
        |e: (i64, i64)| Finding::OrphanedDependency { blocker_id: e.0, blocked_id: e.1 },
    ) + spec_cycle_pairs(s.edges, s.edges.len() as int).map_values(
        |e: (i64, i64)| Finding::CircularDependency { blocker_id: e.0, blocked_id: e.1 },
    ) + s.issues.filter(stale_issue(max_days, now)).map_values(
        |iv: IssueV|
            Finding::StaleInProgress {
                id: iv.id,
                days: (spec_age_seconds(epoch_of(iv.updated_at), now) / 86400) as i64,
            },
    ) + s.issues.filter(empty_epic(s.issues)).map_values(
        |iv: IssueV| Finding::EmptyEpic { id: iv.id },
    ) + s.edges.filter(done_blocker_edge(s.issues)).map_values(
        |e: (i64, i64)| Finding::DoneBlocker { blocker_id: e.0, blocked_id: e.1 },
    )
}

impl Store {
    /// Whether some issue names this identity as its parent.
    fn has_child(&self, id: i64) -> (r: bool)
        ensures
            r == (exists|j: int|
                0 <= j < self@.issues.len() && (#[trigger] self@.issues[j]).parent_id == Some(id)),
    {
        let mut i: usize = 0;
        while i < self.issues.len()
            invariant
                i <= self.issues.len(),
                forall|j: int| 0 <= j < i ==> (#[trigger] self@.issues[j]).parent_id != Some(id),
            decreases self.issues.len() - i,
        {
            match self.issues[i].parent_id {
                Some(p) => {
                    if p == id {
                        proof {
                            assert((#[trigger] self@.issues[i as int]).parent_id == Some(id));
                        }
                        return true;
                    }
                },
                None => {},
            }
            i = i + 1;
        }
        false
    }

    /// Whether an issue with this identity exists, and whether it is terminal.
    fn lookup_terminal(&self, id: i64) -> (r: (bool, bool))
        requires
            self@.wf(),
        ensures
            r.0 == issues_has(self@.issues, id),
            r.0 ==> r.1 == issues_at(self@.issues, id).status.spec_is_terminal(),
    {
        match self.find_issue(id) {
            Some(i) => {
                proof {
                    crate::store::lemma_issue_idx_unique(self@, id, i as int);
                    let j = choose|j: int|
                        0 <= j < self@.issues.len() && self@.issues[j].id == id;
                    crate::store::lemma_issue_idx_unique(self@, id, j);
                }
                (true, self.issues[i].status.is_terminal())
            },
            None => {
                proof {
                    if issues_has(self@.issues, id) {
                        let j = choose|j: int|
                            0 <= j < self@.issues.len() && self@.issues[j].id == id;
                        assert(self@.has_issue(id));
                    }
                }
                (false, false)
            },
        }
    }

    /// The edges referencing a missing issue on either side.
    pub fn find_orphaned_deps(&self) -> (r: Vec<(i64, i64)>)
        requires
            self@.wf(),
        ensures
            r@ == self@.edges.filter(orphan_edge(self@.issues)),
    {
        let ghost pred = orphan_edge(self@.issues);
        let mut r: Vec<(i64, i64)> = Vec::new();
        let mut i: usize = 0;
        while i < self.edges.len()
            invariant
                i <= self.edges.len(),
                self@.wf(),
                pred == orphan_edge(self@.issues),
                r@ == self@.edges.subrange(0, i as int).filter(pred),
            decreases self.edges.len() - i,
        {
            proof {
                lemma_filter_step(self@.edges, pred, i as int);
            }
            let e = self.edges[i];
            let (b_exists, _) = self.lookup_terminal(e.0);
            let (d_exists, _) = self.lookup_terminal(e.1);
            if !b_exists || !d_exists {
                r.push(e);
                proof {
                    assert(r@ =~= self@.edges.subrange(0, i + 1 as int).filter(pred));
                }
            }
            i = i + 1;
        }
        proof {
            lemma_subrange_full(self@.edges);
        }
        r
    }

    /// Deletes every edge referencing a missing issue.
    pub fn fix_orphaned_deps(&mut self)
        requires
            old(self)@.wf(),
        ensures
            final(self)@.wf(),
            final(self)@.same_but_edges(old(self)@),
            final(self)@.edges == old(self)@.edges.filter(intact_edge(old(self)@.issues)),
    {
        let ghost s0 = self@;
        let ghost pred = intact_edge(s0.issues);
        let mut kept: Vec<(i64, i64)> = Vec::new();
        let mut i: usize = 0;
        while i < self.edges.len()
            invariant
                i <= self.edges.len(),
                self@ == s0,
                self@.wf(),
                pred == intact_edge(s0.issues),
                kept@ == s0.edges.subrange(0, i as int).filter(pred),
            decreases self.edges.len() - i,
        {
            proof {
                lemma_filter_step(s0.edges, pred, i as int);
            }
            let e = self.edges[i];
            let (b_exists, _) = self.lookup_terminal(e.0);
            let (d_exists, _) = self.lookup_terminal(e.1);
            if b_exists && d_exists {
                kept.push(e);
                proof {
                    assert(kept@ =~= s0.edges.subrange(0, i + 1 as int).filter(pred));
                }
            }
            i = i + 1;
        }
        proof {
            lemma_subrange_full(s0.edges);
        }
        self.edges = kept;
        proof {
            assert(self@.issues == s0.issues);
            assert(self@.notes == s0.notes);
            assert(self@.config == s0.config);
        }
    }

    /// One dependency pair per distinct cycle signature: every edge whose
    /// blocked side already reaches its blocker, first occurrence only.
    pub fn find_cycles(&self) -> (r: Vec<(i64, i64)>)
        ensures
            r@ == spec_cycle_pairs(self@.edges, self@.edges.len() as int),
    {
        let mut r: Vec<(i64, i64)> = Vec::new();
        let mut i: usize = 0;
        while i < self.edges.len()
            invariant
                i <= self.edges.len(),
                r@ == spec_cycle_pairs(self@.edges, i as int),
            decreases self.edges.len() - i,
        {
            let e = self.edges[i];
            if self.has_path(e.1, e.0) {
                if !contains_pair(&r, e) {
                    r.push(e);
                }
            }
            i = i + 1;
        }
        r
    }

    /// The in-progress issues whose last update lies more than `max_days`
    /// whole days in the past, as (identity, staleness in days) pairs.
    pub fn find_stuck_in_progress(&self, max_days: i64, now: i64) -> (r: Vec<(i64, i64)>)
        ensures
            r@.len() == self@.issues.filter(stale_issue(max_days, now)).len(),
            forall|j: int|
                0 <= j < r@.len() ==> {
                    let iv = self@.issues.filter(stale_issue(max_days, now))[j];
                    (#[trigger] r@[j]).0 == iv.id && r@[j].1 == spec_age_seconds(
                        epoch_of(iv.updated_at),
                        now,
                    ) / 86400
                },
    {
        let ghost pred = stale_issue(max_days, now);
        let mut r: Vec<(i64, i64)> = Vec::new();
        let mut i: usize = 0;
        while i < self.issues.len()
            invariant
                i <= self.issues.len(),
                pred == stale_issue(max_days, now),
                r@.len() == self@.issues.subrange(0, i as int).filter(pred).len(),
                forall|j: int|
                    0 <= j < r@.len() ==> {
                        let iv = self@.issues.subrange(0, i as int).filter(pred)[j];
                        (#[trigger] r@[j]).0 == iv.id && r@[j].1 == spec_age_seconds(
                            epoch_of(iv.updated_at),
                            now,
                        ) / 86400
                    },
            decreases self.issues.len() - i,
        {
            proof {
                lemma_filter_step(self@.issues, pred, i as int);
            }
            let issue = &self.issues[i];
            if issue.status == Status::InProgress {
                let days = crate::urgency::age_days(issue.updated_at.as_str(), now);
                if days > max_days {
                    r.push((issue.id, days));
                }
            }
            i = i + 1;
        }
        proof {
            lemma_subrange_full(self@.issues);
        }
        r
    }

    /// The identities of non-terminal epics that no issue names as a parent.
    pub fn find_empty_epics(&self) -> (r: Vec<i64>)
        ensures
            r@.len() == self@.issues.filter(empty_epic(self@.issues)).len(),
            forall|j: int|
                0 <= j < r@.len() ==> (#[trigger] r@[j]) == self@.issues.filter(
                    empty_epic(self@.issues),
                )[j].id,
    {
        let ghost pred = empty_epic(self@.issues);
        let mut r: Vec<i64> = Vec::new();
        let mut i: usize = 0;
        while i < self.issues.len()
            invariant
                i <= self.issues.len(),
                pred == empty_epic(self@.issues),
                r@.len() == self@.issues.subrange(0, i as int).filter(pred).len(),
                forall|j: int|
                    0 <= j < r@.len() ==> (#[trigger] r@[j]) == self@.issues.subrange(
                        0,
                        i as int,
                    ).filter(pred)[j].id,
            decreases self.issues.len() - i,
        {
            proof {
                lemma_filter_step(self@.issues, pred, i as int);
            }
            let issue = &self.issues[i];
            if (match issue.kind {
                Kind::Epic => true,
                _ => false,
            }) && !issue.status.is_terminal() && !self.has_child(issue.id) {
                r.push(issue.id);
            }
            i = i + 1;
        }
        proof {
            lemma_subrange_full(self@.issues);
        }
        r
    }

    /// The edges whose blocker issue exists and is terminal.
    pub fn find_done_blockers(&self) -> (r: Vec<(i64, i64)>)
        requires
            self@.wf(),
        ensures
            r@ == self@.edges.filter(done_blocker_edge(self@.issues)),
    {
        let ghost pred = done_blocker_edge(self@.issues);
        let mut r: Vec<(i64, i64)> = Vec::new();
        let mut i: usize = 0;
        while i < self.edges.len()
            invariant
                i <= self.edges.len(),
                self@.wf(),
                pred == done_blocker_edge(self@.issues),
                r@ == self@.edges.subrange(0, i as int).filter(pred),
            decreases self.edges.len() - i,
        {
            proof {
                lemma_filter_step(self@.edges, pred, i as int);
            }
            let e = self.edges[i];
            let (b_exists, b_terminal) = self.lookup_terminal(e.0);
            if b_exists && b_terminal {
                r.push(e);
                proof {
                    assert(r@ =~= self@.edges.subrange(0, i + 1 as int).filter(pred));
                }
            }
            i = i + 1;
        }
        proof {
            lemma_subrange_full(self@.edges);
        }
        r
    }

    /// Deletes every edge whose blocker issue exists and is terminal.
    pub fn fix_done_blockers(&mut self)
        requires
            old(self)@.wf(),
        ensures
            final(self)@.wf(),
            final(self)@.same_but_edges(old(self)@),
            final(self)@.edges == old(self)@.edges.filter(live_blocker_edge(old(self)@.issues)),
    {
        let ghost s0 = self@;
        let ghost pred = live_blocker_edge(s0.issues);
        let mut kept: Vec<(i64, i64)> = Vec::new();
        let mut i: usize = 0;
        while i < self.edges.len()
            invariant
                i <= self.edges.len(),
                self@ == s0,
                self@.wf(),
                pred == live_blocker_edge(s0.issues),
                kept@ == s0.edges.subrange(0, i as int).filter(pred),
            decreases self.edges.len() - i,
        {
            proof {
                lemma_filter_step(s0.edges, pred, i as int);
            }
            let e = self.edges[i];
            let (b_exists, b_terminal) = self.lookup_terminal(e.0);
            if !(b_exists && b_terminal) {
                kept.push(e);
                proof {
                    assert(kept@ =~= s0.edges.subrange(0, i + 1 as int).filter(pred));
                }
            }
            i = i + 1;
        }
        proof {
            lemma_subrange_full(s0.edges);
        }
        self.edges = kept;
        proof {
            assert(self@.issues == s0.issues);
            assert(self@.notes == s0.notes);
            assert(self@.config == s0.config);
        }
    }

    /// One audit pass: reports every finding against the store as it stood at
    /// entry, and with `fix` set deletes the orphaned and the terminal-blocker
    /// edges. Non-fixable findings are always reported.
    pub fn audit(&mut self, fix: bool, max_days: i64, now: i64) -> (r: AuditReport)
        requires
            old(self)@.wf(),
        ensures
            final(self)@.wf(),
            r.problems@ == spec_audit_problems(old(self)@, max_days, now),
            r.clean == (r.problems@.len() == 0),
            r.fixed_orphans == old(self)@.edges.filter(orphan_edge(old(self)@.issues)).len(),
            r.fixed_done_blockers == old(self)@.edges.filter(
                done_blocker_edge(old(self)@.issues),
            ).len(),
            !fix ==> final(self)@ == old(self)@,
            fix ==> final(self)@.same_but_edges(old(self)@) && final(self)@.edges == old(
                self,
            )@.edges.filter(intact_edge(old(self)@.issues)).filter(
                live_blocker_edge(old(self)@.issues),
            ),
    {
        let ghost s0 = self@;
        let orphans = self.find_orphaned_deps();
        let cycles = self.find_cycles();
        let stuck = self.find_stuck_in_progress(max_days, now);
        let epics = self.find_empty_epics();
        let done = self.find_done_blockers();

        let mut problems: Vec<Finding> = Vec::new();
        let mut i: usize = 0;
        while i < orphans.len()
            invariant
                i <= orphans@.len(),
                orphans@ == s0.edges.filter(orphan_edge(s0.issues)),
                problems@ == orphans@.subrange(0, i as int).map_values(
                    |e: (i64, i64)| Finding::OrphanedDependency { blocker_id: e.0, blocked_id: e.1 },
                ),
            decreases orphans@.len() - i,
        {
            let e = orphans[i];
            problems.push(Finding::OrphanedDependency { blocker_id: e.0, blocked_id: e.1 });
            proof {
                assert(problems@ =~= orphans@.subrange(0, i + 1 as int).map_values(
                    |e: (i64, i64)| Finding::OrphanedDependency { blocker_id: e.0, blocked_id: e.1 },
                ));
            }
            i = i + 1;
        }
        let ghost part1 = problems@;
        proof {
            lemma_subrange_full(orphans@);
        }
        let mut i: usize = 0;
        while i < cycles.len()
            invariant
                i <= cycles@.len(),
                cycles@ == spec_cycle_pairs(s0.edges, s0.edges.len() as int),
                problems@ == part1 + cycles@.subrange(0, i as int).map_values(
                    |e: (i64, i64)| Finding::CircularDependency { blocker_id: e.0, blocked_id: e.1 },
                ),
            decreases cycles@.len() - i,
        {
            let e = cycles[i];
            problems.push(Finding::CircularDependency { blocker_id: e.0, blocked_id: e.1 });
            proof {
                assert(problems@ =~= part1 + cycles@.subrange(0, i + 1 as int).map_values(
                    |e: (i64, i64)| Finding::CircularDependency { blocker_id: e.0, blocked_id: e.1 },
                ));
            }
            i = i + 1;
        }
        let ghost part2 = problems@;
        proof {
            lemma_subrange_full(cycles@);
        }
        let mut i: usize = 0;
        while i < stuck.len()
            invariant
                i <= stuck@.len(),
                stuck@.len() == s0.issues.filter(stale_issue(max_days, now)).len(),
                forall|j: int|
                    0 <= j < stuck@.len() ==> {
                        let iv = s0.issues.filter(stale_issue(max_days, now))[j];
                        (#[trigger] stuck@[j]).0 == iv.id && stuck@[j].1 == spec_age_seconds(
                            epoch_of(iv.updated_at),
                            now,
                        ) / 86400
                    },
                problems@ == part2 + s0.issues.filter(stale_issue(max_days, now)).subrange(
                    0,
                    i as int,
                ).map_values(
                    |iv: IssueV|
                        Finding::StaleInProgress {
                            id: iv.id,
                            days: (spec_age_seconds(epoch_of(iv.updated_at), now) / 86400) as i64,
                        },
                ),
            decreases stuck@.len() - i,
        {
            let p = stuck[i];
            problems.push(Finding::StaleInProgress { id: p.0, days: p.1 });
            proof {
                assert(problems@ =~= part2 + s0.issues.filter(stale_issue(max_days, now)).subrange(
                    0,
                    i + 1 as int,
                ).map_values(
                    |iv: IssueV|
                        Finding::StaleInProgress {
                            id: iv.id,
                            days: (spec_age_seconds(epoch_of(iv.updated_at), now) / 86400) as i64,
                        },
                ));
            }
            i = i + 1;
        }
        let ghost part3 = problems@;
        proof {
            lemma_subrange_full(s0.issues.filter(stale_issue(max_days, now)));
        }
        let mut i: usize = 0;
        while i < epics.len()
            invariant
                i <= epics@.len(),
                epics@.len() == s0.issues.filter(empty_epic(s0.issues)).len(),
                forall|j: int|
                    0 <= j < epics@.len() ==> (#[trigger] epics@[j]) == s0.issues.filter(
                        empty_epic(s0.issues),
                    )[j].id,
                problems@ == part3 + s0.issues.filter(empty_epic(s0.issues)).subrange(
                    0,
                    i as int,
                ).map_values(|iv: IssueV| Finding::EmptyEpic { id: iv.id }),
            decreases epics@.len() - i,
        {
            let id = epics[i];
            problems.push(Finding::EmptyEpic { id });
            proof {
                assert(problems@ =~= part3 + s0.issues.filter(empty_epic(s0.issues)).subrange(
                    0,
                    i + 1 as int,
                ).map_values(|iv: IssueV| Finding::EmptyEpic { id: iv.id }));
            }
            i = i + 1;
        }
        let ghost part4 = problems@;
        proof {
            lemma_subrange_full(s0.issues.filter(empty_epic(s0.issues)));
        }
        let mut i: usize = 0;
        while i < done.len()
            invariant
                i <= done@.len(),
                done@ == s0.edges.filter(done_blocker_edge(s0.issues)),
                problems@ == part4 + done@.subrange(0, i as int).map_values(
                    |e: (i64, i64)| Finding::DoneBlocker { blocker_id: e.0, blocked_id: e.1 },
                ),
            decreases done@.len() - i,
        {
            let e = done[i];
            problems.push(Finding::DoneBlocker { blocker_id: e.0, blocked_id: e.1 });
            proof {
                assert(problems@ =~= part4 + done@.subrange(0, i + 1 as int).map_values(
                    |e: (i64, i64)| Finding::DoneBlocker { blocker_id: e.0, blocked_id: e.1 },
                ));
            }
            i = i + 1;
        }
        proof {
            lemma_subrange_full(done@);
            assert(problems@ == spec_audit_problems(s0, max_days, now));
        }

        let fixed_orphans = orphans.len();
        let fixed_done = done.len();
        if fix {
            self.fix_orphaned_deps();
            let ghost s1 = self@;
            proof {
                assert(s1.issues == s0.issues);
            }
            self.fix_done_blockers();
            proof {
                assert(final(self)@.edges == s0.edges.filter(intact_edge(s0.issues)).filter(
                    live_blocker_edge(s0.issues),
                ));
            }
        }
        let clean = problems.len() == 0;
        AuditReport { problems, fixed_orphans, fixed_done_blockers: fixed_done, clean }
    }
}

/// Whether the vector holds the exact pair.
fn contains_pair(v: &Vec<(i64, i64)>, x: (i64, i64)) -> (r: bool)
    ensures
        r == v@.contains(x),
{
    let mut i: usize = 0;
    while i < v.len()
        invariant
            i <= v.len(),
            forall|j: int| 0 <= j < i ==> v@[j] != x,
        decreases v.len() - i,
    {
        let e = v[i];
        if e.0 == x.0 && e.1 == x.1 {
            proof {
                assert(v@[i as int] == x);
            }
            return true;
        }
        i = i + 1;
    }
    false
}

} // verus!
