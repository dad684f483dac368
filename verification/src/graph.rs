//! The dependency-graph engine: reachability over the blocks relation,
//! acyclicity preservation, and the blocked / blocking / newly-unblocked
//! queries.
//!
//! An edge `(blocker, blocked)` means the blocker must reach a terminal
//! status before the blocked issue counts as unblocked.

use vstd::prelude::*;
use vstd::set_lib::lemma_len_subset;

use crate::error::NitError;
use crate::store::{lemma_issue_idx_unique, Store, StoreV};
use crate::types::Status;
use crate::util::{
    lemma_filter_step, lemma_map_values_push, lemma_push_contains, lemma_push_no_duplicates,
    lemma_remove_first_contains, lemma_subrange_full, vec_contains_i64,
};

verus! {

/// Whether the edge set holds the ordered edge (a, b).
pub open spec fn edge_in(edges: Seq<(i64, i64)>, a: i64, b: i64) -> bool {
    exists|k: int| 0 <= k < edges.len() && edges[k] == (a, b)
}

/// A walk: consecutive elements are joined by edges.
pub open spec fn is_path(edges: Seq<(i64, i64)>, p: Seq<i64>) -> bool {
    forall|k: int| 0 <= k < p.len() - 1 ==> #[trigger] edge_in(edges, p[k], p[k + 1])
}

/// One edge of a walk, instantiated explicitly.
pub proof fn lemma_path_edge(edges: Seq<(i64, i64)>, p: Seq<i64>, i: int)
    requires
        is_path(edges, p),
        0 <= i < p.len() - 1,
    ensures
        edge_in(edges, p[i], p[i + 1]),
{
}

/// `to` can be reached from `from` along zero or more edges.
pub open spec fn reaches(edges: Seq<(i64, i64)>, from: i64, to: i64) -> bool {
    exists|p: Seq<i64>|
        p.len() >= 1 && (#[trigger] is_path(edges, p)) && p[0] == from && p[p.len() - 1] == to
}

/// No walk with at least one edge returns to its start.
pub open spec fn acyclic(edges: Seq<(i64, i64)>) -> bool {
    forall|p: Seq<i64>| !(p.len() >= 2 && (#[trigger] is_path(edges, p)) && p[0] == p[p.len() - 1])
}

/// Every node reaches itself.
pub proof fn lemma_reaches_refl(edges: Seq<(i64, i64)>, x: i64)
    ensures
        reaches(edges, x, x),
{
    let p = seq![x];
    assert(is_path(edges, p));
    assert(p.len() >= 1 && p[0] == x && p[p.len() - 1] == x);
}

/// Reachability extends along one more edge.
pub proof fn lemma_reaches_step(edges: Seq<(i64, i64)>, a: i64, b: i64, c: i64)
    requires
        reaches(edges, a, b),
        edge_in(edges, b, c),
    ensures
        reaches(edges, a, c),
{
    let p = choose|p: Seq<i64>|
        p.len() >= 1 && (#[trigger] is_path(edges, p)) && p[0] == a && p[p.len() - 1] == b;
    let q = p.push(c);
    assert forall|k: int| 0 <= k < q.len() - 1 implies #[trigger] edge_in(edges, q[k], q[k + 1]) by {
        if k < p.len() - 1 {
            assert(edge_in(edges, p[k], p[k + 1]));
        }
    }
    assert(is_path(edges, q));
    assert(q[0] == a && q[q.len() - 1] == c);
}

/// An edge of the set witnesses reachability of its head from its tail.
pub proof fn lemma_edge_reaches(edges: Seq<(i64, i64)>, a: i64, b: i64)
    requires
        edge_in(edges, a, b),
    ensures
        reaches(edges, a, b),
{
    lemma_reaches_refl(edges, a);
    lemma_reaches_step(edges, a, a, b);
}

/// A path over the extended edge set that never uses the new edge is a path
/// over the original set; one that uses it has a strictly shorter suffix
/// argument, so any walk from `v` to `u` over `edges + (u, v)` yields
/// reachability of `u` from `v` over `edges` alone, provided `u != v`.
proof fn lemma_path_avoiding_new_edge(edges: Seq<(i64, i64)>, u: i64, v: i64, q: Seq<i64>)
    requires
        u != v,
        q.len() >= 1,
        is_path(edges.push((u, v)), q),
        q[0] == v,
        q[q.len() - 1] == u,
    ensures
        reaches(edges, v, u),
    decreases q.len(),
{
    let e2 = edges.push((u, v));
    if exists|j: int| 0 <= j < q.len() - 1 && #[trigger] q[j] == u && q[j + 1] == v {
        let j = choose|j: int| 0 <= j < q.len() - 1 && #[trigger] q[j] == u && q[j + 1] == v;
        // q starts at v != u, so the first use of the new edge is past position 0
        // and the prefix up to it is a strictly shorter walk from v to u.
        let q0 = q.subrange(0, j + 1);
        assert(q0.len() >= 1 && q0[0] == v && q0[q0.len() - 1] == u);
        assert forall|k: int| 0 <= k < q0.len() - 1 implies #[trigger] edge_in(e2, q0[k], q0[k + 1]) by {
            lemma_path_edge(e2, q, k);
            assert(q0[k] == q[k] && q0[k + 1] == q[k + 1]);
        }
        assert(is_path(e2, q0));
        assert(q0.len() < q.len());
        lemma_path_avoiding_new_edge(edges, u, v, q0);
    } else {
        assert forall|k: int| 0 <= k < q.len() - 1 implies #[trigger] edge_in(edges, q[k], q[k + 1]) by {
            lemma_path_edge(e2, q, k);
            let m = choose|m: int| 0 <= m < e2.len() && e2[m] == (q[k], q[k + 1]);
            if m < edges.len() {
                assert(edges[m] == (q[k], q[k + 1]));
            } else {
                assert(e2[m] == (u, v));
                assert(q[k] == u && q[k + 1] == v);
            }
        }
        assert(is_path(edges, q));
    }
}

/// Adding the edge (u, v) to an acyclic edge set keeps it acyclic when `v`
/// cannot already reach `u`.
pub proof fn lemma_acyclic_extend(edges: Seq<(i64, i64)>, u: i64, v: i64)
    requires
        acyclic(edges),
        !reaches(edges, v, u),
    ensures
        acyclic(edges.push((u, v))),
{
    lemma_reaches_refl(edges, u);
    // reaches(edges, u, u) holds, so u != v would fail only if u == v; rule it out.
    assert(u != v);
    let e2 = edges.push((u, v));
    assert forall|p: Seq<i64>|
        !(p.len() >= 2 && (#[trigger] is_path(e2, p)) && p[0] == p[p.len() - 1]) by {
        if p.len() >= 2 && is_path(e2, p) && p[0] == p[p.len() - 1] {
            let n = p.len() as int;
            if exists|k: int| 0 <= k < n - 1 && #[trigger] p[k] == u && p[k + 1] == v {
                let k = choose|k: int| 0 <= k < n - 1 && #[trigger] p[k] == u && p[k + 1] == v;
                // Rotate the cycle to get a walk from v back to u.
                let q = p.subrange(k + 1, n) + p.subrange(1, k + 1);
                assert(q.len() == n - 1);
                assert(q[0] == p[k + 1]);
                if k == 0 {
                    assert(q[q.len() - 1] == p[n - 1]);
                    assert(p[n - 1] == p[0]);
                } else {
                    assert(q[q.len() - 1] == p.subrange(1, k + 1)[k - 1]);
                    assert(q[q.len() - 1] == p[k]);
                }
                let a_len = n - (k + 1);
                assert forall|m: int| 0 <= m < q.len() - 1 implies #[trigger] edge_in(e2, q[m], q[m + 1]) by {
                    if m + 1 < a_len {
                        let idx = k + 1 + m;
                        lemma_path_edge(e2, p, idx);
                        assert(q[m] == p[idx] && q[m + 1] == p[idx + 1]);
                    } else if m + 1 == a_len {
                        lemma_path_edge(e2, p, 0);
                        assert(q[m] == p[n - 1]);
                        assert(q[m + 1] == p[1]);
                        assert(p[n - 1] == p[0]);
                    } else {
                        let idx = m - a_len + 1;
                        lemma_path_edge(e2, p, idx);
                        assert(q[m] == p[idx] && q[m + 1] == p[idx + 1]);
                    }
                }
                assert(is_path(e2, q));
                lemma_path_avoiding_new_edge(edges, u, v, q);
                assert(false);
            } else {
                assert forall|m: int| 0 <= m < n - 1 implies #[trigger] edge_in(edges, p[m], p[m + 1]) by {
                    lemma_path_edge(e2, p, m);
                    let w = choose|w: int| 0 <= w < e2.len() && e2[w] == (p[m], p[m + 1]);
                    if w < edges.len() {
                        assert(edges[w] == (p[m], p[m + 1]));
                    } else {
                        assert(p[m] == u && p[m + 1] == v);
                    }
                }
                assert(is_path(edges, p));
                assert(false);
            }
        }
    }
}

/// Every node on a path out of a successor-closed node set stays in the set.
proof fn lemma_closed_set_traps_paths(edges: Seq<(i64, i64)>, vs: Seq<i64>, p: Seq<i64>)
    requires
        is_path(edges, p),
        p.len() >= 1,
        vs.contains(p[0]),
        forall|k: int|
            0 <= k < edges.len() && vs.contains(#[trigger] edges[k].0) ==> vs.contains(
                edges[k].1,
            ),
    ensures
        vs.contains(p[p.len() - 1]),
    decreases p.len(),
{
    if p.len() > 1 {
        lemma_path_edge(edges, p, 0);
        let k = choose|k: int| 0 <= k < edges.len() && edges[k] == (p[0], p[1]);
        assert(edges[k].0 == p[0]);
        assert(vs.contains(edges[k].0));
        assert(vs.contains(edges[k].1));
        let p1 = p.subrange(1, p.len() as int);
        assert forall|m: int| 0 <= m < p1.len() - 1 implies #[trigger] edge_in(edges, p1[m], p1[m + 1]) by {
            lemma_path_edge(edges, p, m + 1);
            assert(p1[m] == p[m + 1] && p1[m + 1] == p[m + 2]);
        }
        lemma_closed_set_traps_paths(edges, vs, p1);
    }
}

/// The finite universe a traversal from `start` can visit.
pub open spec fn node_universe(edges: Seq<(i64, i64)>, start: i64) -> Set<i64> {
    edges.map_values(|e: (i64, i64)| e.0).to_set().union(
        edges.map_values(|e: (i64, i64)| e.1).to_set(),
    ).insert(start)
}

proof fn lemma_universe_facts(edges: Seq<(i64, i64)>, start: i64)
    ensures
        node_universe(edges, start).finite(),
        node_universe(edges, start).contains(start),
        forall|k: int|
            0 <= k < edges.len() ==> node_universe(edges, start).contains(#[trigger] edges[k].0)
                && node_universe(edges, start).contains(edges[k].1),
{
    broadcast use vstd::seq_lib::seq_to_set_is_finite;

    let heads = edges.map_values(|e: (i64, i64)| e.0);
    let tails = edges.map_values(|e: (i64, i64)| e.1);
    assert(heads.to_set().finite());
    assert(tails.to_set().finite());
    assert forall|k: int|
        0 <= k < edges.len() implies node_universe(edges, start).contains(#[trigger] edges[k].0)
        && node_universe(edges, start).contains(edges[k].1) by {
        assert(heads[k] == edges[k].0);
        assert(heads.contains(edges[k].0));
        assert(tails[k] == edges[k].1);
        assert(tails.contains(edges[k].1));
    }
}

/// A duplicate-free vector of universe members is no longer than the universe.
proof fn lemma_visited_bound(visited: Seq<i64>, edges: Seq<(i64, i64)>, start: i64)
    requires
        visited.no_duplicates(),
        forall|x: i64| visited.contains(x) ==> node_universe(edges, start).contains(x),
    ensures
        visited.len() <= node_universe(edges, start).len(),
{
    lemma_universe_facts(edges, start);
    visited.unique_seq_to_set();
    let uni = node_universe(edges, start);
    assert(visited.to_set().subset_of(uni));
    lemma_len_subset(visited.to_set(), uni);
}

/// A live direct blocker exists: an edge into `id` whose blocker issue exists
/// and is non-terminal. Terminal-status blockers do not block.
pub open spec fn spec_is_blocked(s: StoreV, id: i64) -> bool {
    exists|k: int|
        0 <= k < s.edges.len() && (#[trigger] s.edges[k]).1 == id && s.has_issue(s.edges[k].0)
            && !s.issue(s.edges[k].0).status.spec_is_terminal()
}

/// `id` directly blocks at least one existing non-terminal issue.
pub open spec fn spec_blocks_active(s: StoreV, id: i64) -> bool {
    exists|k: int|
        0 <= k < s.edges.len() && (#[trigger] s.edges[k]).0 == id && s.has_issue(s.edges[k].1)
            && !s.issue(s.edges[k].1).status.spec_is_terminal()
}

/// A live direct blocker of `id` other than `except` exists.
pub open spec fn spec_has_other_live_blocker(s: StoreV, id: i64, except: i64) -> bool {
    exists|k: int|
        0 <= k < s.edges.len() && (#[trigger] s.edges[k]).1 == id && s.edges[k].0 != except
            && s.has_issue(s.edges[k].0) && !s.issue(s.edges[k].0).status.spec_is_terminal()
}

/// The edges into `id`.
pub open spec fn blocker_edge(id: i64) -> spec_fn((i64, i64)) -> bool {
    |e: (i64, i64)| e.1 == id
}

/// The edges out of `id`.
pub open spec fn blocking_edge(id: i64) -> spec_fn((i64, i64)) -> bool {
    |e: (i64, i64)| e.0 == id
}

/// The direct blockers of `id`, in edge order.
pub open spec fn spec_blockers(edges: Seq<(i64, i64)>, id: i64) -> Seq<i64> {
    edges.filter(blocker_edge(id)).map_values(|e: (i64, i64)| e.0)
}

/// The issues `id` directly blocks, in edge order.
pub open spec fn spec_blocking(edges: Seq<(i64, i64)>, id: i64) -> Seq<i64> {
    edges.filter(blocking_edge(id)).map_values(|e: (i64, i64)| e.1)
}

/// Every edge except the given ordered pair.
pub open spec fn not_this_edge(blocker_id: i64, blocked_id: i64) -> spec_fn((i64, i64)) -> bool {
    |e: (i64, i64)| e != (blocker_id, blocked_id)
}

/// The edges out of the closed issue whose blocked side transitions from
/// blocked to ready the moment the closed issue reaches a terminal status:
/// the blocked issue exists, is non-terminal, and has no other live blocker.
pub open spec fn newly_unblocked_edge(s: StoreV, closed_id: i64) -> spec_fn((i64, i64)) -> bool {
    |e: (i64, i64)|
        e.0 == closed_id && s.has_issue(e.1) && !s.issue(e.1).status.spec_is_terminal()
            && !spec_has_other_live_blocker(s, e.1, closed_id)
}

impl Store {

    /// Whether the exact ordered edge exists.
    fn edge_exists(&self, blocker_id: i64, blocked_id: i64) -> (r: bool)
        ensures
            r == edge_in(self@.edges, blocker_id, blocked_id),
    {
        let mut i: usize = 0;
        while i < self.edges.len()
            invariant
                i <= self.edges.len(),
                forall|k: int| 0 <= k < i ==> self@.edges[k] != (blocker_id, blocked_id),
            decreases self.edges.len() - i,
        {
            let e = self.edges[i];
            if e.0 == blocker_id && e.1 == blocked_id {
                assert(self@.edges[i as int] == (blocker_id, blocked_id));
                return true;
            }
            i = i + 1;
        }
        false
    }

    /// Adds the edge (blocker, blocked). Fails with `NotFound` when either
    /// issue is missing; succeeds as a no-op when the exact edge already
    /// exists; fails with `CycleDetected`, leaving the store unchanged, when
    /// the blocked issue already reaches the blocker. A successful insertion
    /// keeps an acyclic edge set acyclic.
    pub fn add_dependency(&mut self, blocker_id: i64, blocked_id: i64) -> (r: Result<
        bool,
        NitError,
    >)
        requires
            old(self)@.wf(),
        ensures
            final(self)@.wf(),
            match r {
                Ok(true) => {
                    &&& old(self)@.has_issue(blocker_id) && old(self)@.has_issue(blocked_id)
                    &&& !edge_in(old(self)@.edges, blocker_id, blocked_id)
                    &&& !reaches(old(self)@.edges, blocked_id, blocker_id)
                    &&& final(self)@.same_but_edges(old(self)@)
                    &&& final(self)@.edges == old(self)@.edges.push((blocker_id, blocked_id))
                    &&& acyclic(old(self)@.edges) ==> acyclic(final(self)@.edges)
                },
                Ok(false) => {
                    &&& old(self)@.has_issue(blocker_id) && old(self)@.has_issue(blocked_id)
                    &&& edge_in(old(self)@.edges, blocker_id, blocked_id)
                    &&& final(self)@ == old(self)@
                },
                Err(e) => {
                    &&& final(self)@ == old(self)@
                    &&& match e {
                        NitError::NotFound(id) => (id == blocker_id && !old(self)@.has_issue(
                            blocker_id,
                        )) || (id == blocked_id && old(self)@.has_issue(blocker_id) && !old(
                            self,
                        )@.has_issue(blocked_id)),
                        NitError::CycleDetected(_) => {
                            &&& old(self)@.has_issue(blocker_id) && old(self)@.has_issue(
                                blocked_id,
                            )
                            &&& !edge_in(old(self)@.edges, blocker_id, blocked_id)
                            &&& reaches(old(self)@.edges, blocked_id, blocker_id)
                        },
                        _ => false,
                    }
                },
            },
    {
        if !self.issue_exists(blocker_id) {
            return Err(NitError::NotFound(blocker_id));
        }
        if !self.issue_exists(blocked_id) {
            return Err(NitError::NotFound(blocked_id));
        }
        if self.edge_exists(blocker_id, blocked_id) {
            return Ok(false);
        }
        if self.has_path(blocked_id, blocker_id) {
            return Err(NitError::CycleDetected(String::from_str("dependency cycle")));
        }
        let ghost s0 = self@;
        self.edges.push((blocker_id, blocked_id));
        proof {
            assert(self@.edges =~= s0.edges.push((blocker_id, blocked_id)));
            assert(self@.issues == s0.issues);
            assert(self@.notes == s0.notes);
            assert(self@.config == s0.config);
            if acyclic(s0.edges) {
                lemma_acyclic_extend(s0.edges, blocker_id, blocked_id);
            }
        }
        Ok(true)
    }

    /// Removes the edge (blocker, blocked); absence of the edge is no error,
    /// but both issues must exist.
    pub fn remove_dependency(&mut self, blocker_id: i64, blocked_id: i64) -> (r: Result<
        (),
        NitError,
    >)
        requires
            old(self)@.wf(),
        ensures
            final(self)@.wf(),
            match r {
                Ok(()) => {
                    &&& old(self)@.has_issue(blocker_id) && old(self)@.has_issue(blocked_id)
                    &&& final(self)@.same_but_edges(old(self)@)
                    &&& final(self)@.edges == old(self)@.edges.filter(
                        not_this_edge(blocker_id, blocked_id),
                    )
                },
                Err(e) => {
                    &&& final(self)@ == old(self)@
                    &&& match e {
                        NitError::NotFound(id) => (id == blocker_id && !old(self)@.has_issue(
                            blocker_id,
                        )) || (id == blocked_id && old(self)@.has_issue(blocker_id) && !old(
                            self,
                        )@.has_issue(blocked_id)),
                        _ => false,
                    }
                },
            },
    {
        if !self.issue_exists(blocker_id) {
            return Err(NitError::NotFound(blocker_id));
        }
        if !self.issue_exists(blocked_id) {
            return Err(NitError::NotFound(blocked_id));
        }
        let ghost s0 = self@;
        let mut kept: Vec<(i64, i64)> = Vec::new();
        let mut i: usize = 0;
        while i < self.edges.len()
            invariant
                i <= self.edges.len(),
                self@ == s0,
                kept@ == s0.edges.subrange(0, i as int).filter(
                    not_this_edge(blocker_id, blocked_id),
                ),
            decreases self.edges.len() - i,
        {
            proof {
                lemma_filter_step(s0.edges, not_this_edge(blocker_id, blocked_id), i as int);
            }
            let e = self.edges[i];
            if !(e.0 == blocker_id && e.1 == blocked_id) {
                kept.push(e);
            }
            i = i + 1;
        }
        proof {
            lemma_subrange_full(s0.edges);
        }
        self.edges = kept;
        proof {
            assert(self@.issues == s0.issues);
            assert(self@.notes == s0.notes);
            assert(self@.config == s0.config);
        }
        Ok(())
    }

    /// The identities that directly block the issue, in edge order.
    pub fn get_blockers(&self, issue_id: i64) -> (r: Vec<i64>)
        ensures
            r@ == spec_blockers(self@.edges, issue_id),
    {
        let mut r: Vec<i64> = Vec::new();
        let mut i: usize = 0;
        while i < self.edges.len()
            invariant
                i <= self.edges.len(),
                r@ == spec_blockers(self@.edges.subrange(0, i as int), issue_id),
            decreases self.edges.len() - i,
        {
            proof {
                lemma_filter_step(self@.edges, blocker_edge(issue_id), i as int);
                lemma_map_values_push(
                    self@.edges.subrange(0, i as int).filter(blocker_edge(issue_id)),
                    |e: (i64, i64)| e.0,
                    self@.edges[i as int],
                );
            }
            let e = self.edges[i];
            if e.1 == issue_id {
                r.push(e.0);
            }
            i = i + 1;
        }
        proof {
            lemma_subrange_full(self@.edges);
        }
        r
    }

    /// The identities the issue directly blocks, in edge order.
    pub fn get_blocking(&self, issue_id: i64) -> (r: Vec<i64>)
        ensures
            r@ == spec_blocking(self@.edges, issue_id),
    {
        let mut r: Vec<i64> = Vec::new();
        let mut i: usize = 0;
        while i < self.edges.len()
            invariant
                i <= self.edges.len(),
                r@ == spec_blocking(self@.edges.subrange(0, i as int), issue_id),
            decreases self.edges.len() - i,
        {
            proof {
                lemma_filter_step(self@.edges, blocking_edge(issue_id), i as int);
                lemma_map_values_push(
                    self@.edges.subrange(0, i as int).filter(blocking_edge(issue_id)),
                    |e: (i64, i64)| e.1,
                    self@.edges[i as int],
                );
            }
            let e = self.edges[i];
            if e.0 == issue_id {
                r.push(e.1);
            }
            i = i + 1;
        }
        proof {
            lemma_subrange_full(self@.edges);
        }
        r
    }

    /// Whether at least one live (existing, non-terminal) blocker exists.
    pub fn is_blocked(&self, issue_id: i64) -> (r: bool)
        requires
            self@.wf(),
        ensures
            r == spec_is_blocked(self@, issue_id),
    {
        let mut i: usize = 0;
        while i < self.edges.len()
            invariant
                i <= self.edges.len(),
                self@.wf(),
                forall|k: int|
                    0 <= k < i ==> !((#[trigger] self@.edges[k]).1 == issue_id && self@.has_issue(
                        self@.edges[k].0,
                    ) && !self@.issue(self@.edges[k].0).status.spec_is_terminal()),
            decreases self.edges.len() - i,
        {
            let e = self.edges[i];
            if e.1 == issue_id {
                match self.find_issue(e.0) {
                    Some(j) => {
                        proof {
                            lemma_issue_idx_unique(self@, e.0, j as int);
                        }
                        if !self.issues[j].status.is_terminal() {
                            assert((#[trigger] self@.edges[i as int]).1 == issue_id);
                            return true;
                        }
                    },
                    None => {},
                }
            }
            i = i + 1;
        }
        false
    }

    /// Whether the issue directly blocks at least one existing non-terminal
    /// issue.
    pub fn blocks_active_issues(&self, issue_id: i64) -> (r: bool)
        requires
            self@.wf(),
        ensures
            r == spec_blocks_active(self@, issue_id),
    {
        let mut i: usize = 0;
        while i < self.edges.len()
            invariant
                i <= self.edges.len(),
                self@.wf(),
                forall|k: int|
                    0 <= k < i ==> !((#[trigger] self@.edges[k]).0 == issue_id && self@.has_issue(
                        self@.edges[k].1,
                    ) && !self@.issue(self@.edges[k].1).status.spec_is_terminal()),
            decreases self.edges.len() - i,
        {
            let e = self.edges[i];
            if e.0 == issue_id {
                match self.find_issue(e.1) {
                    Some(j) => {
                        proof {
                            lemma_issue_idx_unique(self@, e.1, j as int);
                        }
                        if !self.issues[j].status.is_terminal() {
                            assert((#[trigger] self@.edges[i as int]).0 == issue_id);
                            return true;
                        }
                    },
                    None => {},
                }
            }
            i = i + 1;
        }
        false
    }

    /// Whether the issue has a live blocker other than `except`.
    fn has_other_live_blocker(&self, id: i64, except: i64) -> (r: bool)
        requires
            self@.wf(),
        ensures
            r == spec_has_other_live_blocker(self@, id, except),
    {
        let mut i: usize = 0;
        while i < self.edges.len()
            invariant
                i <= self.edges.len(),
                self@.wf(),
                forall|k: int|
                    0 <= k < i ==> !((#[trigger] self@.edges[k]).1 == id && self@.edges[k].0
                        != except && self@.has_issue(self@.edges[k].0) && !self@.issue(
                        self@.edges[k].0,
                    ).status.spec_is_terminal()),
            decreases self.edges.len() - i,
        {
            let e = self.edges[i];
            if e.1 == id && e.0 != except {
                match self.find_issue(e.0) {
                    Some(j) => {
                        proof {
                            lemma_issue_idx_unique(self@, e.0, j as int);
                        }
                        if !self.issues[j].status.is_terminal() {
                            assert((#[trigger] self@.edges[i as int]).1 == id);
                            return true;
                        }
                    },
                    None => {},
                }
            }
            i = i + 1;
        }
        false
    }

    /// The (identity, title) pairs of the issues that become unblocked the
    /// moment `closed_id` reaches a terminal status: directly blocked by it,
    /// themselves non-terminal, with no other live blocker. The check excludes
    /// `closed_id` itself, so it is correct whether or not the status change
    /// has already been recorded.
    pub fn get_newly_unblocked(&self, closed_id: i64) -> (r: Vec<(i64, String)>)
        requires
            self@.wf(),
        ensures
            r@.len() == self@.edges.filter(newly_unblocked_edge(self@, closed_id)).len(),
            forall|j: int|
                0 <= j < r@.len() ==> (#[trigger] r@[j]).0 == self@.edges.filter(
                    newly_unblocked_edge(self@, closed_id),
                )[j].1 && r@[j].1@ == self@.issue(
                    self@.edges.filter(newly_unblocked_edge(self@, closed_id))[j].1,
                ).title,
    {
        let ghost pred = newly_unblocked_edge(self@, closed_id);
        let mut r: Vec<(i64, String)> = Vec::new();
        let mut i: usize = 0;
        while i < self.edges.len()
            invariant
                i <= self.edges.len(),
                self@.wf(),
                pred == newly_unblocked_edge(self@, closed_id),
                r@.len() == self@.edges.subrange(0, i as int).filter(pred).len(),
                forall|j: int|
                    0 <= j < r@.len() ==> (#[trigger] r@[j]).0 == self@.edges.subrange(
                        0,
                        i as int,
                    ).filter(pred)[j].1 && r@[j].1@ == self@.issue(
                        self@.edges.subrange(0, i as int).filter(pred)[j].1,
                    ).title,
            decreases self.edges.len() - i,
        {
            proof {
                lemma_filter_step(self@.edges, pred, i as int);
            }
            let ghost prefix = self@.edges.subrange(0, i as int).filter(pred);
            let e = self.edges[i];
            if e.0 == closed_id {
                match self.find_issue(e.1) {
                    Some(j) => {
                        proof {
                            lemma_issue_idx_unique(self@, e.1, j as int);
                        }
                        if !self.issues[j].status.is_terminal() {
                            if !self.has_other_live_blocker(e.1, closed_id) {
                                assert(pred(self@.edges[i as int]));
                                let title = self.issues[j].title.clone();
                                r.push((e.1, title));
                                proof {
                                    assert(r@.len() == prefix.push(self@.edges[i as int]).len());
                                }
                            } else {
                                assert(!pred(self@.edges[i as int]));
                            }
                        } else {
                            assert(!pred(self@.edges[i as int]));
                        }
                    },
                    None => {
                        assert(!pred(self@.edges[i as int]));
                    },
                }
            } else {
                assert(!pred(self@.edges[i as int]));
            }
            i = i + 1;
        }
        proof {
            lemma_subrange_full(self@.edges);
        }
        r
    }

    /// Whether `to` is reachable from `from` along existing edges, searched
    /// breadth-first with a visited-set guard, so the search ends even when
    /// the data already holds a cycle.
    pub(crate) fn has_path(&self, from: i64, to: i64) -> (r: bool)
        ensures
            r == reaches(self@.edges, from, to),
    {
        let ghost ev = self@.edges;
        let ghost uni = node_universe(ev, from);
        let mut visited: Vec<i64> = Vec::new();
        let mut queue: Vec<i64> = Vec::new();
        queue.push(from);
        proof {
            lemma_universe_facts(ev, from);
            lemma_reaches_refl(ev, from);
            assert(queue@.len() == 1 && queue@[0] == from);
            assert(queue@.contains(from));
            assert forall|x: i64| queue@.contains(x) implies x == from by {
                let w = choose|w: int| 0 <= w < queue@.len() && queue@[w] == x;
            }
        }
        while queue.len() > 0
            invariant
                ev == self@.edges,
                uni == node_universe(ev, from),
                forall|x: i64| visited@.contains(x) ==> x != to,
                forall|x: i64| queue@.contains(x) ==> reaches(ev, from, x),
                forall|k: int|
                    0 <= k < ev.len() && visited@.contains(#[trigger] ev[k].0)
                        ==> visited@.contains(ev[k].1) || queue@.contains(ev[k].1),
                visited@.contains(from) || queue@.contains(from),
                visited@.no_duplicates(),
                forall|x: i64| visited@.contains(x) ==> uni.contains(x),
                forall|x: i64| queue@.contains(x) ==> uni.contains(x),
                visited@.len() <= uni.len(),
            decreases uni.len() - visited@.len(), queue@.len(),
        {
            let ghost queue0 = queue@;
            let ghost visited0 = visited@;
            let current = queue.remove(0);
            proof {
                lemma_remove_first_contains(queue0);
                assert(current == queue0[0]);
                assert(queue0.contains(current));
                assert(reaches(ev, from, current));
                assert(uni.contains(current));
            }
            if current == to {
                return true;
            }
            if !vec_contains_i64(&visited, current) {
                visited.push(current);
                proof {
                    lemma_push_contains(visited0, current);
                    lemma_push_no_duplicates(visited0, current);
                    assert forall|x: i64| visited@.contains(x) implies uni.contains(x) by {
                        if visited0.contains(x) {
                        } else {
                            assert(x == current);
                        }
                    }
                    lemma_visited_bound(visited@, ev, from);
                }
                let ghost visited1 = visited@;
                let ghost queue1 = queue@;
                let mut k: usize = 0;
                while k < self.edges.len()
                    invariant
                        ev == self@.edges,
                        uni == node_universe(ev, from),
                        k <= self.edges.len(),
                        visited@ == visited1,
                        reaches(ev, from, current),
                        visited@.contains(current),
                        forall|x: i64| queue1.contains(x) ==> queue@.contains(x),
                        forall|x: i64| queue@.contains(x) ==> reaches(ev, from, x),
                        forall|x: i64| queue@.contains(x) ==> uni.contains(x),
                        forall|m: int|
                            0 <= m < k && ev[m].0 == current ==> visited@.contains(
                                #[trigger] ev[m].1,
                            ) || queue@.contains(ev[m].1),
                    decreases self.edges.len() - k,
                {
                    let e = self.edges[k];
                    if e.0 == current && !vec_contains_i64(&visited, e.1) {
                        let ghost queue2 = queue@;
                        queue.push(e.1);
                        proof {
                            lemma_push_contains(queue2, e.1);
                            assert((e.0, e.1) == ev[k as int]);
                            assert(edge_in(ev, current, e.1));
                            lemma_reaches_step(ev, from, current, e.1);
                            lemma_universe_facts(ev, from);
                            assert((k as int) < ev.len());
                            assert(ev[k as int].0 == e.0);
                            assert(uni.contains(ev[k as int].1));
                        }
                    }
                    k = k + 1;
                }
                proof {
                    // Closure held for the old visited set; the freshly visited
                    // node's successors were just put in the queue or were
                    // already visited.
                    assert forall|m: int|
                        0 <= m < ev.len() && visited@.contains(#[trigger] ev[m].0)
                            implies visited@.contains(ev[m].1) || queue@.contains(ev[m].1) by {
                        if ev[m].0 == current {
                        } else {
                            assert(visited0.contains(ev[m].0));
                            assert(visited0.contains(ev[m].1) || queue0.contains(ev[m].1));
                            if !visited0.contains(ev[m].1) {
                                let w = choose|w: int|
                                    0 <= w < queue0.len() && queue0[w] == ev[m].1;
                                if w == 0 {
                                    assert(ev[m].1 == current);
                                    assert(visited@.contains(current));
                                } else {
                                    assert(queue1[w - 1] == ev[m].1);
                                    assert(queue1.contains(ev[m].1));
                                    assert(queue@.contains(ev[m].1));
                                }
                            }
                        }
                    }
                    assert forall|x: i64| visited@.contains(x) implies x != to by {
                        if !visited0.contains(x) {
                            assert(x == current);
                        }
                    }
                    if visited0.contains(from) {
                        assert(visited@.contains(from));
                    } else {
                        assert(queue0.contains(from));
                        let w = choose|w: int| 0 <= w < queue0.len() && queue0[w] == from;
                        if w == 0 {
                            assert(from == current);
                            assert(visited@.contains(from));
                        } else {
                            assert(queue1[w - 1] == from);
                            assert(queue1.contains(from));
                            assert(queue@.contains(from));
                        }
                    }
                }
            } else {
                proof {
                    // The popped node was already visited: anything dropped
                    // from the queue is that node, which the visited set holds.
                    assert forall|m: int|
                        0 <= m < ev.len() && visited@.contains(#[trigger] ev[m].0)
                            implies visited@.contains(ev[m].1) || queue@.contains(ev[m].1) by {
                        assert(visited0.contains(ev[m].1) || queue0.contains(ev[m].1));
                        if !visited0.contains(ev[m].1) {
                            let w = choose|w: int| 0 <= w < queue0.len() && queue0[w] == ev[m].1;
                            if w == 0 {
                                assert(ev[m].1 == current);
                                assert(visited@.contains(current));
                            } else {
                                assert(queue@[w - 1] == ev[m].1);
                                assert(queue@.contains(ev[m].1));
                            }
                        }
                    }
                    if visited0.contains(from) {
                        assert(visited@.contains(from));
                    } else {
                        assert(queue0.contains(from));
                        let w = choose|w: int| 0 <= w < queue0.len() && queue0[w] == from;
                        if w == 0 {
                            assert(from == current);
                            assert(visited@.contains(from));
                        } else {
                            assert(queue@[w - 1] == from);
                            assert(queue@.contains(from));
                        }
                    }
                }
            }
        }
        proof {
            if reaches(ev, from, to) {
                let p = choose|p: Seq<i64>|
                    p.len() >= 1 && (#[trigger] is_path(ev, p)) && p[0] == from && p[p.len() - 1]
                        == to;
                lemma_closed_set_traps_paths(ev, visited@, p);
                assert(false);
            }
        }
        false
    }
}


/// An edge set with no edges has no cycle.
pub proof fn lemma_empty_edges_acyclic(edges: Seq<(i64, i64)>)
    requires
        edges.len() == 0,
    ensures
        acyclic(edges),
{
    assert forall|p: Seq<i64>|
        !(p.len() >= 2 && (#[trigger] is_path(edges, p)) && p[0] == p[p.len() - 1]) by {
        if p.len() >= 2 && is_path(edges, p) {
            lemma_path_edge(edges, p, 0);
            assert(false);
        }
    }
}

/// The pushed pair is an edge of the extended set.
pub proof fn lemma_push_makes_edge(edges: Seq<(i64, i64)>, a: i64, b: i64)
    ensures
        edge_in(edges.push((a, b)), a, b),
{
    assert(edges.push((a, b))[edges.len() as int] == (a, b));
}

/// Registration: after an edge (blocker, blocked) is inserted, the blocker
/// stands in the blocked issue's blocker list and the blocked issue in the
/// blocker's blocking list.
pub proof fn lemma_dependency_registered(edges: Seq<(i64, i64)>, blocker_id: i64, blocked_id: i64)
    ensures
        spec_blockers(edges.push((blocker_id, blocked_id)), blocked_id).contains(blocker_id),
        spec_blocking(edges.push((blocker_id, blocked_id)), blocker_id).contains(blocked_id),
{
    reveal(Seq::filter);
    let e = (blocker_id, blocked_id);
    let e2 = edges.push(e);
    assert(e2.drop_last() =~= edges);
    let f1 = e2.filter(blocker_edge(blocked_id));
    assert(f1 == edges.filter(blocker_edge(blocked_id)).push(e));
    assert(f1[f1.len() - 1] == e);
    let m1 = f1.map_values(|d: (i64, i64)| d.0);
    assert(m1[f1.len() - 1] == blocker_id);
    assert(spec_blockers(e2, blocked_id).contains(blocker_id));
    let f2 = e2.filter(blocking_edge(blocker_id));
    assert(f2 == edges.filter(blocking_edge(blocker_id)).push(e));
    assert(f2[f2.len() - 1] == e);
    let m2 = f2.map_values(|d: (i64, i64)| d.1);
    assert(m2[f2.len() - 1] == blocked_id);
    assert(spec_blocking(e2, blocker_id).contains(blocked_id));
}

/// A live edge blocks: an edge (a, b) whose blocker issue exists and is
/// non-terminal makes the blocked issue blocked.
pub proof fn lemma_live_edge_blocks(s: StoreV, a: i64, b: i64, k: int)
    requires
        0 <= k < s.edges.len(),
        s.edges[k] == (a, b),
        s.has_issue(a),
        !s.issue(a).status.spec_is_terminal(),
    ensures
        spec_is_blocked(s, b),
{
    assert((#[trigger] s.edges[k]).1 == b);
}

/// An issue blocked by `a`, itself non-terminal and without another live
/// blocker, appears in the newly-unblocked scan for `a`.
pub proof fn lemma_newly_unblocked_member(s: StoreV, a: i64, b: i64, k: int)
    requires
        0 <= k < s.edges.len(),
        s.edges[k] == (a, b),
        s.has_issue(b),
        !s.issue(b).status.spec_is_terminal(),
        !spec_has_other_live_blocker(s, b, a),
    ensures
        exists|j: int|
            0 <= j < s.edges.filter(newly_unblocked_edge(s, a)).len() && (#[trigger] s.edges.filter(
                newly_unblocked_edge(s, a),
            )[j]).1 == b,
{
    let pred = newly_unblocked_edge(s, a);
    assert(pred(s.edges[k]));
    s.edges.lemma_filter_contains(pred, k);
    let f = s.edges.filter(pred);
    assert(f.contains(s.edges[k]));
    let j = choose|j: int| 0 <= j < f.len() && f[j] == s.edges[k];
    assert((#[trigger] f[j]).1 == b);
}

/// Once every blocker of `b` other than `a` is dead or terminal and `a`
/// itself is terminal, `b` is not blocked.
pub proof fn lemma_terminal_blockers_unblock(s: StoreV, a: i64, b: i64)
    requires
        !spec_has_other_live_blocker(s, b, a),
        s.has_issue(a) ==> s.issue(a).status.spec_is_terminal(),
    ensures
        !spec_is_blocked(s, b),
{
    if spec_is_blocked(s, b) {
        let k = choose|k: int|
            0 <= k < s.edges.len() && (#[trigger] s.edges[k]).1 == b && s.has_issue(s.edges[k].0)
                && !s.issue(s.edges[k].0).status.spec_is_terminal();
        if s.edges[k].0 == a {
            assert(false);
        } else {
            assert(spec_has_other_live_blocker(s, b, a));
        }
    }
}


/// The unblock transition, end to end: when the only live blocker of `b` is
/// `a` through the edge at position `k`, and `a`'s status is then set to a
/// terminal one the way the status setter's contract says, `b` stops being
/// blocked and stands in the newly-unblocked scan for `a`.
pub proof fn lemma_close_transition(
    s0: StoreV,
    s1: StoreV,
    a: i64,
    b: i64,
    k: int,
    st: Status,
    now: Seq<char>,
)
    requires
        s0.wf(),
        0 <= k < s0.edges.len(),
        s0.edges[k] == (a, b),
        s0.has_issue(a),
        s0.has_issue(b),
        a != b,
        !s0.issue(b).status.spec_is_terminal(),
        !spec_has_other_live_blocker(s0, b, a),
        st.spec_is_terminal(),
        s1.issues == s0.issues.update(s0.issue_idx(a), s0.issue(a).with_status(st, now)),
        s1.same_but_issues(s0),
    ensures
        !spec_is_blocked(s1, b),
        exists|j: int|
            0 <= j < s1.edges.filter(newly_unblocked_edge(s1, a)).len() && (#[trigger] s1.edges.filter(
                newly_unblocked_edge(s1, a),
            )[j]).1 == b,
{
    let iv = s0.issue(a).with_status(st, now);
    crate::store::lemma_lookup_after_update(s0, s1, a, iv);
    assert(s1.issue(a).status.spec_is_terminal());
    assert(s1.issue(b) == s0.issue(b));
    assert(!spec_has_other_live_blocker(s1, b, a)) by {
        if spec_has_other_live_blocker(s1, b, a) {
            let m = choose|m: int|
                0 <= m < s1.edges.len() && (#[trigger] s1.edges[m]).1 == b && s1.edges[m].0 != a
                    && s1.has_issue(s1.edges[m].0) && !s1.issue(
                    s1.edges[m].0,
                ).status.spec_is_terminal();
            assert(s1.issue(s1.edges[m].0) == s0.issue(s0.edges[m].0));
            assert(spec_has_other_live_blocker(s0, b, a));
        }
    }
    lemma_terminal_blockers_unblock(s1, a, b);
    assert(s1.edges[k] == (a, b));
    lemma_newly_unblocked_member(s1, a, b, k);
}

} // verus!
