//! Listing, ranking and summarising issues: the read side that callers use to
//! decide what to work on next.

use vstd::prelude::*;

use crate::graph::{spec_blockers, spec_blocks_active, spec_is_blocked};
use crate::models::{
    GraphEdge, GraphNode, GraphOutput, Issue, IssueSummary, IssueV, KindCounts, OldestOpen,
    PriorityCounts, Stats, StatusCounts,
};
use crate::store::{note_for, Store, StoreV};
use crate::types::{spec_priority_ord, Kind, Priority, Status};
use crate::urgency::{spec_ratio, spec_score, UrgencyConfig};
use crate::util::{contains_string, lemma_filter_step, lemma_subrange_full, str_eq};

verus! {

broadcast use vstd::seq_lib::group_seq_properties;

/// Whether an issue passes the listing filters: status (defaulting to the
/// non-terminal statuses unless `all`), priority, kind, every requested tag,
/// the parent, and the blocked-state selection.
pub open spec fn matches_filters(
    s: StoreV,
    iv: IssueV,
    statuses: Seq<Status>,
    priorities: Seq<Priority>,
    kinds: Seq<Kind>,
    tags: Seq<Seq<char>>,
    blocked_only: bool,
    include_blocked: bool,
    parent_id: Option<i64>,
    all: bool,
) -> bool {
    &&& (all || (if statuses.len() == 0 {
        !iv.status.spec_is_terminal()
    } else {
        statuses.contains(iv.status)
    }))
    &&& (priorities.len() == 0 || priorities.contains(iv.priority))
    &&& (kinds.len() == 0 || kinds.contains(iv.kind))
    &&& (forall|t: Seq<char>| tags.contains(t) ==> iv.tags.contains(t))
    &&& (parent_id matches Some(p) ==> iv.parent_id == Some(p))
    &&& (blocked_only ==> spec_is_blocked(s, iv.id))
    &&& (!blocked_only && !include_blocked && !all ==> !spec_is_blocked(s, iv.id))
}

/// The listing filter as a predicate over issues.
pub open spec fn listing_pred(
    s: StoreV,
    statuses: Seq<Status>,
    priorities: Seq<Priority>,
    kinds: Seq<Kind>,
    tags: Seq<Seq<char>>,
    blocked_only: bool,
    include_blocked: bool,
    parent_id: Option<i64>,
    all: bool,
) -> spec_fn(IssueV) -> bool {
    |iv: IssueV|
        matches_filters(
            s,
            iv,
            statuses,
            priorities,
            kinds,
            tags,
            blocked_only,
            include_blocked,
            parent_id,
            all,
        )
}

fn contains_status(v: &Vec<Status>, x: Status) -> (r: bool)
    ensures
        r == v@.contains(x),
{
    let mut i: usize = 0;
    while i < v.len()
        invariant
            i <= v.len(),
            forall|j: int| 0 <= j < i ==> v@[j] != x,
        decreases v.len() - i,
    {
        if v[i] == x {
            return true;
        }
        i = i + 1;
    }
    false
}

fn contains_priority(v: &Vec<Priority>, x: Priority) -> (r: bool)
    ensures
        r == v@.contains(x),
{
    let mut i: usize = 0;
    while i < v.len()
        invariant
            i <= v.len(),
            forall|j: int| 0 <= j < i ==> v@[j] != x,
        decreases v.len() - i,
    {
        if v[i] == x {
            return true;
        }
        i = i + 1;
    }
    false
}

fn contains_kind(v: &Vec<Kind>, x: Kind) -> (r: bool)
    ensures
        r == v@.contains(x),
{
    let mut i: usize = 0;
    while i < v.len()
        invariant
            i <= v.len(),
            forall|j: int| 0 <= j < i ==> v@[j] != x,
        decreases v.len() - i,
    {
        if v[i] == x {
            return true;
        }
        i = i + 1;
    }
    false
}

/// Whether the issue carries every requested tag.
fn has_all_tags(issue: &Issue, tags: &Vec<String>) -> (r: bool)
    ensures
        r == (forall|t: Seq<char>| tags.deep_view().contains(t) ==> issue@.tags.contains(t)),
{
    let mut i: usize = 0;
    while i < tags.len()
        invariant
            i <= tags.len(),
            forall|j: int| 0 <= j < i ==> issue@.tags.contains(#[trigger] tags.deep_view()[j]),
        decreases tags.len() - i,
    {
        if !contains_string(&issue.tags, tags[i].as_str()) {
            proof {
                assert(tags.deep_view().contains(tags.deep_view()[i as int]));
            }
            return false;
        }
        i = i + 1;
    }
    proof {
        assert forall|t: Seq<char>| tags.deep_view().contains(t) implies issue@.tags.contains(
            t,
        ) by {
            let j = choose|j: int| 0 <= j < tags.deep_view().len() && tags.deep_view()[j] == t;
            assert(issue@.tags.contains(tags.deep_view()[j]));
        }
    }
    true
}

impl Store {
    /// Whether one issue passes the listing filters.
    fn issue_matches(
        &self,
        issue: &Issue,
        statuses: &Vec<Status>,
        priorities: &Vec<Priority>,
        kinds: &Vec<Kind>,
        tags: &Vec<String>,
        blocked_only: bool,
        include_blocked: bool,
        parent_id: Option<i64>,
        all: bool,
    ) -> (r: bool)
        requires
            self@.wf(),
        ensures
            r == matches_filters(
                self@,
                issue@,
                statuses@,
                priorities@,
                kinds@,
                tags.deep_view(),
                blocked_only,
                include_blocked,
                parent_id,
                all,
            ),
    {
        if !all {
            if statuses.len() == 0 {
                if issue.status.is_terminal() {
                    return false;
                }
            } else {
                if !contains_status(statuses, issue.status) {
                    return false;
                }
            }
        }
        if priorities.len() > 0 && !contains_priority(priorities, issue.priority) {
            return false;
        }
        if kinds.len() > 0 && !contains_kind(kinds, issue.kind) {
            return false;
        }
        if !has_all_tags(issue, tags) {
            return false;
        }
        match parent_id {
            Some(p) => {
                match issue.parent_id {
                    Some(q) => {
                        if p != q {
                            return false;
                        }
                    },
                    None => {
                        return false;
                    },
                }
            },
            None => {},
        }
        if blocked_only {
            if !self.is_blocked(issue.id) {
                return false;
            }
        } else if !include_blocked && !all {
            if self.is_blocked(issue.id) {
                return false;
            }
        }
        true
    }

    /// The issues that pass the filters, in identity order.
    pub fn list_issues(
        &self,
        statuses: &Vec<Status>,
        priorities: &Vec<Priority>,
        kinds: &Vec<Kind>,
        tags: &Vec<String>,
        blocked_only: bool,
        include_blocked: bool,
        parent_id: Option<i64>,
        all: bool,
    ) -> (r: Vec<Issue>)
        requires
            self@.wf(),
        ensures
            r.deep_view() == self@.issues.filter(
                listing_pred(
                    self@,
                    statuses@,
                    priorities@,
                    kinds@,
                    tags.deep_view(),
                    blocked_only,
                    include_blocked,
                    parent_id,
                    all,
                ),
            ),
    {
        let ghost pred = listing_pred(
            self@,
            statuses@,
            priorities@,
            kinds@,
            tags.deep_view(),
            blocked_only,
            include_blocked,
            parent_id,
            all,
        );
        let mut r: Vec<Issue> = Vec::new();
        let mut i: usize = 0;
        while i < self.issues.len()
            invariant
                i <= self.issues.len(),
                self@.wf(),
                pred == listing_pred(
                    self@,
                    statuses@,
                    priorities@,
                    kinds@,
                    tags.deep_view(),
                    blocked_only,
                    include_blocked,
                    parent_id,
                    all,
                ),
                r.deep_view() == self@.issues.subrange(0, i as int).filter(pred),
            decreases self.issues.len() - i,
        {
            proof {
                lemma_filter_step(self@.issues, pred, i as int);
            }
            if self.issue_matches(
                &self.issues[i],
                statuses,
                priorities,
                kinds,
                tags,
                blocked_only,
                include_blocked,
                parent_id,
                all,
            ) {
                let ghost r0 = r.deep_view();
                r.push(self.issues[i].duplicate());
                proof {
                    assert(r.deep_view() =~= r0.push(self@.issues[i as int]));
                }
            }
            i = i + 1;
        }
        proof {
            lemma_subrange_full(self@.issues);
        }
        r
    }

    /// The listing row for one issue, scored against this store.
    pub fn make_summary(&self, issue: &Issue, config: &UrgencyConfig, now: i64) -> (r:
        IssueSummary)
        requires
            self@.wf(),
            config.wf(),
        ensures
            r.id == issue.id,
            r.title@ == issue@.title,
            r.status == issue.status,
            r.priority == issue.priority,
            r.kind == issue.kind,
            r.urgency == spec_score(
                *config,
                issue@,
                spec_blocks_active(self@, issue.id),
                spec_is_blocked(self@, issue.id),
                self@.notes.filter(note_for(issue.id)).len() as int,
                now,
            ),
            r.is_blocked == spec_is_blocked(self@, issue.id),
            r.blocked_by@ == spec_blockers(self@.edges, issue.id),
            r.tags.deep_view() == issue@.tags,
            r.files.deep_view() == issue@.files,
            r.acceptance@ == issue@.acceptance,
    {
        let urgency = crate::urgency::compute_urgency(issue, config, self, now);
        let is_blocked = self.is_blocked(issue.id);
        let blocked_by = self.get_blockers(issue.id);
        let copy = issue.duplicate();
        IssueSummary {
            id: copy.id,
            title: copy.title,
            status: copy.status,
            priority: copy.priority,
            kind: copy.kind,
            urgency,
            is_blocked,
            blocked_by,
            tags: copy.tags,
            files: copy.files,
            acceptance: copy.acceptance,
        }
    }
}

/// The listing orders a caller can ask for. `Created` and `Updated` keep the
/// store's identity order, which is creation order.
#[derive(Clone, Copy, PartialEq, Eq, Structural, Debug)]
pub enum SortKey {
    Urgency,
    Priority,
    Created,
    Updated,
    Id,
}

impl SortKey {
    /// The order a selector text names; an unknown text means urgency order.
    pub fn parse(s: &str) -> (r: SortKey)
        ensures
            s@ == "priority"@ ==> r == SortKey::Priority,
            s@ == "created"@ ==> r == SortKey::Created,
            s@ == "updated"@ ==> r == SortKey::Updated,
            s@ == "id"@ ==> r == SortKey::Id,
            s@ != "priority"@ && s@ != "created"@ && s@ != "updated"@ && s@ != "id"@ ==> r
                == SortKey::Urgency,
    {
        proof {
            reveal_strlit("priority");
            reveal_strlit("created");
            reveal_strlit("updated");
            reveal_strlit("id");
            assert("priority"@.len() == 8);
            assert("created"@.len() == 7);
            assert("updated"@.len() == 7);
            assert("id"@.len() == 2);
            assert("created"@[0] == 'c' && "updated"@[0] == 'u');
        }
        if str_eq(s, "priority") {
            SortKey::Priority
        } else if str_eq(s, "created") {
            SortKey::Created
        } else if str_eq(s, "updated") {
            SortKey::Updated
        } else if str_eq(s, "id") {
            SortKey::Id
        } else {
            SortKey::Urgency
        }
    }
}

/// The rank a summary sorts by under a key, ascending: urgency order ranks by
/// negated urgency (highest first), priority order by tier rank, identity
/// order by identity; creation and update order keep the input order.
pub open spec fn spec_rank(s: IssueSummary, key: SortKey) -> i64 {
    match key {
        SortKey::Urgency => (-s.urgency) as i64,
        SortKey::Priority => spec_priority_ord(s.priority) as i64,
        SortKey::Id => s.id,
        SortKey::Created => 0i64,
        SortKey::Updated => 0i64,
    }
}

fn rank_of(s: &IssueSummary, key: SortKey) -> (r: i64)
    requires
        -100000000 <= s.urgency <= 100000000,
    ensures
        r == spec_rank(*s, key),
{
    match key {
        SortKey::Urgency => -s.urgency,
        SortKey::Priority => crate::types::priority_ord(s.priority) as i64,
        SortKey::Id => s.id,
        SortKey::Created => 0,
        SortKey::Updated => 0,
    }
}

/// Sorts the rows ascending by their rank under `key`, keeping exactly the
/// same rows. Scores are expected within the bound the scoring engine
/// guarantees.
pub fn sort_summaries(v: &mut Vec<IssueSummary>, key: SortKey)
    requires
        forall|i: int|
            0 <= i < old(v)@.len() ==> -100000000 <= (#[trigger] old(v)@[i]).urgency <= 100000000,
    ensures
        final(v)@.len() == old(v)@.len(),
        final(v)@.to_multiset() == old(v)@.to_multiset(),
        forall|i: int, j: int|
            0 <= i < j < final(v)@.len() ==> spec_rank(final(v)@[i], key) <= spec_rank(
                final(v)@[j],
                key,
            ),
{
    broadcast use vstd::seq_lib::to_multiset_remove, vstd::seq_lib::to_multiset_insert;

    let mut j: usize = 1;
    while j < v.len()
        invariant
            1 <= j,
            v@.len() == old(v)@.len(),
            v@.to_multiset() == old(v)@.to_multiset(),
            forall|a: int|
                0 <= a < v@.len() ==> -100000000 <= (#[trigger] v@[a]).urgency <= 100000000,
            forall|a: int, b: int|
                0 <= a < b < j && b < v@.len() ==> spec_rank(v@[a], key) <= spec_rank(v@[b], key),
        decreases v@.len() - j,
    {
        let ghost v1 = v@;
        let x = v.remove(j);
        let xr = rank_of(&x, key);
        let mut k: usize = j;
        while k > 0 && rank_of(&v[k - 1], key) > xr
            invariant
                k <= j,
                j < v1.len(),
                v@ == v1.remove(j as int),
                v@.len() == v1.len() - 1,
                xr == spec_rank(x, key),
                -100000000 <= x.urgency <= 100000000,
                forall|a: int|
                    0 <= a < v@.len() ==> -100000000 <= (#[trigger] v@[a]).urgency <= 100000000,
                forall|a: int, b: int|
                    0 <= a < b < j && b < v@.len() ==> spec_rank(v@[a], key) <= spec_rank(
                        v@[b],
                        key,
                    ),
                forall|a: int| k <= a < j ==> spec_rank(#[trigger] v@[a], key) > spec_rank(x, key),
            decreases k,
        {
            k = k - 1;
        }
        let ghost v2 = v@;
        v.insert(k, x);
        proof {
            assert(v@ == v2.insert(k as int, x));
            assert(v@.to_multiset() == old(v)@.to_multiset());
            assert forall|a: int, b: int|
                0 <= a < b < j + 1 && b < v@.len() implies spec_rank(v@[a], key) <= spec_rank(
                v@[b],
                key,
            ) by {
                if a < k && b < k {
                    assert(v@[a] == v2[a] && v@[b] == v2[b]);
                } else if a < k && b == k {
                    assert(v@[a] == v2[a]);
                    assert(k >= 1 ==> spec_rank(v2[k - 1], key) <= spec_rank(x, key));
                } else if a < k && b > k {
                    assert(v@[a] == v2[a] && v@[b] == v2[b - 1]);
                } else if a == k && b > k {
                    assert(v@[b] == v2[b - 1]);
                    assert(spec_rank(v2[b - 1], key) > spec_rank(x, key));
                } else if a > k && b > k {
                    assert(v@[a] == v2[a - 1] && v@[b] == v2[b - 1]);
                }
            }
        }
        j = j + 1;
    }
}

/// The position of the row with the strictly highest urgency seen first:
/// every row scores at most this one, and every earlier row scores strictly
/// less.
pub fn pick_next(v: &Vec<IssueSummary>) -> (r: Option<usize>)
    ensures
        match r {
            Some(i) => {
                &&& (i as int) < v@.len()
                &&& forall|j: int|
                    0 <= j < v@.len() ==> (#[trigger] v@[j]).urgency <= v@[i as int].urgency
                &&& forall|j: int| 0 <= j < i ==> (#[trigger] v@[j]).urgency < v@[i as int].urgency
            },
            None => v@.len() == 0,
        },
{
    if v.len() == 0 {
        return None;
    }
    let mut best: usize = 0;
    let mut i: usize = 1;
    while i < v.len()
        invariant
            best < i <= v@.len(),
            forall|j: int| 0 <= j < i ==> (#[trigger] v@[j]).urgency <= v@[best as int].urgency,
            forall|j: int| 0 <= j < best ==> (#[trigger] v@[j]).urgency < v@[best as int].urgency,
        decreases v@.len() - i,
    {
        if v[i].urgency > v[best].urgency {
            best = i;
        }
        i = i + 1;
    }
    Some(best)
}

/// Appends to `current` each addition whose content is not already present,
/// in order, deduplicating against the growing list.
pub open spec fn spec_merge(current: Seq<Seq<char>>, additions: Seq<Seq<char>>) -> Seq<Seq<char>>
    decreases additions.len(),
{
    if additions.len() == 0 {
        current
    } else {
        let c2 = if current.contains(additions[0]) {
            current
        } else {
            current.push(additions[0])
        };
        spec_merge(c2, additions.drop_first())
    }
}

/// Appends each addition that is not already present.
pub fn merge_items(current: &Vec<String>, additions: &Vec<String>) -> (r: Vec<String>)
    ensures
        r.deep_view() == spec_merge(current.deep_view(), additions.deep_view()),
{
    let mut r = crate::util::clone_string_vec(current);
    let mut i: usize = 0;
    while i < additions.len()
        invariant
            i <= additions.len(),
            spec_merge(current.deep_view(), additions.deep_view()) == spec_merge(
                r.deep_view(),
                additions.deep_view().skip(i as int),
            ),
        decreases additions.len() - i,
    {
        let ghost r0 = r.deep_view();
        let ghost rest = additions.deep_view().skip(i as int);
        proof {
            assert(rest[0] == additions.deep_view()[i as int]);
            assert(rest.drop_first() =~= additions.deep_view().skip(i as int + 1));
        }
        if !contains_string(&r, additions[i].as_str()) {
            r.push(additions[i].clone());
            proof {
                assert(r.deep_view() =~= r0.push(additions.deep_view()[i as int]));
            }
        }
        i = i + 1;
    }
    proof {
        assert(additions.deep_view().skip(additions.deep_view().len() as int)
            =~= Seq::<Seq<char>>::empty());
    }
    r
}

/// The entries whose content is not among the removals.
pub open spec fn not_removed(removals: Seq<Seq<char>>) -> spec_fn(Seq<char>) -> bool {
    |t: Seq<char>| !removals.contains(t)
}

/// Keeps the entries whose content is not among the removals, in order.
pub fn remove_items(current: &Vec<String>, removals: &Vec<String>) -> (r: Vec<String>)
    ensures
        r.deep_view() == current.deep_view().filter(not_removed(removals.deep_view())),
{
    let ghost pred = not_removed(removals.deep_view());
    let mut r: Vec<String> = Vec::new();
    let mut i: usize = 0;
    while i < current.len()
        invariant
            i <= current.len(),
            pred == not_removed(removals.deep_view()),
            r.deep_view() == current.deep_view().subrange(0, i as int).filter(pred),
        decreases current.len() - i,
    {
        proof {
            lemma_filter_step(current.deep_view(), pred, i as int);
        }
        if !contains_string(removals, current[i].as_str()) {
            let ghost r0 = r.deep_view();
            r.push(current[i].clone());
            proof {
                assert(r.deep_view() =~= r0.push(current.deep_view()[i as int]));
            }
        }
        i = i + 1;
    }
    proof {
        lemma_subrange_full(current.deep_view());
    }
    r
}

/// Truncated division toward zero.
pub open spec fn spec_tdiv(a: int, b: int) -> int
    recommends
        b > 0,
{
    if a >= 0 {
        a / b
    } else {
        -((-a) / b)
    }
}

/// A ratio component never exceeds the weight's magnitude.
proof fn lemma_ratio_bound(w: int, num: int, den: int)
    requires
        0 < den,
        0 <= num <= den,
        -1000000 <= w <= 1000000,
    ensures
        -1000000 <= spec_ratio(w, num, den) <= 1000000,
{
    if w >= 0 {
        assert(0 <= w * num && w * num <= w * den) by (nonlinear_arith)
            requires
                0 <= w,
                0 <= num <= den,
        ;
        vstd::arithmetic::div_mod::lemma_div_pos_is_pos(w * num, den);
        vstd::arithmetic::div_mod::lemma_div_is_ordered(w * num, w * den, den);
        vstd::arithmetic::div_mod::lemma_div_multiples_vanish(w, den);
        assert(w * den == den * w) by (nonlinear_arith);
        assert((w * den) / den == w);
        assert(0 <= (w * num) / den <= w);
        assert(spec_ratio(w, num, den) == (w * num) / den);
    } else {
        let m = -w;
        assert(0 <= m * num && m * num <= m * den) by (nonlinear_arith)
            requires
                0 <= m,
                0 <= num <= den,
        ;
        vstd::arithmetic::div_mod::lemma_div_pos_is_pos(m * num, den);
        vstd::arithmetic::div_mod::lemma_div_is_ordered(m * num, m * den, den);
        vstd::arithmetic::div_mod::lemma_div_multiples_vanish(m, den);
        assert(m * den == den * m) by (nonlinear_arith);
        assert((m * den) / den == m);
        assert(0 <= (m * num) / den <= m);
        assert(spec_ratio(w, num, den) == -((m * num) / den));
    }
}

/// A score is the sum of eight capped components.
#[verifier::rlimit(60)]
pub proof fn lemma_score_bounds(
    c: UrgencyConfig,
    iv: IssueV,
    blocking: bool,
    blocked: bool,
    note_count: int,
    now: i64,
)
    requires
        c.wf(),
        note_count >= 0,
    ensures
        -8000000 <= spec_score(c, iv, blocking, blocked, note_count, now) <= 8000000,
{
    let age = crate::urgency::spec_age_seconds(crate::urgency::epoch_of(iv.created_at), now) as int;
    lemma_ratio_bound(c.age as int, crate::urgency::spec_age_num(age), 864000);
    lemma_ratio_bound(c.notes_count as int, crate::urgency::spec_notes_num(note_count), 6);
    assert(-1000000 <= crate::urgency::spec_age_component(c, age) <= 1000000);
    assert(-1000000 <= crate::urgency::spec_notes_component(c, note_count) <= 1000000);
    assert(-1000000 <= crate::urgency::spec_priority_weight(c, iv.priority) <= 1000000);
    assert(-1000000 <= crate::urgency::spec_kind_weight(c, iv.kind) <= 1000000);
}

/// The issues with a given status.
pub open spec fn with_status(st: Status) -> spec_fn(IssueV) -> bool {
    |iv: IssueV| iv.status == st
}

/// The issues with a given priority.
pub open spec fn with_priority(p: Priority) -> spec_fn(IssueV) -> bool {
    |iv: IssueV| iv.priority == p
}

/// The issues with a given kind.
pub open spec fn with_kind(k: Kind) -> spec_fn(IssueV) -> bool {
    |iv: IssueV| iv.kind == k
}

/// The non-terminal issues with a live blocker.
pub open spec fn active_blocked(s: StoreV) -> spec_fn(IssueV) -> bool {
    |iv: IssueV| !iv.status.spec_is_terminal() && spec_is_blocked(s, iv.id)
}

/// The non-terminal issues without a live blocker: the ready set.
pub open spec fn active_ready(s: StoreV) -> spec_fn(IssueV) -> bool {
    |iv: IssueV| !iv.status.spec_is_terminal() && !spec_is_blocked(s, iv.id)
}

/// The sum of the scores of the non-terminal issues among the first `n`.
pub open spec fn spec_urgency_sum(s: StoreV, c: UrgencyConfig, n: int, now: i64) -> int
    recommends
        0 <= n <= s.issues.len(),
    decreases n,
{
    if n <= 0 {
        0
    } else {
        spec_urgency_sum(s, c, n - 1, now) + (if s.issues[n - 1].status.spec_is_terminal() {
            0
        } else {
            spec_score(
                c,
                s.issues[n - 1],
                spec_blocks_active(s, s.issues[n - 1].id),
                spec_is_blocked(s, s.issues[n - 1].id),
                s.notes.filter(note_for(s.issues[n - 1].id)).len() as int,
                now,
            )
        })
    }
}

/// Truncated division of a bounded sum by a positive count.
fn tdiv_i64(a: i64, b: i64) -> (r: i64)
    requires
        0 < b,
        -1000000000000000 <= a <= 1000000000000000,
    ensures
        r == spec_tdiv(a as int, b as int),
{
    if a >= 0 {
        (((a as u64) / (b as u64)) as i64)
    } else {
        let m = -a;
        proof {
            vstd::arithmetic::div_mod::lemma_div_pos_is_pos(m as int, b as int);
            vstd::arithmetic::div_mod::lemma_div_nonincreasing(m as int, b as int);
        }
        -(((m as u64) / (b as u64)) as i64)
    }
}

impl Store {
    /// Project health summary over the whole store.
    #[verifier::rlimit(100)]
    pub fn compute_stats(&self, config: &UrgencyConfig, now: i64) -> (r: Stats)
        requires
            self@.wf(),
            config.wf(),
            self.issues.len() <= 100000000,
        ensures
            r.total == self@.issues.len(),
            r.by_status.open == self@.issues.filter(with_status(Status::Open)).len(),
            r.by_status.in_progress == self@.issues.filter(with_status(Status::InProgress)).len(),
            r.by_status.done == self@.issues.filter(with_status(Status::Done)).len(),
            r.by_status.wontfix == self@.issues.filter(with_status(Status::Wontfix)).len(),
            r.by_priority.critical == self@.issues.filter(with_priority(Priority::Critical)).len(),
            r.by_priority.high == self@.issues.filter(with_priority(Priority::High)).len(),
            r.by_priority.medium == self@.issues.filter(with_priority(Priority::Medium)).len(),
            r.by_priority.low == self@.issues.filter(with_priority(Priority::Low)).len(),
            r.by_kind.bug == self@.issues.filter(with_kind(Kind::Bug)).len(),
            r.by_kind.feature == self@.issues.filter(with_kind(Kind::Feature)).len(),
            r.by_kind.task == self@.issues.filter(with_kind(Kind::Task)).len(),
            r.by_kind.epic == self@.issues.filter(with_kind(Kind::Epic)).len(),
            r.blocked == self@.issues.filter(active_blocked(self@)).len(),
            r.ready == self@.issues.filter(active_ready(self@)).len(),
            r.avg_urgency == (if r.blocked + r.ready > 0 {
                spec_tdiv(
                    spec_urgency_sum(self@, *config, self@.issues.len() as int, now),
                    r.blocked + r.ready,
                )
            } else {
                0
            }),
            match r.oldest_open {
                None => forall|i: int|
                    0 <= i < self@.issues.len() ==> (#[trigger] self@.issues[i]).status
                        != Status::Open,
                Some(o) => {
                    &&& exists|i: int|
                        0 <= i < self@.issues.len() && (#[trigger] self@.issues[i]).status
                            == Status::Open && self@.issues[i].id == o.id && self@.issues[i].title
                            == o.title@ && o.days_old == crate::urgency::spec_age_seconds(
                            crate::urgency::epoch_of(self@.issues[i].created_at),
                            now,
                        ) / 86400
                    &&& forall|i: int|
                        0 <= i < self@.issues.len() && (#[trigger] self@.issues[i]).status
                            == Status::Open ==> crate::urgency::spec_age_seconds(
                            crate::urgency::epoch_of(self@.issues[i].created_at),
                            now,
                        ) / 86400 <= o.days_old
                },
            },
    {
        let ghost sv = self@;
        let mut open_c: i64 = 0;
        let mut inprog_c: i64 = 0;
        let mut done_c: i64 = 0;
        let mut wontfix_c: i64 = 0;
        let mut crit_c: i64 = 0;
        let mut high_c: i64 = 0;
        let mut med_c: i64 = 0;
        let mut low_c: i64 = 0;
        let mut bug_c: i64 = 0;
        let mut feat_c: i64 = 0;
        let mut task_c: i64 = 0;
        let mut epic_c: i64 = 0;
        let mut blocked_c: i64 = 0;
        let mut ready_c: i64 = 0;
        let mut sum: i64 = 0;
        let mut oldest: Option<OldestOpen> = None;
        let mut i: usize = 0;
        while i < self.issues.len()
            invariant
                i <= self.issues.len(),
                sv == self@,
                sv.wf(),
                config.wf(),
                self.issues.len() <= 100000000,
                open_c == sv.issues.subrange(0, i as int).filter(with_status(Status::Open)).len(),
                inprog_c == sv.issues.subrange(0, i as int).filter(
                    with_status(Status::InProgress),
                ).len(),
                done_c == sv.issues.subrange(0, i as int).filter(with_status(Status::Done)).len(),
                wontfix_c == sv.issues.subrange(0, i as int).filter(
                    with_status(Status::Wontfix),
                ).len(),
                crit_c == sv.issues.subrange(0, i as int).filter(
                    with_priority(Priority::Critical),
                ).len(),
                high_c == sv.issues.subrange(0, i as int).filter(
                    with_priority(Priority::High),
                ).len(),
                med_c == sv.issues.subrange(0, i as int).filter(
                    with_priority(Priority::Medium),
                ).len(),
                low_c == sv.issues.subrange(0, i as int).filter(
                    with_priority(Priority::Low),
                ).len(),
                bug_c == sv.issues.subrange(0, i as int).filter(with_kind(Kind::Bug)).len(),
                feat_c == sv.issues.subrange(0, i as int).filter(with_kind(Kind::Feature)).len(),
                task_c == sv.issues.subrange(0, i as int).filter(with_kind(Kind::Task)).len(),
                epic_c == sv.issues.subrange(0, i as int).filter(with_kind(Kind::Epic)).len(),
                blocked_c == sv.issues.subrange(0, i as int).filter(active_blocked(sv)).len(),
                ready_c == sv.issues.subrange(0, i as int).filter(active_ready(sv)).len(),
                sum == spec_urgency_sum(sv, *config, i as int, now),
                -8000000 * (i as int) <= sum <= 8000000 * (i as int),
                match oldest {
                    None => forall|j: int|
                        0 <= j < i ==> (#[trigger] sv.issues[j]).status != Status::Open,
                    Some(o) => {
                        &&& exists|j: int|
                            0 <= j < i && (#[trigger] sv.issues[j]).status == Status::Open
                                && sv.issues[j].id == o.id && sv.issues[j].title == o.title@
                                && o.days_old == crate::urgency::spec_age_seconds(
                                crate::urgency::epoch_of(sv.issues[j].created_at),
                                now,
                            ) / 86400
                        &&& forall|j: int|
                            0 <= j < i && (#[trigger] sv.issues[j]).status == Status::Open
                                ==> crate::urgency::spec_age_seconds(
                                crate::urgency::epoch_of(sv.issues[j].created_at),
                                now,
                            ) / 86400 <= o.days_old
                    },
                },
            decreases self.issues.len() - i,
        {
            proof {
                lemma_filter_step(sv.issues, with_status(Status::Open), i as int);
                lemma_filter_step(sv.issues, with_status(Status::InProgress), i as int);
                lemma_filter_step(sv.issues, with_status(Status::Done), i as int);
                lemma_filter_step(sv.issues, with_status(Status::Wontfix), i as int);
                lemma_filter_step(sv.issues, with_priority(Priority::Critical), i as int);
                lemma_filter_step(sv.issues, with_priority(Priority::High), i as int);
                lemma_filter_step(sv.issues, with_priority(Priority::Medium), i as int);
                lemma_filter_step(sv.issues, with_priority(Priority::Low), i as int);
                lemma_filter_step(sv.issues, with_kind(Kind::Bug), i as int);
                lemma_filter_step(sv.issues, with_kind(Kind::Feature), i as int);
                lemma_filter_step(sv.issues, with_kind(Kind::Task), i as int);
                lemma_filter_step(sv.issues, with_kind(Kind::Epic), i as int);
                lemma_filter_step(sv.issues, active_blocked(sv), i as int);
                lemma_filter_step(sv.issues, active_ready(sv), i as int);
            }
            let issue = &self.issues[i];
            match issue.status {
                Status::Open => {
                    open_c = open_c + 1;
                },
                Status::InProgress => {
                    inprog_c = inprog_c + 1;
                },
                Status::Done => {
                    done_c = done_c + 1;
                },
                Status::Wontfix => {
                    wontfix_c = wontfix_c + 1;
                },
            }
            match issue.priority {
                Priority::Critical => {
                    crit_c = crit_c + 1;
                },
                Priority::High => {
                    high_c = high_c + 1;
                },
                Priority::Medium => {
                    med_c = med_c + 1;
                },
                Priority::Low => {
                    low_c = low_c + 1;
                },
            }
            match issue.kind {
                Kind::Bug => {
                    bug_c = bug_c + 1;
                },
                Kind::Feature => {
                    feat_c = feat_c + 1;
                },
                Kind::Task => {
                    task_c = task_c + 1;
                },
                Kind::Epic => {
                    epic_c = epic_c + 1;
                },
            }
            if !issue.status.is_terminal() {
                let blocked = self.is_blocked(issue.id);
                if blocked {
                    blocked_c = blocked_c + 1;
                } else {
                    ready_c = ready_c + 1;
                }
                let urg = crate::urgency::compute_urgency(issue, config, self, now);
                proof {
                    lemma_score_bounds(
                        *config,
                        sv.issues[i as int],
                        spec_blocks_active(sv, issue.id),
                        spec_is_blocked(sv, issue.id),
                        sv.notes.filter(note_for(issue.id)).len() as int,
                        now,
                    );
                }
                sum = sum + urg;
                if issue.status == Status::Open {
                    let days = crate::urgency::age_days(issue.created_at.as_str(), now);
                    let replace = match &oldest {
                        None => true,
                        Some(o) => days > o.days_old,
                    };
                    if replace {
                        oldest = Some(
                            OldestOpen {
                                id: issue.id,
                                title: issue.title.clone(),
                                days_old: days,
                            },
                        );
                    }
                }
            }
            i = i + 1;
        }
        proof {
            lemma_subrange_full(sv.issues);
        }
        let active = blocked_c + ready_c;
        let avg = if active > 0 {
            proof {
                assert(-8000000 * 100000000 <= sum <= 8000000 * 100000000);
            }
            tdiv_i64(sum, active)
        } else {
            0
        };
        Stats {
            total: self.issues.len() as i64,
            by_status: StatusCounts {
                open: open_c,
                in_progress: inprog_c,
                done: done_c,
                wontfix: wontfix_c,
            },
            by_priority: PriorityCounts {
                critical: crit_c,
                high: high_c,
                medium: med_c,
                low: low_c,
            },
            by_kind: KindCounts { bug: bug_c, feature: feat_c, task: task_c, epic: epic_c },
            blocked: blocked_c,
            ready: ready_c,
            avg_urgency: avg,
            oldest_open: oldest,
        }
    }
}

/// The issues the graph shows: all of them, or only the non-terminal ones.
pub open spec fn graph_issue_pred(all: bool) -> spec_fn(IssueV) -> bool {
    |iv: IssueV| all || !iv.status.spec_is_terminal()
}

/// Whether the graph shows an issue with this identity.
pub open spec fn spec_graph_has(s: StoreV, all: bool, id: i64) -> bool {
    exists|i: int|
        0 <= i < s.issues.len() && (#[trigger] s.issues[i]).id == id && (all
            || !s.issues[i].status.spec_is_terminal())
}

/// The edges whose endpoints the graph both shows.
pub open spec fn graph_edge_pred(s: StoreV, all: bool) -> spec_fn((i64, i64)) -> bool {
    |e: (i64, i64)| spec_graph_has(s, all, e.0) && spec_graph_has(s, all, e.1)
}

impl Store {
    /// Whether the graph shows an issue with this identity.
    fn graph_has(&self, all: bool, id: i64) -> (r: bool)
        requires
            self@.wf(),
        ensures
            r == spec_graph_has(self@, all, id),
    {
        match self.find_issue(id) {
            Some(i) => {
                proof {
                    crate::store::lemma_issue_idx_unique(self@, id, i as int);
                }
                let shown = all || !self.issues[i].status.is_terminal();
                proof {
                    if !shown && spec_graph_has(self@, all, id) {
                        let j = choose|j: int|
                            0 <= j < self@.issues.len() && (#[trigger] self@.issues[j]).id == id
                                && (all || !self@.issues[j].status.spec_is_terminal());
                        crate::store::lemma_issue_idx_unique(self@, id, j);
                    }
                }
                shown
            },
            None => false,
        }
    }

    /// The dependency graph of the shown issues: one node per issue that
    /// passes the selection, one edge per dependency between shown issues.
    pub fn build_graph(&self, all: bool, config: &UrgencyConfig, now: i64) -> (g: GraphOutput)
        requires
            self@.wf(),
            config.wf(),
        ensures
            g.nodes@.len() == self@.issues.filter(graph_issue_pred(all)).len(),
            forall|i: int|
                0 <= i < g.nodes@.len() ==> {
                    let iv = self@.issues.filter(graph_issue_pred(all))[i];
                    &&& (#[trigger] g.nodes@[i]).id == iv.id
                    &&& g.nodes@[i].title@ == iv.title
                    &&& g.nodes@[i].status == iv.status
                    &&& g.nodes@[i].urgency == spec_score(
                        *config,
                        iv,
                        spec_blocks_active(self@, iv.id),
                        spec_is_blocked(self@, iv.id),
                        self@.notes.filter(note_for(iv.id)).len() as int,
                        now,
                    )
                    &&& g.nodes@[i].is_blocked == spec_is_blocked(self@, iv.id)
                },
            g.edges@.len() == self@.edges.filter(graph_edge_pred(self@, all)).len(),
            forall|i: int|
                0 <= i < g.edges@.len() ==> {
                    let e = self@.edges.filter(graph_edge_pred(self@, all))[i];
                    &&& (#[trigger] g.edges@[i]).from == e.0
                    &&& g.edges@[i].to == e.1
                    &&& g.edges@[i].edge_type@ == "blocks"@
                },
    {
        let ghost npred = graph_issue_pred(all);
        let mut nodes: Vec<GraphNode> = Vec::new();
        let mut i: usize = 0;
        while i < self.issues.len()
            invariant
                i <= self.issues.len(),
                self@.wf(),
                config.wf(),
                npred == graph_issue_pred(all),
                nodes@.len() == self@.issues.subrange(0, i as int).filter(npred).len(),
                forall|j: int|
                    0 <= j < nodes@.len() ==> {
                        let iv = self@.issues.subrange(0, i as int).filter(npred)[j];
                        &&& (#[trigger] nodes@[j]).id == iv.id
                        &&& nodes@[j].title@ == iv.title
                        &&& nodes@[j].status == iv.status
                        &&& nodes@[j].urgency == spec_score(
                            *config,
                            iv,
                            spec_blocks_active(self@, iv.id),
                            spec_is_blocked(self@, iv.id),
                            self@.notes.filter(note_for(iv.id)).len() as int,
                            now,
                        )
                        &&& nodes@[j].is_blocked == spec_is_blocked(self@, iv.id)
                    },
            decreases self.issues.len() - i,
        {
            proof {
                lemma_filter_step(self@.issues, npred, i as int);
            }
            let issue = &self.issues[i];
            if all || !issue.status.is_terminal() {
                let urgency = crate::urgency::compute_urgency(issue, config, self, now);
                let is_blocked = self.is_blocked(issue.id);
                nodes.push(
                    GraphNode {
                        id: issue.id,
                        title: issue.title.clone(),
                        status: issue.status,
                        urgency,
                        is_blocked,
                    },
                );
            }
            i = i + 1;
        }
        proof {
            lemma_subrange_full(self@.issues);
        }
        let ghost epred = graph_edge_pred(self@, all);
        let mut edges: Vec<GraphEdge> = Vec::new();
        let mut k: usize = 0;
        while k < self.edges.len()
            invariant
                k <= self.edges.len(),
                self@.wf(),
                epred == graph_edge_pred(self@, all),
                edges@.len() == self@.edges.subrange(0, k as int).filter(epred).len(),
                forall|j: int|
                    0 <= j < edges@.len() ==> {
                        let e = self@.edges.subrange(0, k as int).filter(epred)[j];
                        &&& (#[trigger] edges@[j]).from == e.0
                        &&& edges@[j].to == e.1
                        &&& edges@[j].edge_type@ == "blocks"@
                    },
            decreases self.edges.len() - k,
        {
            proof {
                lemma_filter_step(self@.edges, epred, k as int);
            }
            let e = self.edges[k];
            if self.graph_has(all, e.0) && self.graph_has(all, e.1) {
                edges.push(GraphEdge { from: e.0, to: e.1, edge_type: String::from_str("blocks") });
            }
            k = k + 1;
        }
        proof {
            lemma_subrange_full(self@.edges);
        }
        GraphOutput { nodes, edges }
    }
}

} // verus!
