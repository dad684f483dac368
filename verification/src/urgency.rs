//! The urgency scoring engine: a pure function from an issue, its
//! graph-derived facts and a weight set to a scalar score with a per-component
//! breakdown.
//!
//! Weights and scores are fixed-point integers in centi-units: a stored
//! weight text of `2.5` becomes 250. The age and note-count factors are
//! saturating ramps, full at ten days and at six notes.

use vstd::prelude::*;
use vstd::string::StrSliceExecFns;

use crate::models::{ComponentKey, Issue, IssueV, UrgencyBreakdown};
use crate::graph::{spec_blocks_active, spec_is_blocked};
use crate::store::{note_for, Store, StoreV};
use crate::types::{Kind, Priority, Status};

verus! {

/// Seconds in the ten days after which the age ramp saturates.
pub const AGE_RAMP_SECONDS: i64 = 864000;

/// Largest weight magnitude, in centi-units.
pub const WEIGHT_CAP: i64 = 1000000;

/// What chrono computes for a timestamp text in the store's format: the Unix
/// epoch seconds, or nothing for text that does not parse. A function of the
/// text alone.
pub uninterp spec fn epoch_of(s: Seq<char>) -> Option<i64>;

/// Relies on chrono's `NaiveDateTime::parse_from_str` with the fixed format
/// `%Y-%m-%dT%H:%M:%SZ`, and on `NaiveDateTime::and_utc` and
/// `DateTime::timestamp`; all three depend on the input text alone, so the
/// result is named by [`epoch_of`].
#[verifier::external_body]
fn parse_epoch(s: &str) -> (r: Option<i64>)
    ensures
        r == epoch_of(s@),
{
    match chrono::NaiveDateTime::parse_from_str(s, "%Y-%m-%dT%H:%M:%SZ") {
        Ok(dt) => Some(dt.and_utc().timestamp()),
        Err(_) => None,
    }
}

/// Whole seconds from a parsed timestamp to `now`, clamped to be
/// non-negative; a missing parse yields 0.
pub open spec fn spec_age_seconds(ep: Option<i64>, now: i64) -> i64 {
    match ep {
        None => 0i64,
        Some(t) => if t >= now {
            0i64
        } else if now - t <= i64::MAX {
            (now - t) as i64
        } else {
            i64::MAX
        },
    }
}

/// Whole seconds between the recorded timestamp text and `now`. Malformed
/// text and future timestamps yield 0.
pub fn age_seconds(timestamp: &str, now: i64) -> (r: i64)
    ensures
        r == spec_age_seconds(epoch_of(timestamp@), now),
        r >= 0,
{
    match parse_epoch(timestamp) {
        Some(t) => {
            if t >= now {
                0
            } else if t < 0 && now > i64::MAX + t {
                i64::MAX
            } else {
                now - t
            }
        },
        None => 0,
    }
}

/// Whole days between the recorded timestamp text and `now`.
pub fn age_days(timestamp: &str, now: i64) -> (r: i64)
    ensures
        r == spec_age_seconds(epoch_of(timestamp@), now) / 86400,
        r >= 0,
{
    age_seconds(timestamp, now) / 86400
}

/// A decimal digit.
pub open spec fn is_ascii_digit(c: char) -> bool {
    48 <= c as u32 <= 57
}

/// Value of a decimal digit.
pub open spec fn digit_val(c: char) -> int {
    c as u32 - 48
}

/// All characters are decimal digits.
pub open spec fn all_digits(s: Seq<char>) -> bool {
    forall|i: int| 0 <= i < s.len() ==> is_ascii_digit(#[trigger] s[i])
}

/// Value of a digit string read left to right.
pub open spec fn digits_val(s: Seq<char>) -> int
    decreases s.len(),
{
    if s.len() == 0 {
        0
    } else {
        digits_val(s.drop_last()) * 10 + digit_val(s.last())
    }
}

/// Powers of ten.
pub open spec fn pow10(n: nat) -> int
    decreases n,
{
    if n == 0 {
        1
    } else {
        10 * pow10((n - 1) as nat)
    }
}

proof fn lemma_pow10_pos(n: nat)
    ensures
        pow10(n) >= 1,
    decreases n,
{
    if n > 0 {
        lemma_pow10_pos((n - 1) as nat);
    }
}

proof fn lemma_pow10_mono(a: nat, b: nat)
    requires
        a <= b,
    ensures
        pow10(a) <= pow10(b),
    decreases b,
{
    if a < b {
        lemma_pow10_mono(a, (b - 1) as nat);
        lemma_pow10_pos((b - 1) as nat);
    }
}

/// A digit string of length n has a value below ten to the n.
proof fn lemma_digits_val_bound(s: Seq<char>)
    requires
        all_digits(s),
    ensures
        0 <= digits_val(s) < pow10(s.len()),
    decreases s.len(),
{
    if s.len() > 0 {
        assert forall|i: int| 0 <= i < s.drop_last().len() implies is_ascii_digit(
            #[trigger] s.drop_last()[i],
        ) by {
            assert(s.drop_last()[i] == s[i]);
        }
        lemma_digits_val_bound(s.drop_last());
        assert(is_ascii_digit(s[s.len() - 1]));
        assert(digit_val(s.last()) <= 9);
        assert(pow10(s.len()) == 10 * pow10((s.len() - 1) as nat));
    }
}

/// Position of the first `.` at or after `i`.
pub open spec fn first_dot(s: Seq<char>, i: int) -> Option<int>
    decreases s.len() - i,
{
    if i < 0 || i >= s.len() {
        None
    } else if s[i] == '.' {
        Some(i)
    } else {
        first_dot(s, i + 1)
    }
}

/// One or two fractional digits, scaled to centi-units.
pub open spec fn frac_scaled(f: Seq<char>) -> int {
    if f.len() == 1 {
        digit_val(f[0]) * 10
    } else {
        digit_val(f[0]) * 10 + digit_val(f[1])
    }
}

/// Centi-unit value of an unsigned decimal: one to six integer digits,
/// optionally a dot and one or two fractional digits, within [`WEIGHT_CAP`].
pub open spec fn spec_unsigned_weight(s: Seq<char>) -> Option<int> {
    match first_dot(s, 0) {
        None => if 1 <= s.len() <= 6 && all_digits(s) && digits_val(s) * 100 <= WEIGHT_CAP {
            Some(digits_val(s) * 100)
        } else {
            None
        },
        Some(d) => {
            let ip = s.subrange(0, d);
            let fp = s.subrange(d + 1, s.len() as int);
            if 1 <= ip.len() <= 6 && all_digits(ip) && 1 <= fp.len() <= 2 && all_digits(fp)
                && digits_val(ip) * 100 + frac_scaled(fp) <= WEIGHT_CAP {
                Some(digits_val(ip) * 100 + frac_scaled(fp))
            } else {
                None
            }
        },
    }
}

/// Centi-unit value of a signed decimal weight text.
pub open spec fn spec_parse_weight(s: Seq<char>) -> Option<int> {
    if s.len() == 0 {
        None
    } else if s[0] == '-' {
        match spec_unsigned_weight(s.subrange(1, s.len() as int)) {
            Some(v) => Some(-v),
            None => None,
        }
    } else {
        spec_unsigned_weight(s)
    }
}

/// Parses a decimal weight text into centi-units.
pub fn parse_weight(s: &str) -> (r: Option<i64>)
    ensures
        match r {
            Some(v) => spec_parse_weight(s@) == Some(v as int) && -WEIGHT_CAP <= v <= WEIGHT_CAP,
            None => spec_parse_weight(s@) is None,
        },
{
    let n = s.unicode_len();
    if n == 0 {
        return None;
    }
    let neg = s.get_char(0) == '-';
    let start: usize = if neg {
        1
    } else {
        0
    };
    let ghost b = if neg {
        s@.subrange(1, s@.len() as int)
    } else {
        s@
    };
    assert(b.len() == n - start);
    assert(forall|j: int| 0 <= j < b.len() ==> b[j] == s@[j + start]);

    proof {
        if neg {
            assert(s@[0] == '-');
        } else {
            assert(s@[0] != '-');
        }
    }
    // Integer part: scan to the first dot or the end.
    let mut i: usize = start;
    let mut int_val: i64 = 0;
    let mut int_len: usize = 0;
    let mut dot: bool = false;
    while i < n && !dot
        invariant
            start <= i <= n,
            n == s@.len(),
            start <= 1,
            b.len() == n - start,
            forall|j: int| 0 <= j < b.len() ==> b[j] == s@[j + start],
            int_len == i - start,
            n > 0,
            neg == (s@[0] == '-'),
            b == (if neg {
                s@.subrange(1, s@.len() as int)
            } else {
                s@
            }),
            dot ==> i < n && b[i - start] == '.',
            first_dot(b, 0) == first_dot(b, i - start),
            all_digits(b.subrange(0, i - start)),
            int_len <= 6,
            0 <= int_val <= 999999,
            int_val == digits_val(b.subrange(0, i - start)),
        decreases n - i, 1int - (if dot { 1int } else { 0int }),
    {
        let c = s.get_char(i);
        proof {
            assert(b[i - start] == s@[i as int]);
        }
        if c == '.' {
            dot = true;
        } else {
            let u = c as u32;
            if u < 48 || u > 57 {
                proof {
                    lemma_unsigned_weight_none_bad_char(b, i - start);
                }
                return None;
            }
            if int_len == 6 {
                proof {
                    lemma_unsigned_weight_none_long_int(b, i - start);
                }
                return None;
            }
            proof {
                lemma_digits_val_bound(b.subrange(0, i - start));
                lemma_pow10_mono((i - start) as nat, 5);
                assert(pow10(0) == 1);
                assert(pow10(1) == 10);
                assert(pow10(2) == 100);
                assert(pow10(3) == 1000);
                assert(pow10(4) == 10000);
                assert(pow10(5) == 100000);
                assert(int_val <= 99999);
            }
            int_val = int_val * 10 + ((u - 48) as i64);
            int_len = int_len + 1;
            i = i + 1;
            proof {
                assert(b.subrange(0, i - start).drop_last() =~= b.subrange(0, i - start - 1));
                assert(all_digits(b.subrange(0, i - start)));
            }
        }
    }
    if !dot {
        // No dot anywhere.
        proof {
            assert(i == n);
            assert(first_dot(b, b.len() as int) is None);
            assert(first_dot(b, 0) is None);
            assert(b.subrange(0, b.len() as int) =~= b);
        }
        if int_len == 0 {
            return None;
        }
        let total = int_val * 100;
        if total > WEIGHT_CAP {
            return None;
        }
        if neg {
            return Some(-total);
        } else {
            return Some(total);
        }
    }
    // Dot at position i - start of the body.
    let d = i;
    proof {
        assert(first_dot(b, 0) == Some(i - start as int));
        assert(b.subrange(0, i - start) =~= b.subrange(0, first_dot(b, 0)->Some_0));
    }
    if int_len == 0 {
        return None;
    }
    let frac_len = n - (d + 1);
    if frac_len < 1 || frac_len > 2 {
        return None;
    }
    let c1 = s.get_char(d + 1);
    let u1 = c1 as u32;
    if u1 < 48 || u1 > 57 {
        return None;
    }
    let mut frac: i64 = ((u1 - 48) as i64) * 10;
    if frac_len == 2 {
        let c2 = s.get_char(d + 2);
        let u2 = c2 as u32;
        if u2 < 48 || u2 > 57 {
            return None;
        }
        frac = frac + ((u2 - 48) as i64);
    }
    proof {
        let fp = b.subrange(i - start + 1, b.len() as int);
        assert(fp.len() == frac_len);
        assert(fp[0] == s@[d + 1]);
        if frac_len == 2 {
            assert(fp[1] == s@[d + 2]);
        }
        assert(all_digits(fp));
        assert(frac == frac_scaled(fp));
    }
    let total = int_val * 100 + frac;
    if total > WEIGHT_CAP {
        return None;
    }
    if neg {
        Some(-total)
    } else {
        Some(total)
    }
}

/// A body with a non-digit, non-dot character before any dot parses to nothing.
proof fn lemma_unsigned_weight_none_bad_char(b: Seq<char>, i: int)
    requires
        0 <= i < b.len(),
        !is_ascii_digit(b[i]),
        b[i] != '.',
        first_dot(b, 0) == first_dot(b, i),
    ensures
        spec_unsigned_weight(b) is None,
{
    match first_dot(b, 0) {
        None => {
            assert(!all_digits(b));
        },
        Some(d) => {
            lemma_first_dot_at(b, i, d);
            if i < d {
                let ip = b.subrange(0, d);
                assert(ip[i] == b[i]);
                assert(!all_digits(ip));
            } else {
                assert(i > d);
                let fp = b.subrange(d + 1, b.len() as int);
                assert(fp[i - d - 1] == b[i]);
                if 1 <= fp.len() <= 2 {
                    assert(!all_digits(fp));
                }
            }
        },
    }
}

/// A body whose integer part runs past six digits parses to nothing.
proof fn lemma_unsigned_weight_none_long_int(b: Seq<char>, i: int)
    requires
        0 <= i < b.len(),
        b[i] != '.',
        i >= 6,
        first_dot(b, 0) == first_dot(b, i),
    ensures
        spec_unsigned_weight(b) is None,
{
    match first_dot(b, 0) {
        None => {
            assert(b.len() > 6);
        },
        Some(d) => {
            lemma_first_dot_at(b, i, d);
            assert(d > i);
            assert(b.subrange(0, d).len() > 6);
        },
    }
}

/// The first dot found from position `i` onward is at or past `i`.
proof fn lemma_first_dot_at(b: Seq<char>, i: int, d: int)
    requires
        0 <= i <= b.len(),
        first_dot(b, i) == Some(d),
    ensures
        i <= d < b.len(),
        b[d] == '.',
    decreases b.len() - i,
{
    if i < b.len() && b[i] != '.' {
        lemma_first_dot_at(b, i + 1, d);
    }
}

/// The named collection of scoring coefficients, in centi-units.
#[derive(Clone, Copy, PartialEq, Eq, Structural, Debug)]
pub struct UrgencyConfig {
    pub priority_critical: i64,
    pub priority_high: i64,
    pub priority_medium: i64,
    pub priority_low: i64,
    pub blocking: i64,
    pub blocked: i64,
    pub age: i64,
    pub has_acceptance: i64,
    pub kind_bug: i64,
    pub kind_feature: i64,
    pub kind_task: i64,
    pub kind_epic: i64,
    pub in_progress: i64,
    pub notes_count: i64,
}

/// The built-in default weight set.
pub open spec fn spec_default_config() -> UrgencyConfig {
    UrgencyConfig {
        priority_critical: 1000,
        priority_high: 600,
        priority_medium: 300,
        priority_low: 100,
        blocking: 800,
        blocked: -1000i64,
        age: 200,
        has_acceptance: 100,
        kind_bug: 200,
        kind_feature: 0,
        kind_task: 0,
        kind_epic: -200i64,
        in_progress: 400,
        notes_count: 50,
    }
}

impl Default for UrgencyConfig {
    /// The built-in default weight set.
    fn default() -> (r: UrgencyConfig)
        ensures
            r == spec_default_config(),
            r.wf(),
    {
        UrgencyConfig {
            priority_critical: 1000,
            priority_high: 600,
            priority_medium: 300,
            priority_low: 100,
            blocking: 800,
            blocked: -1000,
            age: 200,
            has_acceptance: 100,
            kind_bug: 200,
            kind_feature: 0,
            kind_task: 0,
            kind_epic: -200,
            in_progress: 400,
            notes_count: 50,
        }
    }
}

/// The override value for `key` parsed as centi-units, or `dflt` where the
/// key is absent or its value does not parse.
pub open spec fn spec_load_weight(s: StoreV, key: Seq<char>, dflt: i64) -> i64 {
    if s.has_config(key) && spec_parse_weight(s.config_val(key)) is Some {
        spec_parse_weight(s.config_val(key))->Some_0 as i64
    } else {
        dflt
    }
}

/// The weight set resolved from a store's overrides over the defaults.
pub open spec fn spec_load(s: StoreV) -> UrgencyConfig {
    UrgencyConfig {
        priority_critical: spec_load_weight(s, "urgency.priority.critical"@, 1000),
        priority_high: spec_load_weight(s, "urgency.priority.high"@, 600),
        priority_medium: spec_load_weight(s, "urgency.priority.medium"@, 300),
        priority_low: spec_load_weight(s, "urgency.priority.low"@, 100),
        blocking: spec_load_weight(s, "urgency.blocking"@, 800),
        blocked: spec_load_weight(s, "urgency.blocked"@, -1000i64),
        age: spec_load_weight(s, "urgency.age"@, 200),
        has_acceptance: spec_load_weight(s, "urgency.has_acceptance"@, 100),
        kind_bug: spec_load_weight(s, "urgency.kind.bug"@, 200),
        kind_feature: spec_load_weight(s, "urgency.kind.feature"@, 0),
        kind_task: spec_load_weight(s, "urgency.kind.task"@, 0),
        kind_epic: spec_load_weight(s, "urgency.kind.epic"@, -200i64),
        in_progress: spec_load_weight(s, "urgency.in_progress"@, 400),
        notes_count: spec_load_weight(s, "urgency.notes_count"@, 50),
    }
}

/// One key resolved from the store's overrides.
fn load_key(store: &Store, key: &str, dflt: i64) -> (r: i64)
    requires
        store@.wf(),
        -WEIGHT_CAP <= dflt <= WEIGHT_CAP,
    ensures
        r == spec_load_weight(store@, key@, dflt),
        -WEIGHT_CAP <= r <= WEIGHT_CAP,
{
    match store.config_get(key) {
        Some(v) => match parse_weight(v.as_str()) {
            Some(w) => w,
            None => dflt,
        },
        None => dflt,
    }
}

impl UrgencyConfig {
    /// Every weight is within the cap.
    pub open spec fn wf(self) -> bool {
        &&& -WEIGHT_CAP <= self.priority_critical <= WEIGHT_CAP
        &&& -WEIGHT_CAP <= self.priority_high <= WEIGHT_CAP
        &&& -WEIGHT_CAP <= self.priority_medium <= WEIGHT_CAP
        &&& -WEIGHT_CAP <= self.priority_low <= WEIGHT_CAP
        &&& -WEIGHT_CAP <= self.blocking <= WEIGHT_CAP
        &&& -WEIGHT_CAP <= self.blocked <= WEIGHT_CAP
        &&& -WEIGHT_CAP <= self.age <= WEIGHT_CAP
        &&& -WEIGHT_CAP <= self.has_acceptance <= WEIGHT_CAP
        &&& -WEIGHT_CAP <= self.kind_bug <= WEIGHT_CAP
        &&& -WEIGHT_CAP <= self.kind_feature <= WEIGHT_CAP
        &&& -WEIGHT_CAP <= self.kind_task <= WEIGHT_CAP
        &&& -WEIGHT_CAP <= self.kind_epic <= WEIGHT_CAP
        &&& -WEIGHT_CAP <= self.in_progress <= WEIGHT_CAP
        &&& -WEIGHT_CAP <= self.notes_count <= WEIGHT_CAP
    }

    /// Resolves the weight set from the store's overrides; any key absent or
    /// unparsable falls back to its built-in default.
    pub fn load(store: &Store) -> (c: UrgencyConfig)
        requires
            store@.wf(),
        ensures
            c == spec_load(store@),
            c.wf(),
    {
        UrgencyConfig {
            priority_critical: load_key(store, "urgency.priority.critical", 1000),
            priority_high: load_key(store, "urgency.priority.high", 600),
            priority_medium: load_key(store, "urgency.priority.medium", 300),
            priority_low: load_key(store, "urgency.priority.low", 100),
            blocking: load_key(store, "urgency.blocking", 800),
            blocked: load_key(store, "urgency.blocked", -1000),
            age: load_key(store, "urgency.age", 200),
            has_acceptance: load_key(store, "urgency.has_acceptance", 100),
            kind_bug: load_key(store, "urgency.kind.bug", 200),
            kind_feature: load_key(store, "urgency.kind.feature", 0),
            kind_task: load_key(store, "urgency.kind.task", 0),
            kind_epic: load_key(store, "urgency.kind.epic", -200),
            in_progress: load_key(store, "urgency.in_progress", 400),
            notes_count: load_key(store, "urgency.notes_count", 50),
        }
    }

    /// The override keys with their built-in default weights, in centi-units.
    pub fn defaults_map() -> (r: Vec<(&'static str, i64)>)
        ensures
            r@.len() == 14,
            r@[0].0@ == "urgency.priority.critical"@ && r@[0].1
                == spec_default_config().priority_critical,
            r@[1].0@ == "urgency.priority.high"@ && r@[1].1 == spec_default_config().priority_high,
            r@[2].0@ == "urgency.priority.medium"@ && r@[2].1
                == spec_default_config().priority_medium,
            r@[3].0@ == "urgency.priority.low"@ && r@[3].1 == spec_default_config().priority_low,
            r@[4].0@ == "urgency.blocking"@ && r@[4].1 == spec_default_config().blocking,
            r@[5].0@ == "urgency.blocked"@ && r@[5].1 == spec_default_config().blocked,
            r@[6].0@ == "urgency.age"@ && r@[6].1 == spec_default_config().age,
            r@[7].0@ == "urgency.has_acceptance"@ && r@[7].1
                == spec_default_config().has_acceptance,
            r@[8].0@ == "urgency.kind.bug"@ && r@[8].1 == spec_default_config().kind_bug,
            r@[9].0@ == "urgency.kind.feature"@ && r@[9].1 == spec_default_config().kind_feature,
            r@[10].0@ == "urgency.kind.task"@ && r@[10].1 == spec_default_config().kind_task,
            r@[11].0@ == "urgency.kind.epic"@ && r@[11].1 == spec_default_config().kind_epic,
            r@[12].0@ == "urgency.in_progress"@ && r@[12].1 == spec_default_config().in_progress,
            r@[13].0@ == "urgency.notes_count"@ && r@[13].1 == spec_default_config().notes_count,
    {
        let mut r: Vec<(&'static str, i64)> = Vec::new();
        r.push(("urgency.priority.critical", 1000));
        r.push(("urgency.priority.high", 600));
        r.push(("urgency.priority.medium", 300));
        r.push(("urgency.priority.low", 100));
        r.push(("urgency.blocking", 800));
        r.push(("urgency.blocked", -1000));
        r.push(("urgency.age", 200));
        r.push(("urgency.has_acceptance", 100));
        r.push(("urgency.kind.bug", 200));
        r.push(("urgency.kind.feature", 0));
        r.push(("urgency.kind.task", 0));
        r.push(("urgency.kind.epic", -200));
        r.push(("urgency.in_progress", 400));
        r.push(("urgency.notes_count", 50));
        r
    }
}

/// The weight of an issue's priority tier.
pub open spec fn spec_priority_weight(c: UrgencyConfig, p: Priority) -> i64 {
    match p {
        Priority::Critical => c.priority_critical,
        Priority::High => c.priority_high,
        Priority::Medium => c.priority_medium,
        Priority::Low => c.priority_low,
    }
}

/// The weight of an issue's kind.
pub open spec fn spec_kind_weight(c: UrgencyConfig, k: Kind) -> i64 {
    match k {
        Kind::Bug => c.kind_bug,
        Kind::Feature => c.kind_feature,
        Kind::Task => c.kind_task,
        Kind::Epic => c.kind_epic,
    }
}

/// `w` scaled by the ratio `num / den`, rounded toward zero.
pub open spec fn spec_ratio(w: int, num: int, den: int) -> int
    recommends
        0 < den,
        0 <= num <= den,
{
    if w >= 0 {
        (w * num) / den
    } else {
        -(((-w) * num) / den)
    }
}

/// The age ramp numerator: seconds capped at ten days.
pub open spec fn spec_age_num(age_secs: int) -> int {
    if age_secs > 864000 {
        864000
    } else if age_secs < 0 {
        0
    } else {
        age_secs
    }
}

/// The age component of a score.
pub open spec fn spec_age_component(c: UrgencyConfig, age_secs: int) -> int {
    spec_ratio(c.age as int, spec_age_num(age_secs), 864000)
}

/// The note-count ramp numerator: notes capped at six.
pub open spec fn spec_notes_num(n: int) -> int {
    if n > 6 {
        6
    } else if n < 0 {
        0
    } else {
        n
    }
}

/// The note-count component of a score.
pub open spec fn spec_notes_component(c: UrgencyConfig, n: int) -> int {
    spec_ratio(c.notes_count as int, spec_notes_num(n), 6)
}

/// `w` scaled by `num / den`, rounded toward zero.
fn ratio_component(w: i64, num: i64, den: i64) -> (r: i64)
    requires
        0 < den <= 864000,
        0 <= num <= den,
        -WEIGHT_CAP <= w <= WEIGHT_CAP,
    ensures
        r == spec_ratio(w as int, num as int, den as int),
        -WEIGHT_CAP <= r <= WEIGHT_CAP,
{
    if w >= 0 {
        proof {
            assert((w as int) * (num as int) <= 1000000int * 864000int && 0 <= (w as int) * (
            num as int)) by (nonlinear_arith)
                requires
                    0 <= w <= 1000000,
                    0 <= num <= 864000,
            ;
        }
        let p = w * num;
        let q = ((p as u64) / (den as u64)) as i64;
        proof {
            vstd::arithmetic::div_mod::lemma_div_pos_is_pos(p as int, den as int);
            assert((w as int) * (num as int) <= (w as int) * (den as int)) by (nonlinear_arith)
                requires
                    0 <= w,
                    num <= den,
            ;
            vstd::arithmetic::div_mod::lemma_div_is_ordered(
                p as int,
                (w as int) * (den as int),
                den as int,
            );
            vstd::arithmetic::div_mod::lemma_div_multiples_vanish(w as int, den as int);
        }
        q
    } else {
        let m = -w;
        proof {
            assert((m as int) * (num as int) <= 1000000int * 864000int && 0 <= (m as int) * (
            num as int)) by (nonlinear_arith)
                requires
                    0 <= m <= 1000000,
                    0 <= num <= 864000,
            ;
        }
        let p = m * num;
        let q = ((p as u64) / (den as u64)) as i64;
        proof {
            vstd::arithmetic::div_mod::lemma_div_pos_is_pos(p as int, den as int);
            assert((m as int) * (num as int) <= (m as int) * (den as int)) by (nonlinear_arith)
                requires
                    0 <= m,
                    num <= den,
            ;
            vstd::arithmetic::div_mod::lemma_div_is_ordered(
                p as int,
                (m as int) * (den as int),
                den as int,
            );
            vstd::arithmetic::div_mod::lemma_div_multiples_vanish(m as int, den as int);
        }
        -q
    }
}

/// The total urgency score, in centi-units: the sum of every component,
/// a function of the explicit arguments alone.
pub open spec fn spec_score(
    c: UrgencyConfig,
    iv: IssueV,
    blocking: bool,
    blocked: bool,
    note_count: int,
    now: i64,
) -> int {
    let age = spec_age_seconds(epoch_of(iv.created_at), now) as int;
    spec_priority_weight(c, iv.priority) + spec_kind_weight(c, iv.kind) + (if blocking {
        c.blocking as int
    } else {
        0
    }) + (if blocked {
        c.blocked as int
    } else {
        0
    }) + spec_age_component(c, age) + (if iv.status is InProgress {
        c.in_progress as int
    } else {
        0
    }) + (if iv.acceptance.len() > 0 {
        c.has_acceptance as int
    } else {
        0
    }) + spec_notes_component(c, note_count)
}

/// The per-component breakdown: priority and kind always, the conditional
/// bonuses only when they apply, age always, and the note component only when
/// it is positive.
pub open spec fn spec_breakdown(
    c: UrgencyConfig,
    iv: IssueV,
    blocking: bool,
    blocked: bool,
    note_count: int,
    now: i64,
) -> Seq<(ComponentKey, i64)> {
    let age = spec_age_seconds(epoch_of(iv.created_at), now) as int;
    let nc = spec_notes_component(c, note_count);
    let s1 = seq![
        (ComponentKey::PriorityTier(iv.priority), spec_priority_weight(c, iv.priority)),
        (ComponentKey::KindTier(iv.kind), spec_kind_weight(c, iv.kind)),
    ];
    let s2 = if blocking {
        s1.push((ComponentKey::Blocking, c.blocking))
    } else {
        s1
    };
    let s3 = if blocked {
        s2.push((ComponentKey::Blocked, c.blocked))
    } else {
        s2
    };
    let s4 = s3.push((ComponentKey::Age, spec_age_component(c, age) as i64));
    let s5 = if iv.status is InProgress {
        s4.push((ComponentKey::InProgress, c.in_progress))
    } else {
        s4
    };
    let s6 = if iv.acceptance.len() > 0 {
        s5.push((ComponentKey::HasAcceptance, c.has_acceptance))
    } else {
        s5
    };
    if nc > 0 {
        s6.push((ComponentKey::Notes, nc as i64))
    } else {
        s6
    }
}

/// The component list of a score.
#[verifier::rlimit(60)]
fn breakdown_components(
    issue: &Issue,
    blocking: bool,
    blocked: bool,
    note_count: usize,
    now: i64,
    config: &UrgencyConfig,
) -> (v: Vec<(ComponentKey, i64)>)
    requires
        config.wf(),
    ensures
        v@ == spec_breakdown(*config, issue@, blocking, blocked, note_count as int, now),
{
    let ghost c = *config;
    let ghost iv = issue@;
    let ghost age_g = spec_age_seconds(epoch_of(iv.created_at), now) as int;
    let ghost ncomp = spec_notes_component(c, note_count as int);
    let ghost s1 = seq![
        (ComponentKey::PriorityTier(iv.priority), spec_priority_weight(c, iv.priority)),
        (ComponentKey::KindTier(iv.kind), spec_kind_weight(c, iv.kind)),
    ];
    let ghost s2 = if blocking {
        s1.push((ComponentKey::Blocking, c.blocking))
    } else {
        s1
    };
    let ghost s3 = if blocked {
        s2.push((ComponentKey::Blocked, c.blocked))
    } else {
        s2
    };
    let ghost s4 = s3.push((ComponentKey::Age, spec_age_component(c, age_g) as i64));
    let ghost s5 = if iv.status is InProgress {
        s4.push((ComponentKey::InProgress, c.in_progress))
    } else {
        s4
    };
    let ghost s6 = if iv.acceptance.len() > 0 {
        s5.push((ComponentKey::HasAcceptance, c.has_acceptance))
    } else {
        s5
    };
    let ghost s7 = if ncomp > 0 {
        s6.push((ComponentKey::Notes, ncomp as i64))
    } else {
        s6
    };
    proof {
        assert(s7 == spec_breakdown(c, iv, blocking, blocked, note_count as int, now));
    }

    let mut components: Vec<(ComponentKey, i64)> = Vec::new();
    let pw = priority_weight(config, issue.priority);
    components.push((ComponentKey::PriorityTier(issue.priority), pw));
    let kw = kind_weight(config, issue.kind);
    components.push((ComponentKey::KindTier(issue.kind), kw));
    proof {
        assert(components@ =~= s1);
    }
    if blocking {
        components.push((ComponentKey::Blocking, config.blocking));
    }
    proof {
        assert(components@ == s2);
    }
    if blocked {
        components.push((ComponentKey::Blocked, config.blocked));
    }
    proof {
        assert(components@ == s3);
    }
    let av = age_component(issue, now, config);
    components.push((ComponentKey::Age, av));
    proof {
        assert(components@ == s4);
    }
    if issue.status == Status::InProgress {
        components.push((ComponentKey::InProgress, config.in_progress));
    }
    proof {
        assert(components@ == s5);
    }
    if !issue.acceptance.as_str().is_empty() {
        components.push((ComponentKey::HasAcceptance, config.has_acceptance));
    }
    proof {
        assert(components@ == s6);
    }
    let nv = notes_component(note_count, config);
    if nv > 0 {
        components.push((ComponentKey::Notes, nv));
    }
    proof {
        assert(components@ == s7);
    }
    components
}

/// The weight of the issue's priority tier.
fn priority_weight(config: &UrgencyConfig, p: Priority) -> (r: i64)
    ensures
        r == spec_priority_weight(*config, p),
{
    match p {
        Priority::Critical => config.priority_critical,
        Priority::High => config.priority_high,
        Priority::Medium => config.priority_medium,
        Priority::Low => config.priority_low,
    }
}

/// The weight of the issue's kind.
fn kind_weight(config: &UrgencyConfig, k: Kind) -> (r: i64)
    ensures
        r == spec_kind_weight(*config, k),
{
    match k {
        Kind::Bug => config.kind_bug,
        Kind::Feature => config.kind_feature,
        Kind::Task => config.kind_task,
        Kind::Epic => config.kind_epic,
    }
}

/// The age component of the issue's score.
fn age_component(issue: &Issue, now: i64, config: &UrgencyConfig) -> (r: i64)
    requires
        config.wf(),
    ensures
        r as int == spec_age_component(
            *config,
            spec_age_seconds(epoch_of(issue@.created_at), now) as int,
        ),
        -WEIGHT_CAP <= r <= WEIGHT_CAP,
{
    let age = age_seconds(issue.created_at.as_str(), now);
    let age_num = if age > AGE_RAMP_SECONDS {
        AGE_RAMP_SECONDS
    } else {
        age
    };
    ratio_component(config.age, age_num, AGE_RAMP_SECONDS)
}

/// The note-count component of the issue's score.
fn notes_component(note_count: usize, config: &UrgencyConfig) -> (r: i64)
    requires
        config.wf(),
    ensures
        r as int == spec_notes_component(*config, note_count as int),
        -WEIGHT_CAP <= r <= WEIGHT_CAP,
{
    let notes_capped: usize = if note_count > 6 {
        6
    } else {
        note_count
    };
    ratio_component(config.notes_count, notes_capped as i64, 6)
}

/// Scores an issue from its graph-derived facts: a pure computation whose
/// result depends on the arguments alone.
#[verifier::rlimit(60)]
pub fn score_from_facts(
    issue: &Issue,
    blocking: bool,
    blocked: bool,
    note_count: usize,
    now: i64,
    config: &UrgencyConfig,
) -> (r: (i64, UrgencyBreakdown))
    requires
        config.wf(),
    ensures
        r.0 == spec_score(*config, issue@, blocking, blocked, note_count as int, now),
        r.1.components@ == spec_breakdown(*config, issue@, blocking, blocked, note_count as int, now),
{
    let components = breakdown_components(issue, blocking, blocked, note_count, now, config);
    let mut score: i64 = 0;
    score = score + priority_weight(config, issue.priority);
    score = score + kind_weight(config, issue.kind);
    if blocking {
        score = score + config.blocking;
    }
    if blocked {
        score = score + config.blocked;
    }
    score = score + age_component(issue, now, config);
    if issue.status == Status::InProgress {
        score = score + config.in_progress;
    }
    if !issue.acceptance.as_str().is_empty() {
        score = score + config.has_acceptance;
    }
    score = score + notes_component(note_count, config);
    (score, UrgencyBreakdown { components })
}

/// Scores an issue against the store it lives in: the graph facts and the
/// note count are read from the store, the time is an explicit argument, so
/// repeated calls on identical state return the identical score and breakdown.
pub fn compute_urgency_with_breakdown(
    issue: &Issue,
    config: &UrgencyConfig,
    store: &Store,
    now: i64,
) -> (r: (i64, UrgencyBreakdown))
    requires
        store@.wf(),
        config.wf(),
    ensures
        r.0 == spec_score(
            *config,
            issue@,
            spec_blocks_active(store@, issue.id),
            spec_is_blocked(store@, issue.id),
            store@.notes.filter(note_for(issue.id)).len() as int,
            now,
        ),
        r.1.components@ == spec_breakdown(
            *config,
            issue@,
            spec_blocks_active(store@, issue.id),
            spec_is_blocked(store@, issue.id),
            store@.notes.filter(note_for(issue.id)).len() as int,
            now,
        ),
{
    let blocking = store.blocks_active_issues(issue.id);
    let blocked = store.is_blocked(issue.id);
    let n = store.count_notes(issue.id);
    score_from_facts(issue, blocking, blocked, n, now, config)
}

/// The scalar urgency score of an issue against its store.
pub fn compute_urgency(issue: &Issue, config: &UrgencyConfig, store: &Store, now: i64) -> (r: i64)
    requires
        store@.wf(),
        config.wf(),
    ensures
        r == spec_score(
            *config,
            issue@,
            spec_blocks_active(store@, issue.id),
            spec_is_blocked(store@, issue.id),
            store@.notes.filter(note_for(issue.id)).len() as int,
            now,
        ),
{
    let (score, _breakdown) = compute_urgency_with_breakdown(issue, config, store, now);
    score
}

/// Age-ramp saturation: every age of at least ten days yields the same age
/// component, whatever the weight set.
pub proof fn lemma_age_component_saturates(c: UrgencyConfig, age1: int, age2: int)
    requires
        age1 >= 864000,
        age2 >= 864000,
    ensures
        spec_age_component(c, age1) == spec_age_component(c, age2),
{
}

/// Two issues that agree on every score-relevant field and are both at least
/// ten days old receive identical scores, whatever the weight set: the age
/// ramp saturates.
pub proof fn lemma_score_age_saturation(
    c: UrgencyConfig,
    iv1: IssueV,
    iv2: IssueV,
    blocking: bool,
    blocked: bool,
    note_count: int,
    now: i64,
)
    requires
        iv1.priority == iv2.priority,
        iv1.kind == iv2.kind,
        iv1.status == iv2.status,
        iv1.acceptance == iv2.acceptance,
        spec_age_seconds(epoch_of(iv1.created_at), now) >= 864000,
        spec_age_seconds(epoch_of(iv2.created_at), now) >= 864000,
    ensures
        spec_score(c, iv1, blocking, blocked, note_count, now) == spec_score(
            c,
            iv2,
            blocking,
            blocked,
            note_count,
            now,
        ),
        spec_breakdown(c, iv1, blocking, blocked, note_count, now) == spec_breakdown(
            c,
            iv2,
            blocking,
            blocked,
            note_count,
            now,
        ),
{
    let age1 = spec_age_seconds(epoch_of(iv1.created_at), now) as int;
    let age2 = spec_age_seconds(epoch_of(iv2.created_at), now) as int;
    lemma_age_component_saturates(c, age1, age2);
}


} // verus!
