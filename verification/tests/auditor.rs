//! Consistency auditor scenarios: orphaned edges, cycles in corrupt data,
//! stale work, empty epics, and terminal blockers.

use nit::doctor::Finding;
use nit::store::Store;
use nit::types::{Kind, Priority, Status};

const STALE_DAYS: i64 = 3;
const AUDIT_NOW_TEXT: &str = "2024-06-01T00:00:00Z";

fn audit_now() -> i64 {
    chrono::NaiveDateTime::parse_from_str(AUDIT_NOW_TEXT, "%Y-%m-%dT%H:%M:%SZ")
        .unwrap()
        .and_utc()
        .timestamp()
}

fn audit_add(store: &mut Store, title: &str, kind: Kind, stamp: &str) -> i64 {
    let issue = store.insert_issue(
        title.to_string(),
        Priority::Medium,
        kind,
        String::new(),
        vec![],
        vec![],
        String::new(),
        None,
        stamp.to_string(),
    );
    issue.id
}

#[test]
fn orphaned_edge_is_reported_fixed_and_then_clean() {
    let mut store = Store::new();
    let x = audit_add(&mut store, "x", Kind::Task, AUDIT_NOW_TEXT);
    // An edge referencing a nonexistent issue, planted behind the engine's
    // back, the way a bypassed referential-integrity cascade would leave it.
    store.edges.push((9999, x));
    let report = store.audit(true, STALE_DAYS, audit_now());
    assert!(!report.clean);
    assert_eq!(report.problems.len(), 1);
    match report.problems[0] {
        Finding::OrphanedDependency { blocker_id, blocked_id } => {
            assert_eq!(blocker_id, 9999);
            assert_eq!(blocked_id, x);
        }
        _ => panic!("expected an orphaned-dependency finding"),
    }
    assert!(report.problems[0].fixable());
    assert_eq!(report.fixed_orphans, 1);
    assert_eq!(store.edges.len(), 0);

    let second = store.audit(false, STALE_DAYS, audit_now());
    assert!(second.clean);
    assert_eq!(second.problems.len(), 0);
}

#[test]
fn planted_cycle_is_reported_but_not_fixed() {
    let mut store = Store::new();
    let a = audit_add(&mut store, "a", Kind::Task, AUDIT_NOW_TEXT);
    let b = audit_add(&mut store, "b", Kind::Task, AUDIT_NOW_TEXT);
    store.add_dependency(a, b).unwrap();
    // The reverse edge cannot enter through the engine; plant it directly.
    store.edges.push((b, a));
    let report = store.audit(true, STALE_DAYS, audit_now());
    let cycles: Vec<&Finding> = report
        .problems
        .iter()
        .filter(|f| matches!(f, Finding::CircularDependency { .. }))
        .collect();
    assert_eq!(cycles.len(), 2);
    assert!(!cycles[0].fixable());
    // Both edges survive: cycles need a human call.
    assert_eq!(store.edges.len(), 2);
}

#[test]
fn stale_in_progress_is_reported() {
    let mut store = Store::new();
    let a = audit_add(&mut store, "a", Kind::Task, "2024-05-20T00:00:00Z");
    store.set_status(a, Status::InProgress, "2024-05-20T00:00:00Z").unwrap();
    let fresh = audit_add(&mut store, "fresh", Kind::Task, AUDIT_NOW_TEXT);
    store.set_status(fresh, Status::InProgress, AUDIT_NOW_TEXT).unwrap();
    let report = store.audit(false, STALE_DAYS, audit_now());
    assert_eq!(report.problems.len(), 1);
    match report.problems[0] {
        Finding::StaleInProgress { id, days } => {
            assert_eq!(id, a);
            assert_eq!(days, 12);
        }
        _ => panic!("expected a stale-in-progress finding"),
    }
    assert!(!report.problems[0].fixable());
}

#[test]
fn empty_epic_is_reported_until_it_has_a_child() {
    let mut store = Store::new();
    let epic = audit_add(&mut store, "epic", Kind::Epic, AUDIT_NOW_TEXT);
    let report = store.audit(false, STALE_DAYS, audit_now());
    assert_eq!(report.problems.len(), 1);
    match report.problems[0] {
        Finding::EmptyEpic { id } => assert_eq!(id, epic),
        _ => panic!("expected an empty-epic finding"),
    }
    let child = audit_add(&mut store, "child", Kind::Task, AUDIT_NOW_TEXT);
    store.update_issue_parent(child, Some(epic), AUDIT_NOW_TEXT).unwrap();
    let second = store.audit(false, STALE_DAYS, audit_now());
    assert!(second.clean);
}

#[test]
fn done_blocker_edge_is_reported_and_fixed() {
    let mut store = Store::new();
    let a = audit_add(&mut store, "a", Kind::Task, AUDIT_NOW_TEXT);
    let b = audit_add(&mut store, "b", Kind::Task, AUDIT_NOW_TEXT);
    store.add_dependency(a, b).unwrap();
    store.set_status(a, Status::Done, AUDIT_NOW_TEXT).unwrap();
    let report = store.audit(true, STALE_DAYS, audit_now());
    assert_eq!(report.problems.len(), 1);
    match report.problems[0] {
        Finding::DoneBlocker { blocker_id, blocked_id } => {
            assert_eq!(blocker_id, a);
            assert_eq!(blocked_id, b);
        }
        _ => panic!("expected a done-blocker finding"),
    }
    assert!(report.problems[0].fixable());
    assert_eq!(report.fixed_done_blockers, 1);
    assert_eq!(store.edges.len(), 0);
    assert!(store.audit(false, STALE_DAYS, audit_now()).clean);
}
