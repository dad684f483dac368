//! Dependency-graph engine scenarios: registration, blocking, cycle
//! rejection, idempotent insertion, and the unblock transition.

use nit::error::NitError;
use nit::models::ComponentKey;
use nit::store::Store;
use nit::types::{Kind, Priority, Status};
use nit::urgency::{compute_urgency_with_breakdown, UrgencyConfig};

const NOW_TEXT: &str = "2024-06-01T00:00:00Z";

fn engine_now() -> i64 {
    chrono::NaiveDateTime::parse_from_str(NOW_TEXT, "%Y-%m-%dT%H:%M:%SZ")
        .unwrap()
        .and_utc()
        .timestamp()
}

fn engine_add(store: &mut Store, title: &str, priority: Priority, kind: Kind) -> i64 {
    let issue = store.insert_issue(
        title.to_string(),
        priority,
        kind,
        String::new(),
        vec![],
        vec![],
        String::new(),
        None,
        NOW_TEXT.to_string(),
    );
    issue.id
}

#[test]
fn dependency_registers_in_both_directions() {
    let mut store = Store::new();
    let a = engine_add(&mut store, "blocker", Priority::Medium, Kind::Task);
    let b = engine_add(&mut store, "blocked", Priority::Medium, Kind::Task);
    assert_eq!(store.add_dependency(a, b).unwrap(), true);
    assert!(store.get_blockers(b).contains(&a));
    assert!(store.get_blocking(a).contains(&b));
}

#[test]
fn dependency_insertion_is_idempotent() {
    let mut store = Store::new();
    let a = engine_add(&mut store, "blocker", Priority::Medium, Kind::Task);
    let b = engine_add(&mut store, "blocked", Priority::Medium, Kind::Task);
    assert_eq!(store.add_dependency(a, b).unwrap(), true);
    assert_eq!(store.add_dependency(a, b).unwrap(), false);
    assert_eq!(store.edges.len(), 1);
}

#[test]
fn dependency_on_missing_issue_is_not_found() {
    let mut store = Store::new();
    let a = engine_add(&mut store, "only", Priority::Medium, Kind::Task);
    match store.add_dependency(a, 42) {
        Err(NitError::NotFound(id)) => assert_eq!(id, 42),
        _ => panic!("expected NotFound"),
    }
    match store.add_dependency(42, a) {
        Err(NitError::NotFound(id)) => assert_eq!(id, 42),
        _ => panic!("expected NotFound"),
    }
    assert_eq!(store.edges.len(), 0);
}

#[test]
fn cycle_is_rejected_and_graph_unchanged() {
    let mut store = Store::new();
    let one = engine_add(&mut store, "first", Priority::Medium, Kind::Task);
    let two = engine_add(&mut store, "second", Priority::Medium, Kind::Task);
    assert_eq!(one, 1);
    assert_eq!(two, 2);
    assert_eq!(store.add_dependency(1, 2).unwrap(), true);
    match store.add_dependency(2, 1) {
        Err(NitError::CycleDetected(_)) => {}
        _ => panic!("expected CycleDetected"),
    }
    assert_eq!(store.edges.len(), 1);
    assert_eq!(store.edges[0], (1, 2));
}

#[test]
fn longer_cycle_is_rejected() {
    let mut store = Store::new();
    let a = engine_add(&mut store, "a", Priority::Medium, Kind::Task);
    let b = engine_add(&mut store, "b", Priority::Medium, Kind::Task);
    let c = engine_add(&mut store, "c", Priority::Medium, Kind::Task);
    assert_eq!(store.add_dependency(a, b).unwrap(), true);
    assert_eq!(store.add_dependency(b, c).unwrap(), true);
    match store.add_dependency(c, a) {
        Err(NitError::CycleDetected(_)) => {}
        _ => panic!("expected CycleDetected"),
    }
    assert_eq!(store.edges.len(), 2);
}

#[test]
fn self_dependency_is_rejected() {
    let mut store = Store::new();
    let a = engine_add(&mut store, "a", Priority::Medium, Kind::Task);
    match store.add_dependency(a, a) {
        Err(NitError::CycleDetected(_)) => {}
        _ => panic!("expected CycleDetected"),
    }
}

#[test]
fn remove_dependency_deletes_the_edge() {
    let mut store = Store::new();
    let a = engine_add(&mut store, "a", Priority::Medium, Kind::Task);
    let b = engine_add(&mut store, "b", Priority::Medium, Kind::Task);
    store.add_dependency(a, b).unwrap();
    store.remove_dependency(a, b).unwrap();
    assert_eq!(store.edges.len(), 0);
    // Removing an absent edge still succeeds.
    store.remove_dependency(a, b).unwrap();
}

#[test]
fn live_blocker_blocks_and_terminal_blocker_does_not() {
    let mut store = Store::new();
    let a = engine_add(&mut store, "a", Priority::Medium, Kind::Task);
    let b = engine_add(&mut store, "b", Priority::Medium, Kind::Task);
    store.add_dependency(a, b).unwrap();
    assert!(store.is_blocked(b));
    assert!(store.blocks_active_issues(a));
    store.set_status(a, Status::Done, NOW_TEXT).unwrap();
    assert!(!store.is_blocked(b));
}

#[test]
fn end_to_end_block_score_close_unblock() {
    let mut store = Store::new();
    let a = engine_add(&mut store, "critical bug", Priority::Critical, Kind::Bug);
    let b = engine_add(&mut store, "low task", Priority::Low, Kind::Task);
    assert_eq!(store.add_dependency(a, b).unwrap(), true);
    assert!(store.is_blocked(b));

    let config = UrgencyConfig::default();
    let issue_b = store.get_issue(b).unwrap();
    let (_, breakdown) = compute_urgency_with_breakdown(&issue_b, &config, &store, engine_now());
    let blocked_component = breakdown
        .components
        .iter()
        .find(|(k, _)| *k == ComponentKey::Blocked)
        .expect("blocked component present");
    assert!(blocked_component.1 < 0);

    store.set_status(a, Status::Done, NOW_TEXT).unwrap();
    let unblocked = store.get_newly_unblocked(a);
    assert_eq!(unblocked.len(), 1);
    assert_eq!(unblocked[0].0, b);
    assert_eq!(unblocked[0].1, "low task");
    assert!(!store.is_blocked(b));
}

#[test]
fn newly_unblocked_respects_other_live_blockers() {
    let mut store = Store::new();
    let a = engine_add(&mut store, "a", Priority::Medium, Kind::Task);
    let c = engine_add(&mut store, "c", Priority::Medium, Kind::Task);
    let b = engine_add(&mut store, "b", Priority::Medium, Kind::Task);
    store.add_dependency(a, b).unwrap();
    store.add_dependency(c, b).unwrap();
    // Another live blocker remains, so closing `a` frees nothing.
    assert_eq!(store.get_newly_unblocked(a).len(), 0);
    store.set_status(c, Status::Wontfix, NOW_TEXT).unwrap();
    let unblocked = store.get_newly_unblocked(a);
    assert_eq!(unblocked.len(), 1);
    assert_eq!(unblocked[0].0, b);
}
