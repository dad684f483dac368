//! Store behaviour: creation, typed updates, notes, configuration, listing,
//! ranking and statistics.

use nit::listing::{sort_summaries, SortKey};
use nit::store::Store;
use nit::textfmt::Format;
use nit::types::{
    default_kind, default_priority, priority_ord, validate_kind, validate_priority,
    validate_status, Kind, Priority, Status,
};
use nit::urgency::UrgencyConfig;

const STAMP: &str = "2024-06-01T00:00:00Z";

fn storage_now() -> i64 {
    chrono::NaiveDateTime::parse_from_str(STAMP, "%Y-%m-%dT%H:%M:%SZ")
        .unwrap()
        .and_utc()
        .timestamp()
}

fn storage_add(store: &mut Store, title: &str, priority: Priority, kind: Kind) -> i64 {
    let issue = store.insert_issue(
        title.to_string(),
        priority,
        kind,
        String::new(),
        vec![],
        vec![],
        String::new(),
        None,
        STAMP.to_string(),
    );
    issue.id
}

#[test]
fn insert_assigns_sequential_ids_and_defaults() {
    let mut store = Store::new();
    let a = storage_add(&mut store, "first", default_priority(), default_kind());
    let b = storage_add(&mut store, "second", Priority::High, Kind::Bug);
    assert_eq!(a, 1);
    assert_eq!(b, 2);
    let issue = store.get_issue(a).unwrap();
    assert_eq!(issue.title, "first");
    assert_eq!(issue.status, Status::Open);
    assert_eq!(issue.priority, Priority::Medium);
    assert_eq!(issue.kind, Kind::Task);
    assert_eq!(issue.created_at, STAMP);
    assert!(store.issue_exists(b));
    assert!(!store.issue_exists(99));
    assert!(store.get_issue(99).is_err());
}

#[test]
fn typed_updates_refresh_the_update_stamp() {
    let mut store = Store::new();
    let a = storage_add(&mut store, "task", Priority::Low, Kind::Task);
    store.set_status(a, Status::InProgress, "2024-06-02T00:00:00Z").unwrap();
    store.set_title(a, "renamed".to_string(), "2024-06-03T00:00:00Z").unwrap();
    store.set_close_reason(a, "duplicate".to_string(), "2024-06-04T00:00:00Z").unwrap();
    let issue = store.get_issue(a).unwrap();
    assert_eq!(issue.status, Status::InProgress);
    assert_eq!(issue.title, "renamed");
    assert_eq!(issue.close_reason, "duplicate");
    assert_eq!(issue.created_at, STAMP);
    assert_eq!(issue.updated_at, "2024-06-04T00:00:00Z");
    assert!(store.set_status(99, Status::Done, STAMP).is_err());
}

#[test]
fn notes_append_in_order_and_count() {
    let mut store = Store::new();
    let a = storage_add(&mut store, "task", Priority::Low, Kind::Task);
    let n1 = store
        .add_note(a, "first note".to_string(), "agent-one".to_string(), STAMP.to_string())
        .unwrap();
    let n2 = store
        .add_note(a, "second note".to_string(), String::new(), STAMP.to_string())
        .unwrap();
    assert_eq!(n1.id, 1);
    assert_eq!(n2.id, 2);
    let notes = store.get_notes(a);
    assert_eq!(notes.len(), 2);
    assert_eq!(notes[0].content, "first note");
    assert_eq!(notes[0].agent, "agent-one");
    assert_eq!(notes[1].content, "second note");
    assert_eq!(store.count_notes(a), 2);
    assert!(store.add_note(99, "x".to_string(), String::new(), STAMP.to_string()).is_err());
}

#[test]
fn config_set_get_list_reset() {
    let mut store = Store::new();
    assert_eq!(store.config_get("urgency.blocked"), None);
    store.config_set("urgency.blocked", "-5");
    store.config_set("other.key", "hello");
    store.config_set("urgency.blocked", "-7");
    assert_eq!(store.config_get("urgency.blocked").unwrap(), "-7");
    assert_eq!(store.config_get("other.key").unwrap(), "hello");
    let listed = store.config_list();
    assert_eq!(listed.len(), 2);
    store.config_reset();
    assert_eq!(store.config_list().len(), 0);
    assert_eq!(store.config_get("other.key"), None);
}

#[test]
fn validation_accepts_known_and_rejects_unknown_values() {
    assert!(validate_priority("critical").is_ok());
    assert!(validate_priority("urgent").is_err());
    assert!(validate_kind("epic").is_ok());
    assert!(validate_kind("story").is_err());
    assert!(validate_status("in-progress").is_ok());
    assert!(validate_status("paused").is_err());
    let err = validate_status("paused").unwrap_err();
    assert_eq!(err.error_code(), "INVALID_VALUE");
    assert_eq!(err.exit_code(), 1);
}

#[test]
fn enum_parsing_round_trips() {
    assert_eq!(Status::parse("wontfix"), Some(Status::Wontfix));
    assert_eq!(Status::parse("closed"), None);
    assert_eq!(Priority::parse("high"), Some(Priority::High));
    assert_eq!(Kind::parse("feature"), Some(Kind::Feature));
    assert_eq!(Status::Done.as_str(), "done");
    assert_eq!(Priority::Low.as_str(), "low");
    assert_eq!(Kind::Epic.as_str(), "epic");
    assert_eq!(priority_ord(Priority::Critical), 0);
    assert_eq!(priority_ord(Priority::Low), 3);
    assert_eq!(Format::from_str("json"), Some(Format::Json));
    assert_eq!(Format::from_str("fancy"), None);
    assert!(Format::Json.is_json());
    assert!(!Format::Compact.is_json());
}

#[test]
fn listing_filters_by_status_tag_and_blocked_state() {
    let mut store = Store::new();
    let a = storage_add(&mut store, "open one", Priority::Medium, Kind::Task);
    let b = storage_add(&mut store, "done one", Priority::Medium, Kind::Task);
    let c = storage_add(&mut store, "blocked one", Priority::Medium, Kind::Task);
    store.set_status(b, Status::Done, STAMP).unwrap();
    store.set_tags(a, vec!["web".to_string(), "ui".to_string()], STAMP).unwrap();
    store.add_dependency(a, c).unwrap();

    // Default listing: non-terminal, unblocked.
    let listed = store.list_issues(&vec![], &vec![], &vec![], &vec![], false, false, None, false);
    assert_eq!(listed.len(), 1);
    assert_eq!(listed[0].id, a);

    // Include blocked.
    let listed = store.list_issues(&vec![], &vec![], &vec![], &vec![], false, true, None, false);
    assert_eq!(listed.len(), 2);

    // Blocked only.
    let listed = store.list_issues(&vec![], &vec![], &vec![], &vec![], true, false, None, false);
    assert_eq!(listed.len(), 1);
    assert_eq!(listed[0].id, c);

    // Everything.
    let listed = store.list_issues(&vec![], &vec![], &vec![], &vec![], false, false, None, true);
    assert_eq!(listed.len(), 3);

    // Tag filter uses AND logic.
    let listed = store.list_issues(
        &vec![],
        &vec![],
        &vec![],
        &vec!["web".to_string(), "ui".to_string()],
        false,
        true,
        None,
        false,
    );
    assert_eq!(listed.len(), 1);
    assert_eq!(listed[0].id, a);
    let listed = store.list_issues(
        &vec![],
        &vec![],
        &vec![],
        &vec!["web".to_string(), "backend".to_string()],
        false,
        true,
        None,
        false,
    );
    assert_eq!(listed.len(), 0);
}

#[test]
fn summaries_sort_by_urgency_descending() {
    let mut store = Store::new();
    let low = storage_add(&mut store, "low", Priority::Low, Kind::Task);
    let crit = storage_add(&mut store, "crit", Priority::Critical, Kind::Bug);
    let med = storage_add(&mut store, "med", Priority::Medium, Kind::Task);
    let config = UrgencyConfig::load(&store);
    let now = storage_now();
    let mut summaries = Vec::new();
    for issue in store.all_issues() {
        summaries.push(store.make_summary(&issue, &config, now));
    }
    sort_summaries(&mut summaries, SortKey::Urgency);
    assert_eq!(summaries[0].id, crit);
    assert_eq!(summaries[1].id, med);
    assert_eq!(summaries[2].id, low);
    sort_summaries(&mut summaries, SortKey::Id);
    assert_eq!(summaries[0].id, low);
    assert_eq!(summaries[2].id, med);
    let next = nit::listing::pick_next(&summaries).unwrap();
    assert_eq!(summaries[next].id, crit);
}

#[test]
fn stats_count_statuses_blocked_and_ready() {
    let mut store = Store::new();
    let a = storage_add(&mut store, "a", Priority::Critical, Kind::Bug);
    let b = storage_add(&mut store, "b", Priority::Low, Kind::Task);
    let c = storage_add(&mut store, "c", Priority::Medium, Kind::Epic);
    store.set_status(c, Status::Done, STAMP).unwrap();
    store.add_dependency(a, b).unwrap();
    let config = UrgencyConfig::load(&store);
    let stats = store.compute_stats(&config, storage_now());
    assert_eq!(stats.total, 3);
    assert_eq!(stats.by_status.open, 2);
    assert_eq!(stats.by_status.done, 1);
    assert_eq!(stats.by_priority.critical, 1);
    assert_eq!(stats.by_kind.epic, 1);
    assert_eq!(stats.blocked, 1);
    assert_eq!(stats.ready, 1);
    // a: critical 1000 + bug 200 + blocking 800 = 2000; b: low 100 + blocked
    // -1000 = -900; average over the two active issues is 550 centi-units.
    assert_eq!(stats.avg_urgency, 550);
    let oldest = stats.oldest_open.unwrap();
    assert_eq!(oldest.days_old, 0);
}

#[test]
fn tag_merge_appends_missing_and_remove_filters() {
    let current = vec!["a".to_string(), "b".to_string()];
    let merged = nit::listing::merge_items(&current, &vec!["b".to_string(), "c".to_string()]);
    assert_eq!(merged, vec!["a".to_string(), "b".to_string(), "c".to_string()]);
    let removed = nit::listing::remove_items(&merged, &vec!["a".to_string(), "c".to_string()]);
    assert_eq!(removed, vec!["b".to_string()]);
}

#[test]
fn graph_output_shows_live_nodes_and_internal_edges() {
    let mut store = Store::new();
    let a = storage_add(&mut store, "a", Priority::Medium, Kind::Task);
    let b = storage_add(&mut store, "b", Priority::Medium, Kind::Task);
    let c = storage_add(&mut store, "c", Priority::Medium, Kind::Task);
    store.add_dependency(a, b).unwrap();
    store.add_dependency(c, b).unwrap();
    store.set_status(c, Status::Done, STAMP).unwrap();
    let config = UrgencyConfig::load(&store);
    let g = store.build_graph(false, &config, storage_now());
    assert_eq!(g.nodes.len(), 2);
    assert_eq!(g.edges.len(), 1);
    assert_eq!(g.edges[0].from, a);
    assert_eq!(g.edges[0].to, b);
    assert_eq!(g.edges[0].edge_type, "blocks");
    let g_all = store.build_graph(true, &config, storage_now());
    assert_eq!(g_all.nodes.len(), 3);
    assert_eq!(g_all.edges.len(), 2);
}

#[test]
fn schema_text_creates_the_expected_tables() {
    let schema = nit::store::get_schema_sql();
    assert!(schema.contains("CREATE TABLE IF NOT EXISTS issues"));
    assert!(schema.contains("CREATE TABLE IF NOT EXISTS dependencies"));
    assert!(schema.contains("CREATE TABLE IF NOT EXISTS notes"));
    assert!(schema.contains("CREATE TABLE IF NOT EXISTS config"));
}
