//! Urgency scoring: determinism, the age ramp, weight parsing and overrides.

use nit::models::ComponentKey;
use nit::store::Store;
use nit::types::{Kind, Priority};
use nit::urgency::{
    age_seconds, compute_urgency, compute_urgency_with_breakdown, parse_weight, score_from_facts,
    UrgencyConfig,
};

fn scoring_epoch(text: &str) -> i64 {
    chrono::NaiveDateTime::parse_from_str(text, "%Y-%m-%dT%H:%M:%SZ")
        .unwrap()
        .and_utc()
        .timestamp()
}

fn scoring_issue(store: &mut Store, created_at: &str) -> nit::models::Issue {
    store.insert_issue(
        "scored".to_string(),
        Priority::Medium,
        Kind::Task,
        String::new(),
        vec![],
        vec![],
        String::new(),
        None,
        created_at.to_string(),
    )
}

#[test]
fn score_is_deterministic_for_identical_inputs() {
    let mut store = Store::new();
    let now = scoring_epoch("2024-06-01T00:00:00Z");
    let issue = scoring_issue(&mut store, "2024-05-25T12:00:00Z");
    let config = UrgencyConfig::default();
    let (s1, b1) = compute_urgency_with_breakdown(&issue, &config, &store, now);
    let (s2, b2) = compute_urgency_with_breakdown(&issue, &config, &store, now);
    assert_eq!(s1, s2);
    assert_eq!(b1.components, b2.components);
    assert_eq!(s1, compute_urgency(&issue, &config, &store, now));
}

#[test]
fn age_ramp_saturates_at_ten_days() {
    let mut store = Store::new();
    let now = scoring_epoch("2024-06-01T00:00:00Z");
    // Created exactly ten days and one hundred days before `now`.
    let ten = scoring_issue(&mut store, "2024-05-22T00:00:00Z");
    let hundred = scoring_issue(&mut store, "2024-02-22T00:00:00Z");
    let config = UrgencyConfig::default();
    let (score_ten, b_ten) = score_from_facts(&ten, false, false, 0, now, &config);
    let (score_hundred, b_hundred) = score_from_facts(&hundred, false, false, 0, now, &config);
    let age_ten = b_ten.components.iter().find(|(k, _)| *k == ComponentKey::Age).unwrap().1;
    let age_hundred =
        b_hundred.components.iter().find(|(k, _)| *k == ComponentKey::Age).unwrap().1;
    assert_eq!(age_ten, age_hundred);
    // The full default age weight, in centi-units.
    assert_eq!(age_ten, 200);
    assert_eq!(score_ten, score_hundred);
}

#[test]
fn age_ramp_is_partial_before_ten_days() {
    let mut store = Store::new();
    let now = scoring_epoch("2024-06-01T00:00:00Z");
    // Five days old: half the ramp, so half the default age weight.
    let five = scoring_issue(&mut store, "2024-05-27T00:00:00Z");
    let config = UrgencyConfig::default();
    let (_, b) = score_from_facts(&five, false, false, 0, now, &config);
    let age = b.components.iter().find(|(k, _)| *k == ComponentKey::Age).unwrap().1;
    assert_eq!(age, 100);
}

#[test]
fn malformed_timestamp_yields_age_zero() {
    let now = scoring_epoch("2024-06-01T00:00:00Z");
    assert_eq!(age_seconds("not a timestamp", now), 0);
    assert_eq!(age_seconds("2024-05-31T00:00:00Z", now), 86400);
}

#[test]
fn fresh_issue_scores_the_exact_default_sum() {
    let mut store = Store::new();
    let now = scoring_epoch("2024-06-01T00:00:00Z");
    // Created at `now`: zero age. Medium task, nothing else set.
    let issue = scoring_issue(&mut store, "2024-06-01T00:00:00Z");
    let config = UrgencyConfig::default();
    let score = compute_urgency(&issue, &config, &store, now);
    // priority.medium 300 + kind.task 0, nothing else applies.
    assert_eq!(score, 300);
}

#[test]
fn note_count_component_saturates_at_six() {
    let mut store = Store::new();
    let now = scoring_epoch("2024-06-01T00:00:00Z");
    let issue = scoring_issue(&mut store, "2024-06-01T00:00:00Z");
    let config = UrgencyConfig::default();
    let (_, b3) = score_from_facts(&issue, false, false, 3, now, &config);
    let (_, b6) = score_from_facts(&issue, false, false, 6, now, &config);
    let (_, b9) = score_from_facts(&issue, false, false, 9, now, &config);
    let n3 = b3.components.iter().find(|(k, _)| *k == ComponentKey::Notes).unwrap().1;
    let n6 = b6.components.iter().find(|(k, _)| *k == ComponentKey::Notes).unwrap().1;
    let n9 = b9.components.iter().find(|(k, _)| *k == ComponentKey::Notes).unwrap().1;
    assert_eq!(n3, 25);
    assert_eq!(n6, 50);
    assert_eq!(n9, 50);
}

#[test]
fn parse_weight_reads_centi_units() {
    assert_eq!(parse_weight("2.5"), Some(250));
    assert_eq!(parse_weight("0.5"), Some(50));
    assert_eq!(parse_weight("-1"), Some(-100));
    assert_eq!(parse_weight("-0.25"), Some(-25));
    assert_eq!(parse_weight("10"), Some(1000));
    assert_eq!(parse_weight("10000"), Some(1000000));
    assert_eq!(parse_weight("10001"), None);
    assert_eq!(parse_weight(""), None);
    assert_eq!(parse_weight("-"), None);
    assert_eq!(parse_weight("abc"), None);
    assert_eq!(parse_weight("1e3"), None);
    assert_eq!(parse_weight("1.234"), None);
    assert_eq!(parse_weight("1."), None);
    assert_eq!(parse_weight(".5"), None);
}

#[test]
fn config_overrides_replace_defaults() {
    let mut store = Store::new();
    store.config_set("urgency.blocked", "-5");
    store.config_set("urgency.priority.critical", "12.5");
    store.config_set("urgency.age", "garbage");
    let config = UrgencyConfig::load(&store);
    assert_eq!(config.blocked, -500);
    assert_eq!(config.priority_critical, 1250);
    // An unparsable override falls back to the built-in default.
    assert_eq!(config.age, 200);
    assert_eq!(config.priority_low, 100);
}

#[test]
fn defaults_map_lists_every_key() {
    let defaults = UrgencyConfig::defaults_map();
    assert_eq!(defaults.len(), 14);
    assert_eq!(defaults[0], ("urgency.priority.critical", 1000));
    assert_eq!(defaults[5], ("urgency.blocked", -1000));
    assert_eq!(defaults[13], ("urgency.notes_count", 50));
}
