use agy_gyro::json::parse;
use agy_gyro::selection::Scored;
use agy_gyro::stats::StatsManager;
use agy_gyro::switch::{
    fresh_node, has_parent, judge_probe, note_failure, note_tried, probe_url,
    should_switch_parent, Plan, ProbeResult, Target,
};

fn names(list: &[&str]) -> Vec<String> {
    list.iter().map(|s| s.to_string()).collect()
}

fn nodes(list: &[(&str, u64)]) -> Vec<Scored> {
    list.iter().map(|(n, s)| Scored { name: n.to_string(), score: *s }).collect()
}

fn memory() -> StatsManager {
    StatsManager::new(true, 180, 2, names(&["美国", "日本"]), 100, 300, false)
}

fn plan(manager: &StatsManager, at: &str, failing: &str, now_ms: i64) -> String {
    let list = nodes(&[("US 1", 3), ("US 2", 2), ("JP 1", 9), ("JP 2", 8), ("KR 1", 1)]);
    show(manager.plan_switch(&list, at, failing, 1000, now_ms, 5000, true))
}

fn show(plan: Plan) -> String {
    match plan {
        Plan::GiveUp => "give up".to_string(),
        Plan::Adopt(node) => format!("adopt {}", node),
        Plan::Stay(node) => format!("stay {}", node),
        Plan::Choose { pool, probe } => format!("{} of {}", probe.join(","), pool.len()),
    }
}

#[test]
fn another_switch_is_adopted() {
    let mut manager = memory();
    assert_eq!(plan(&manager, "US 2", "US 1", 100_000), "adopt US 2");
    manager.quarantine_node_at("US 2", 100, "manual", 1000);
    assert_eq!(plan(&manager, "US 2", "US 1", 100_000), "JP 1,JP 2,KR 1 of 4");
    assert_eq!(plan(&manager, "", "US 1", 100_000), "JP 1,JP 2,KR 1 of 4");
}

#[test]
fn soon_after_a_switch_there_is_no_other() {
    let mut manager = memory();
    manager.record_switch_event("US 1", "JP 1", 100_000);
    assert_eq!(plan(&manager, "US 1", "US 1", 104_999), "adopt JP 1");
    assert_eq!(plan(&manager, "US 1", "US 1", 105_000), "US 2,JP 1,JP 2 of 5");
    // The node that the switch led to fails too: the one in use is kept.
    assert_eq!(plan(&manager, "JP 1", "JP 1", 104_999), "adopt JP 1");
    manager.quarantine_node_at("JP 1", 100, "manual", 1000);
    assert_eq!(plan(&manager, "US 1", "US 1", 104_999), "adopt US 1");
    assert_eq!(plan(&manager, "JP 1", "JP 1", 104_999), "US 1,US 2,JP 2 of 4");
}

#[test]
fn probes_are_the_best_choices() {
    let manager = memory();
    assert_eq!(plan(&manager, "US 1", "US 1", 0), "US 2,JP 1,JP 2 of 5");
    assert_eq!(plan(&manager, "", "", 0), "US 1,US 2,JP 1 of 5");
    let two = nodes(&[("a", 1), ("b", 2)]);
    assert_eq!(show(manager.plan_switch(&two, "a", "a", 0, 0, 0, true)), "b of 2");
    assert_eq!(show(manager.plan_switch(&two, "a", "a", 0, 0, 0, false)), " of 2");
    assert_eq!(show(manager.plan_switch(&[], "a", "a", 0, 0, 0, true)), "give up");
}

#[test]
fn the_only_node_is_stayed_at() {
    let mut manager = memory();
    let one = nodes(&[("a", 1)]);
    assert_eq!(show(manager.plan_switch(&one, "a", "a", 0, 0, 0, true)), "stay a");
    assert_eq!(show(manager.plan_switch(&one, "b", "b", 0, 0, 0, true)), " of 1");
    let two = nodes(&[("a", 1), ("b", 2)]);
    manager.quarantine_node_at("b", 10, "manual", 0);
    assert_eq!(show(manager.plan_switch(&two, "a", "a", 5, 0, 0, true)), "stay a");
    // All are in quarantine, and all cool down: all are to choose from.
    manager.quarantine_node_at("a", 10, "manual", 0);
    for node in ["a", "b"] {
        manager.record_failure_at(node, 0);
        manager.record_failure_at(node, 0);
    }
    assert_eq!(show(manager.plan_switch(&two, "a", "a", 5, 0, 0, true)), "b of 2");
}

#[test]
fn probes_are_remembered() {
    let mut manager = memory();
    assert!(manager.absorb_probe("US 1", "JP 1", ProbeResult::Supported, 60, 1000, 77));
    assert_eq!(manager.get_consensus_anchor(), Some("JP 1".to_string()));
    assert_eq!(manager.get_last_switch_info(), (77, Some("JP 1".to_string())));
    assert!(!manager.absorb_probe("US 1", "JP 1", ProbeResult::LocationBlocked, 60, 1000, 78));
    assert!(manager.is_quarantined("JP 1", 1059));
    assert_eq!(manager.get_quarantined_nodes(1000)[0].2, "probe_location_blocked");
    assert!(manager.is_region_cooling_down("日本", 1001));
    assert_eq!(manager.get_consensus_anchor(), None);
    assert!(!manager.absorb_probe("US 1", "KR 1", ProbeResult::Unreachable, 60, 1000, 79));
    assert_eq!(manager.get_consecutive_failures("KR 1"), 1);
    assert_eq!(manager.get_last_switch_info().0, 77);
}

fn target(manager: &StatsManager, list: &[(&str, u64)], at: &str, excluded: &[&str]) -> String {
    match manager.choose_target(&nodes(list), at, &names(excluded), 1000) {
        Target::Stay(node) => format!("stay {}", node),
        Target::Force(node) => format!("force {}", node),
        Target::Request(node) => format!("request {}", node),
    }
}

#[test]
fn targets_lead_elsewhere() {
    let manager = memory();
    let list = [("US 1", 9), ("US 2", 5), ("JP 1", 1)];
    assert_eq!(target(&manager, &list, "US 1", &[]), "request US 2");
    assert_eq!(target(&manager, &list, "US 1", &["US 2"]), "request JP 1");
    assert_eq!(target(&manager, &list, "US 1", &["US 1", "US 2", "JP 1"]), "request US 2");
    assert_eq!(target(&manager, &[("a", 1)], "a", &[]), "stay a");
    assert_eq!(target(&manager, &[("a", 1)], "b", &[]), "request a");
    assert_eq!(target(&manager, &[("a", 1), ("a", 1)], "a", &[]), "request a");
    // Only an announcement is left besides the node in use.
    assert_eq!(target(&manager, &[("a", 1), ("DIRECT", 1)], "a", &[]), "force DIRECT");
}

#[test]
fn tried_nodes_are_few() {
    let mut tried = Vec::new();
    for node in ["1", "2", "3", "", "2", "4", "5", "6", "7", "8"] {
        note_tried(&mut tried, node);
    }
    assert_eq!(tried, names(&["1", "2", "3", "4", "5", "6", "7", "8"]));
    note_tried(&mut tried, "9");
    assert_eq!(tried, names(&["2", "3", "4", "5", "6", "7", "8", "9"]));
}

#[test]
fn failures_count_where_they_should() {
    let mut manager = memory();
    let mut tried = Vec::new();
    note_failure(&mut manager, &mut tried, "a", true, 10);
    note_failure(&mut manager, &mut tried, "b", false, 10);
    note_failure(&mut manager, &mut tried, "", true, 10);
    assert_eq!(manager.get_consecutive_failures("a"), 1);
    assert_eq!(manager.get_consecutive_failures("b"), 0);
    assert_eq!(tried, names(&["a", "b"]));
}

#[test]
fn parents_point_to_the_group() {
    assert!(has_parent("GLOBAL", "Proxy"));
    assert!(!has_parent("", "Proxy"));
    assert!(!has_parent("PROXY", "Proxy"));
    let should = |entry: &str| should_switch_parent(&parse(entry).unwrap(), "Proxy");
    assert!(should(r#"{"now": "DIRECT", "all": ["DIRECT", "PROXY"]}"#));
    assert!(should(r#"{"all": [1, "proxy"]}"#));
    assert!(!should(r#"{"now": "proxy", "all": ["DIRECT", "Proxy"]}"#));
    assert!(!should(r#"{"now": "DIRECT", "all": ["DIRECT"]}"#));
    assert!(!should(r#"{"now": "DIRECT", "all": "Proxy"}"#));
    assert!(!should("{}"));
}

#[test]
fn probes_are_judged() {
    assert_eq!(judge_probe(200, ""), ProbeResult::Supported);
    assert_eq!(judge_probe(403, "unsupported location"), ProbeResult::Supported);
    assert_eq!(judge_probe(400, "API key not valid"), ProbeResult::Supported);
    assert_eq!(
        judge_probe(400, "User location is not supported"),
        ProbeResult::LocationBlocked
    );
    assert_eq!(judge_probe(503, ""), ProbeResult::Unreachable);
    assert_eq!(judge_probe(599, ""), ProbeResult::Unreachable);
    assert_eq!(probe_url("http://u//"), "http://u/v1beta/models?pageSize=1");
}

#[test]
fn nodes_in_use_are_known_for_a_while() {
    assert_eq!(fresh_node(Some("a"), 1999), Some("a".to_string()));
    assert_eq!(fresh_node(Some("a"), 2000), None);
    assert_eq!(fresh_node(Some(""), 0), None);
    assert_eq!(fresh_node(None, 0), None);
}
