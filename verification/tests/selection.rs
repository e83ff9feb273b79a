use agy_gyro::selection::Scored;
use agy_gyro::stats::StatsManager;

fn names(list: &[&str]) -> Vec<String> {
    list.iter().map(|s| s.to_string()).collect()
}

fn nodes(list: &[(&str, u64)]) -> Vec<Scored> {
    list.iter().map(|(n, s)| Scored { name: n.to_string(), score: *s }).collect()
}

fn memory(flat: bool) -> StatsManager {
    StatsManager::new(true, 180, 1, names(&["美国", "日本"]), 100, 300, flat)
}

fn best(
    manager: &StatsManager,
    list: &[(&str, u64)],
    excluded: &[&str],
    failing: Option<&str>,
) -> Option<String> {
    manager.select_best_node_at(&nodes(list), &names(excluded), failing, 1000)
}

fn is(name: &str) -> Option<String> {
    Some(name.to_string())
}

#[test]
fn ranking_is_by_score_and_then_by_name() {
    let manager = memory(false);
    let list = nodes(&[("b", 5), ("Z", 5), ("a", 5), ("x", 9), ("é", 5), ("ab", 5), ("y", 0)]);
    let order: Vec<String> = manager.rank_nodes(&list).into_iter().map(|s| s.name).collect();
    assert_eq!(order, names(&["x", "Z", "a", "ab", "b", "é", "y"]));
    assert!(manager.rank_nodes(&[]).is_empty());
}

#[test]
fn regions_come_before_scores() {
    let manager = memory(false);
    let list = [("JP 1", 9), ("US 1", 1), ("US 2", 2), ("KR 1", 99), ("odd", 100)];
    assert_eq!(best(&manager, &list, &[], None), is("US 2"));
    assert_eq!(best(&manager, &list, &["US 2"], None), is("US 1"));
    assert_eq!(best(&manager, &list, &["US 2"], Some("US 1")), is("JP 1"));
    assert_eq!(best(&manager, &list, &["US 2", "US 1", "JP 1"], None), is("KR 1"));
    assert_eq!(best(&manager, &list, &["US 2", "US 1", "JP 1", "KR 1"], None), is("odd"));
}

#[test]
fn nodes_that_cool_down_are_left_until_nothing_else_remains() {
    let mut manager = memory(false);
    let list = [("US 1", 9), ("US 2", 5), ("JP 1", 1)];
    manager.record_failure_at("US 1", 990);
    assert_eq!(best(&manager, &list, &[], None), is("US 2"));
    manager.record_failure_at("US 2", 990);
    assert_eq!(best(&manager, &list, &[], None), is("JP 1"));
    manager.record_failure_at("JP 1", 990);
    assert_eq!(best(&manager, &list, &[], None), is("US 1"));
    assert_eq!(best(&manager, &list, &["US 1"], Some("US 2")), is("JP 1"));
    // All are excluded or failing: the best that is not failing.
    assert_eq!(best(&manager, &list, &["US 1", "US 2", "JP 1"], Some("US 1")), is("US 2"));
    assert_eq!(best(&manager, &[("US 1", 9)], &["US 1"], Some("US 1")), is("US 1"));
}

#[test]
fn the_anchor_is_gone_back_to() {
    let mut manager = memory(false);
    let list = [("US 1", 1), ("JP 1", 5), ("JP 2", 9)];
    manager.set_consensus_anchor_at("JP 1", 1);
    // A region of a higher priority has a node.
    assert_eq!(best(&manager, &list, &[], None), is("US 1"));
    // It has none: the anchor comes before a better node of its region.
    assert_eq!(best(&manager, &list, &["US 1"], None), is("JP 1"));
    assert_eq!(best(&manager, &list, &["US 1", "JP 1"], None), is("JP 2"));
    assert_eq!(best(&manager, &list, &["US 1"], Some("JP 1")), is("JP 2"));
    // As a last resort it comes back though it is excluded.
    assert_eq!(best(&manager, &list, &["US 1", "JP 1", "JP 2"], Some("JP 2")), is("JP 1"));
    manager.set_consensus_anchor_at("gone", 1);
    assert_eq!(best(&manager, &list, &["US 1"], None), is("JP 2"));
}

#[test]
fn only_usable_nodes_outside_quarantine() {
    let mut manager = memory(false);
    let list = [("DIRECT", 99), ("香港 1", 98), ("US 1", 1), ("US 2", 2)];
    assert_eq!(best(&manager, &list, &[], None), is("US 2"));
    manager.quarantine_node_at("US 2", 100, "manual", 990);
    assert_eq!(best(&manager, &list, &[], None), is("US 1"));
    manager.quarantine_node_at("US 1", 100, "manual", 990);
    assert_eq!(best(&manager, &list, &[], None), is("US 2"));
    // Where none is usable, any will do.
    assert_eq!(best(&manager, &[("DIRECT", 1), ("香港 1", 2)], &[], None), is("香港 1"));
    assert_eq!(best(&manager, &[], &[], None), None);
}

#[test]
fn without_regions_scores_decide() {
    let mut manager = memory(true);
    let list = [("US 1", 1), ("JP 1", 5), ("KR 1", 9)];
    assert_eq!(best(&manager, &list, &[], None), is("KR 1"));
    assert_eq!(best(&manager, &list, &["KR 1"], None), is("JP 1"));
    assert_eq!(best(&manager, &list, &["KR 1"], Some("JP 1")), is("US 1"));
    // All are excluded: not the failing one, or not the one excluded last.
    let all = ["KR 1", "US 1", "JP 1"];
    assert_eq!(best(&manager, &list, &all, Some("KR 1")), is("JP 1"));
    assert_eq!(best(&manager, &list, &["US 1", "JP 1", "KR 1"], None), is("JP 1"));
    manager.set_consensus_anchor_at("US 1", 1);
    assert_eq!(best(&manager, &list, &all, Some("KR 1")), is("US 1"));
    assert_eq!(best(&manager, &list, &all, Some("US 1")), is("KR 1"));
    manager.record_failure_at("KR 1", 990);
    assert_eq!(best(&manager, &list, &[], None), is("JP 1"));
    assert_eq!(best(&manager, &[("KR 1", 1)], &[], Some("KR 1")), is("KR 1"));
}

#[test]
fn an_excluded_anchor_is_left_while_another_node_remains() {
    let mut manager = StatsManager::new(true, 180, 2, names(&["美国"]), 3, 300, false);
    manager.set_consensus_anchor("node-a");
    manager.quarantine_node("美国 02", 3600, "location_blocked");
    assert!(manager.is_quarantined("美国 02", StatsManager::now_sec()));
    let list = nodes(&[("node-a", 9), ("美国 01", 1)]);
    let chosen = manager.select_best_node(&list, &names(&["node-a"]), None);
    assert_eq!(chosen, is("美国 01"));
    // Only where none else is left does it come back.
    let chosen = manager.select_best_node(&list, &names(&["node-a", "美国 01"]), None);
    assert_eq!(chosen, is("node-a"));
    // Without regions a node that cools down comes before an excluded one too.
    let mut flat = memory(true);
    flat.set_consensus_anchor_at("US 1", 1);
    flat.record_failure_at("KR 1", 990);
    let list = [("US 1", 9), ("KR 1", 1), ("JP 1", 5)];
    assert_eq!(best(&flat, &list, &["US 1", "JP 1"], None), is("KR 1"));
    assert_eq!(best(&flat, &list, &["US 1"], Some("JP 1")), is("KR 1"));
}

#[test]
fn the_first_region_with_an_available_node_is_chosen() {
    let mut manager = memory(false);
    let list = [("KR 1", 99), ("JP 1", 3), ("日本 2", 4), ("US 1", 1)];
    assert_eq!(best(&manager, &list, &[], None), is("US 1"));
    manager.record_failure_at("US 1", 990);
    assert_eq!(best(&manager, &list, &[], None), is("日本 2"));
    assert_eq!(best(&manager, &list, &["日本 2"], None), is("JP 1"));
    // Regions that are not listed come last.
    assert_eq!(best(&manager, &list, &["日本 2", "JP 1"], None), is("KR 1"));
}
