use agy_gyro::config::Config;
use agy_gyro::selection::Scored;
use agy_gyro::stats::{
    burst_position, choose_stats_place, decay_span, default_version, needs_rebuild, slot_of,
    switch_time, Health, Slot, StatsManager, StatsPlace, CURRENT_DB_VERSION,
    DEFAULT_BURST_WINDOW_SECS,
};

/// Successes and failures of a node, as its score is made of them.
#[derive(Clone, Default)]
struct Counts {
    successes: f64,
    failures: f64,
    last_sec: i64,
    burst: u32,
}

impl Counts {
    fn success(&mut self, now: i64) {
        self.burst = burst_position(self.burst, self.last_sec, now, DEFAULT_BURST_WINDOW_SECS);
        self.successes += 1.0 / (1.0 + 0.5 * self.burst as f64);
        self.last_sec = now;
    }

    fn failure(&mut self, now: i64) {
        self.burst = 0;
        self.failures += 1.0;
        self.last_sec = now;
    }

    fn total(&self) -> f64 {
        self.successes + self.failures
    }
}

/// A memory and the scores that go with it.
struct Nodes {
    manager: StatsManager,
    counts: Vec<(String, Counts)>,
}

impl Nodes {
    fn new(region_threshold: u32) -> Nodes {
        let regions = vec![
            "美国".to_string(),
            "日本".to_string(),
            "台湾".to_string(),
            "新加坡".to_string(),
        ];
        Nodes {
            manager: StatsManager::new(true, 180, 2, regions, region_threshold, 300, false),
            counts: Vec::new(),
        }
    }

    fn of(&mut self, node: &str) -> &mut Counts {
        if let Some(k) = self.counts.iter().position(|c| c.0 == node) {
            return &mut self.counts[k].1;
        }
        self.counts.push((node.to_string(), Counts::default()));
        &mut self.counts.last_mut().unwrap().1
    }

    fn record_success(&mut self, node: &str) {
        let now = StatsManager::now_sec();
        self.of(node).success(now);
        let c = self.of(node).clone();
        let reliable = c.total() >= 3.0 && c.successes / c.total() >= 0.70;
        self.manager.record_success(node, reliable);
    }

    fn record_failure(&mut self, node: &str) {
        let now = StatsManager::now_sec();
        self.of(node).failure(now);
        self.manager.record_failure(node);
    }

    fn scored(&mut self, nodes: &[String]) -> Vec<Scored> {
        let now = StatsManager::now_sec();
        let mut list = Vec::new();
        for name in nodes {
            let c = self.of(name).clone();
            let prior = (c.successes + 1.0) / (c.total() + 2.0);
            let base = (c.successes + 3.0 * prior) / (c.total() + 3.0);
            let score = match self.manager.cooling_failures(name, now) {
                Some(n) => base * 0.05 * 0.5f64.powi(n as i32),
                None => base,
            };
            list.push(Scored { name: name.clone(), score: score.to_bits() });
        }
        list
    }

    fn rank_nodes(&mut self, nodes: &[String]) -> Vec<String> {
        let scored = self.scored(nodes);
        self.manager.rank_nodes(&scored).into_iter().map(|s| s.name).collect()
    }

    fn select_best_node(
        &mut self,
        nodes: &[String],
        excluded: &[String],
        failing: Option<&str>,
    ) -> Option<String> {
        let scored = self.scored(nodes);
        self.manager.select_best_node(&scored, excluded, failing)
    }
}

fn names(list: &[&str]) -> Vec<String> {
    list.iter().map(|s| s.to_string()).collect()
}

#[test]
fn test_ranking_with_session_exclusions() {
    let mut nodes = Nodes::new(3);

    // Node A: reliable
    for _ in 0..10 {
        nodes.record_success("node-a");
    }
    // Node B: decent
    for _ in 0..5 {
        nodes.record_success("node-b");
    }
    nodes.record_failure("node-b");
    // Node C: broken (5 failures)
    for _ in 0..5 {
        nodes.record_failure("node-c");
    }
    // Node D: brand new

    let candidates = names(&["node-a", "node-b", "node-c", "node-d"]);

    let ranked = nodes.rank_nodes(&candidates);
    assert_eq!(ranked[0], "node-a"); // Top
    assert_eq!(ranked[1], "node-b"); // Second
    assert_eq!(ranked[2], "node-d"); // New node with prior (50%)
    assert_eq!(ranked[3], "node-c"); // Broken node

    // Exclude node-a -> chooses node-b
    let best = nodes.select_best_node(&candidates, &names(&["node-a"]), Some("node-a"));
    assert_eq!(best, Some("node-b".to_string()));

    // Exclude node-a and node-b -> chooses node-d
    let best2 = nodes.select_best_node(&candidates, &names(&["node-a", "node-b"]), Some("node-b"));
    assert_eq!(best2, Some("node-d".to_string()));

    // When ALL candidates are in excluded and failing_node is node-a -> chooses highest-scoring
    // non-failing node (node-b)
    let all_excluded = candidates.clone();
    let fallback = nodes.select_best_node(&candidates, &all_excluded, Some("node-a"));
    assert_eq!(fallback, Some("node-b".to_string()));

    // When ALL candidates are in excluded and failing_node is node-b -> chooses node-a
    let fallback2 = nodes.select_best_node(&candidates, &all_excluded, Some("node-b"));
    assert_eq!(fallback2, Some("node-a".to_string()));
}

#[test]
fn stats_test_consecutive_failures_demotes_top_node_to_allow_lower_priority_exploration() {
    let mut nodes = Nodes::new(3);

    // Node-Top has 20 successes (historical favorite)
    for _ in 0..20 {
        nodes.record_success("node-top");
    }
    // Node-Mid has 5 successes
    for _ in 0..5 {
        nodes.record_success("node-mid");
    }
    // Node-Untried has 0 requests

    let candidates = names(&["node-top", "node-mid", "node-untried"]);

    // Initially, node-top is ranked #1
    let ranked = nodes.rank_nodes(&candidates);
    assert_eq!(ranked[0], "node-top");
    assert_eq!(ranked[1], "node-mid");
    assert_eq!(ranked[2], "node-untried");

    // First failure on node-top: penalized but still alive
    nodes.record_failure("node-top");
    assert_eq!(nodes.manager.get_consecutive_failures("node-top"), 1);
    assert!(!nodes.manager.is_cooling_down("node-top", StatsManager::now_sec()));

    // Second consecutive failure on node-top: triggers 180s cooldown!
    nodes.record_failure("node-top");
    assert_eq!(nodes.manager.get_consecutive_failures("node-top"), 2);
    assert!(nodes.manager.is_cooling_down("node-top", StatsManager::now_sec()));

    // Rank nodes: node-top drops to the bottom because of cooldown!
    let ranked_after_2_cf = nodes.rank_nodes(&candidates);
    assert_eq!(ranked_after_2_cf[0], "node-mid");
    assert_eq!(ranked_after_2_cf[1], "node-untried");
    assert_eq!(ranked_after_2_cf[2], "node-top");

    // select_best_node should automatically choose node-mid without needing manual exclusions
    let chosen = nodes.select_best_node(&candidates, &[], None);
    assert_eq!(chosen, Some("node-mid".to_string()));

    // Now suppose node-mid ALSO fails 2 times consecutively!
    nodes.record_failure("node-mid");
    nodes.record_failure("node-mid");
    assert!(nodes.manager.is_cooling_down("node-mid", StatsManager::now_sec()));

    // select_best_node now must explore node-untried!
    let chosen_untried = nodes.select_best_node(&candidates, &[], None);
    assert_eq!(chosen_untried, Some("node-untried".to_string()));

    // When node-untried succeeds, it stays healthy
    nodes.record_success("node-untried");
    assert_eq!(nodes.manager.get_consecutive_failures("node-untried"), 0);
    assert!(!nodes.manager.is_cooling_down("node-untried", StatsManager::now_sec()));
}

#[test]
fn test_quarantine_and_consensus_anchor() {
    let mut nodes = Nodes::new(3);
    let now = StatsManager::now_sec();

    // 1. Anchor consensus promotion (needs >= 3.0 effective samples)
    for _ in 0..15 {
        nodes.record_success("node-anchor");
    }
    let manager = &mut nodes.manager;
    assert_eq!(manager.get_consensus_anchor(), Some("node-anchor".to_string()));
    assert!(manager.is_consensus_anchor("node-anchor"));

    // 2. Quarantine node-anchor for 12 hours
    manager.quarantine_node("node-anchor", 12 * 3600, "location_blocked_400");
    assert!(manager.is_quarantined("node-anchor", now));

    // Anchor should be cleared when quarantined!
    assert_eq!(manager.get_consensus_anchor(), None);

    // filter_quarantined should remove node-anchor
    let candidates = names(&["node-anchor", "node-free"]);
    let filtered = manager.filter_quarantined(&candidates, now);
    assert_eq!(filtered, vec!["node-free".to_string()]);

    // get_quarantined_nodes returns node-anchor
    let q_list = manager.get_quarantined_nodes(now);
    assert_eq!(q_list.len(), 1);
    assert_eq!(q_list[0].0, "node-anchor");
    assert_eq!(q_list[0].2, "location_blocked_400");

    // Clear quarantine
    manager.clear_quarantine(Some("node-anchor"));
    assert!(!manager.is_quarantined("node-anchor", now));
}

#[test]
fn test_two_tier_region_priority_selection() {
    let mut nodes = Nodes::new(2);

    let candidates = names(&[
        "🇺🇸 美国 01",
        "🇺🇸 美国 02",
        "🇯🇵 日本 01",
        "🇯🇵 日本 02",
        "🇸🇬 新加坡 01",
    ]);

    // 1. Initial selection: "美国" is priority #1, so an US node must be chosen
    let best = nodes.select_best_node(&candidates, &[], None);
    assert!(best.as_deref().unwrap().contains("美国"), "Expected US node initially, got {:?}", best);

    // 2. Both US nodes succeed or fail: let's record 1 failure on US 01
    nodes.record_failure("🇺🇸 美国 01");
    assert_eq!(nodes.manager.get_region_consecutive_failures("美国"), 1);
    assert!(!nodes.manager.is_region_cooling_down("美国", StatsManager::now_sec()));

    // Since US is not in cooldown and US 02 is healthy, US 02 should be selected
    let next_us = nodes.select_best_node(&candidates, &names(&["🇺🇸 美国 01"]), Some("🇺🇸 美国 01"));
    assert_eq!(next_us, Some("🇺🇸 美国 02".to_string()));

    // 3. Now US 02 ALSO fails! That makes 2 consecutive failures for region "美国"
    nodes.record_failure("🇺🇸 美国 02");
    assert_eq!(nodes.manager.get_region_consecutive_failures("美国"), 2);
    assert!(nodes.manager.is_region_cooling_down("美国", StatsManager::now_sec()));

    // 4. Since "美国" is now cooling down, Tier 1 escalates to priority #2: "日本"!
    let best_after_us_cooldown = nodes.select_best_node(&candidates, &[], None);
    assert!(
        best_after_us_cooldown.as_deref().unwrap().contains("日本"),
        "Expected Japan node after US cooldown, got {:?}",
        best_after_us_cooldown
    );

    // 5. If Japan also experiences 2 consecutive failures, it escalates to Singapore!
    nodes.record_failure("🇯🇵 日本 01");
    nodes.record_failure("🇯🇵 日本 02");
    assert!(nodes.manager.is_region_cooling_down("日本", StatsManager::now_sec()));

    let best_after_jp_cooldown = nodes.select_best_node(&candidates, &[], None);
    assert_eq!(
        best_after_jp_cooldown,
        Some("🇸🇬 新加坡 01".to_string()),
        "Expected Singapore node after JP cooldown"
    );
}

fn memory() -> StatsManager {
    StatsManager::new(true, 180, 2, names(&["美国", "日本"]), 3, 300, false)
}

#[test]
fn switches_are_remembered() {
    let mut manager = memory();
    assert_eq!(manager.get_last_switch_info(), (0, None));
    manager.record_switch_event("node-from", "node-to", 1725500000000);
    assert_eq!(manager.get_last_switch_info(), (1725500000000, Some("node-to".to_string())));
    assert_eq!(manager.switched_from, Some("node-from".to_string()));
}

#[test]
fn cooldown_from_the_threshold_on() {
    let mut manager = memory();
    manager.record_failure_at("n", 1000);
    assert!(!manager.is_cooling_down("n", 1000));
    manager.record_failure_at("n", 1010);
    assert!(manager.is_cooling_down("n", 1189));
    assert!(!manager.is_cooling_down("n", 1190));
    assert_eq!(manager.cooling_failures("n", 1189), Some(2));
    assert_eq!(manager.cooling_failures("n", 1190), None);
    assert_eq!(manager.get_cooling_down_nodes(1100), vec![("n".to_string(), 90, 2)]);
    assert_eq!(manager.filter_cooling_down(&names(&["m", "n"]), 1100), names(&["m"]));
    let row = Health {
        consecutive_failures: 2,
        cooldown_until_sec: 1190,
        last_success_sec: 0,
        last_failure_sec: 1010,
    };
    assert_eq!(manager.nodes.get("n"), Some(&row));
    manager.record_success_at("n", 1020, false, 5);
    assert_eq!(manager.get_consecutive_failures("n"), 0);
    assert!(!manager.is_cooling_down("n", 1100));
    let healed = Health { consecutive_failures: 0, cooldown_until_sec: 0, last_success_sec: 1020, ..row };
    assert_eq!(manager.nodes.get("n"), Some(&healed));
    // Another node is not affected.
    assert_eq!(manager.get_consecutive_failures("m"), 0);
    assert!(manager.nodes.get("m").is_none());
}

#[test]
fn regions_cool_down_with_their_nodes() {
    let mut manager = memory();
    for (i, node) in ["US 1", "US 2", "US 3"].iter().enumerate() {
        assert_eq!(manager.get_region_consecutive_failures("美国"), i as u32);
        manager.record_failure_at(node, 1000);
    }
    assert!(manager.is_region_cooling_down("美国", 1299));
    assert!(!manager.is_region_cooling_down("美国", 1300));
    assert_eq!(manager.get_cooling_down_regions(1200), vec![("美国".to_string(), 100, 3)]);
    manager.record_success_at("US 4", 1250, false, 0);
    assert!(!manager.is_region_cooling_down("美国", 1260));
    // A node of no known region leaves no trace among regions.
    manager.record_failure_at("somewhere", 1000);
    assert_eq!(manager.regions.len(), 1);
}

#[test]
fn the_longest_cooldown_comes_first() {
    let mut manager = memory();
    for (node, now) in [("a", 10), ("b", 30), ("c", 20), ("d", 20)] {
        manager.record_failure_at(node, now);
        manager.record_failure_at(node, now);
    }
    let list: Vec<String> =
        manager.get_cooling_down_nodes(190).into_iter().map(|row| row.0).collect();
    assert_eq!(list, names(&["b", "c", "d"]));
    manager.quarantine_node_at("x", 100, "r", 0);
    manager.quarantine_node_at("y", 300, "r", 0);
    manager.quarantine_node_at("x", 200, "s", 0);
    let rows = manager.get_quarantined_nodes(150);
    assert_eq!(rows, vec![
        ("y".to_string(), 150, "r".to_string()),
        ("x".to_string(), 50, "s".to_string()),
    ]);
    manager.clear_quarantine(None);
    assert!(manager.get_quarantined_nodes(0).is_empty());
}

#[test]
fn anchors_come_and_go() {
    let mut manager = memory();
    assert_eq!(manager.get_consensus_anchor(), None);
    manager.record_success_at("n", 1, false, 7);
    assert_eq!(manager.get_consensus_anchor(), None);
    manager.record_success_at("n", 1, true, 7);
    assert!(manager.is_consensus_anchor("n"));
    assert_eq!(manager.anchored_ms, Some(7));
    manager.record_success_at("n", 2, true, 8);
    assert_eq!(manager.anchored_ms, Some(7));
    manager.record_failure_at("n", 3);
    assert!(manager.is_consensus_anchor("n"));
    manager.record_failure_at("n", 3);
    assert_eq!(manager.get_consensus_anchor(), None);
    // The whole region takes its anchor along.
    manager.set_consensus_anchor_at("US 9", 9);
    for node in ["US 1", "US 2", "US 3"] {
        assert!(manager.is_consensus_anchor("US 9"));
        manager.record_failure_at(node, 10);
    }
    assert_eq!(manager.get_consensus_anchor(), None);
    manager.set_consensus_anchor("m");
    assert_eq!(manager.get_consensus_anchor(), Some("m".to_string()));
    manager.set_consensus_anchor("  ");
    assert_eq!(manager.get_consensus_anchor(), None);
    manager.set_consensus_anchor("");
    assert_eq!(manager.anchor, Some("  ".to_string()));
    assert!(!manager.is_consensus_anchor(""));
}

#[test]
fn location_blocks_cool_the_region() {
    let mut manager = memory();
    manager.quarantine_node_at("US 1", 10, "400_location_blocked", 1000);
    assert!(manager.is_quarantined("US 1", 1009));
    assert!(!manager.is_quarantined("US 1", 1010));
    assert!(manager.is_region_cooling_down("美国", 1299));
    assert_eq!(manager.get_region_consecutive_failures("美国"), 1);
    // A cooldown that lasts longer is kept.
    manager.regions.set("美国", Health {
        consecutive_failures: 4,
        cooldown_until_sec: 9999,
        last_success_sec: 5,
        last_failure_sec: 6,
    });
    manager.quarantine_node_at("US 2", 10, "400_location_blocked", 1000);
    assert_eq!(manager.regions.get("美国").unwrap().cooldown_until_sec, 9999);
    assert_eq!(manager.regions.get("美国").unwrap().last_failure_sec, 1000);
    assert_eq!(manager.get_region_consecutive_failures("美国"), 4);
    // Another reason leaves the region alone.
    let mut other = memory();
    other.quarantine_node_at("US 1", 10, "manual", 1000);
    assert!(other.regions.get("美国").is_none());
}

#[test]
fn counters_do_not_overflow() {
    let mut manager = memory();
    manager.nodes.set("n", Health {
        consecutive_failures: u32::MAX,
        cooldown_until_sec: 0,
        last_success_sec: 0,
        last_failure_sec: 0,
    });
    assert!(!manager.can_record_failure("n", 0));
    assert!(manager.can_record_failure("m", 0));
    manager.record_failure("n");
    assert_eq!(manager.get_consecutive_failures("n"), u32::MAX);
    assert!(!manager.can_quarantine("n", i64::MAX, "r", 1));
    assert!(manager.can_quarantine("n", i64::MAX, "r", 0));
}

#[test]
fn nothing_is_remembered_without_statistics() {
    let mut config = Config::default();
    config.no_stats = true;
    let mut manager = StatsManager::from_config(&config);
    assert!(!manager.is_enabled());
    manager.record_failure("n");
    manager.record_failure("n");
    manager.record_success("n", true);
    manager.quarantine_node("n", 100, "r");
    manager.set_consensus_anchor("n");
    manager.record_switch_event("a", "b", 5);
    assert_eq!(manager.get_consecutive_failures("n"), 0);
    assert!(!manager.is_quarantined("n", 0));
    assert_eq!(manager.get_consensus_anchor(), None);
    assert_eq!(manager.get_last_switch_info(), (0, None));
    assert!(manager.get_cooling_down_nodes(0).is_empty());
    assert!(manager.get_quarantined_nodes(0).is_empty());
    // Without scores the first candidate is as good as any.
    let list = vec![
        Scored { name: "b".to_string(), score: 1 },
        Scored { name: "a".to_string(), score: 2 },
    ];
    let order: Vec<String> = manager.rank_nodes(&list).into_iter().map(|s| s.name).collect();
    assert_eq!(order, names(&["b", "a"]));
    assert_eq!(manager.select_best_node(&list, &[], None), Some("b".to_string()));
}

#[test]
fn memory_follows_the_settings() {
    let manager = StatsManager::from_config(&Config::default());
    assert!(manager.is_enabled());
    assert!(manager.is_region_priority_enabled());
    assert_eq!(manager.region_priority().to_vec(), names(&["美国", "日本", "台湾", "新加坡"]));
    assert_eq!(DEFAULT_BURST_WINDOW_SECS, 15);
}

#[test]
fn databases_of_other_versions_are_made_anew() {
    assert!(!needs_rebuild(Some("2")));
    assert!(!needs_rebuild(Some("+02")));
    for version in ["1", "3", "", "two", " 2", "4294967298"] {
        assert!(needs_rebuild(Some(version)), "{:?}", version);
    }
    assert!(needs_rebuild(None));
    assert_eq!(CURRENT_DB_VERSION, 2);
    assert_eq!(default_version(), 1);
}

#[test]
fn switch_times_are_read() {
    assert_eq!(switch_time(Some("1725500000000")), 1725500000000);
    assert_eq!(switch_time(Some("-9223372036854775808")), i64::MIN);
    assert_eq!(switch_time(Some("-5")), -5);
    assert_eq!(switch_time(Some("9223372036854775807")), i64::MAX);
    for s in ["9223372036854775808", "-9223372036854775809", "", "-", "+-1", "soon"] {
        assert_eq!(switch_time(Some(s)), 0, "{:?}", s);
    }
    assert_eq!(switch_time(None), 0);
}

#[test]
fn decay_and_bursts() {
    assert_eq!(decay_span(0, 50), None);
    assert_eq!(decay_span(50, 50), None);
    assert_eq!(decay_span(50, 40), None);
    assert_eq!(decay_span(50, 60), Some(10));
    assert_eq!(burst_position(0, 100, 115, 15), 1);
    assert_eq!(burst_position(4, 100, 100, 15), 5);
    assert_eq!(burst_position(4, 100, 116, 15), 0);
    assert_eq!(burst_position(4, 100, 99, 15), 0);
    assert_eq!(burst_position(4, 0, 5, 15), 0);
    assert_eq!(burst_position(u32::MAX, 100, 100, 15), u32::MAX);
}

#[test]
fn rows_of_counts() {
    assert_eq!(slot_of(-1), Some(Slot::Overall));
    assert_eq!(slot_of(0), Some(Slot::Hour(0)));
    assert_eq!(slot_of(23), Some(Slot::Hour(23)));
    assert_eq!(slot_of(24), None);
    assert_eq!(slot_of(-2), None);
}

#[test]
fn where_the_database_is_kept() {
    assert_eq!(choose_stats_place(Some("/x"), true, true, true), StatsPlace::Given);
    assert_eq!(choose_stats_place(Some(" "), true, true, true), StatsPlace::AgyDirectory);
    assert_eq!(choose_stats_place(None, true, false, true), StatsPlace::AgyDirectory);
    assert_eq!(choose_stats_place(None, true, false, false), StatsPlace::OwnDirectory);
    assert_eq!(choose_stats_place(None, false, false, false), StatsPlace::Temporary);
}
