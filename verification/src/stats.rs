//! What is remembered of nodes and regions: failures in a row, cooldowns, quarantines, the
//! consensus anchor and the last switch.

use crate::config::Config;
use crate::regions;
use crate::table;
use crate::table::{Lasting, Table};
use crate::text;
use crate::text::{chars_of, same_str};
use vstd::prelude::*;

pub use crate::regions::{
    canonical_region_matches, extract_region, is_invalid_or_info_node, is_unsupported_region,
    is_valid_candidate_node,
};

verus! {

/// Consecutive requests within 15s are damped
pub const DEFAULT_BURST_WINDOW_SECS: i64 = 15;

/// SQLite schema version
pub const CURRENT_DB_VERSION: u32 = 2;

/// The last second, counted from the start of 1970 (UTC), that the clock can tell: the end of the
/// year 262142.
pub const LATEST_SEC: i64 = 8_210_266_876_799;

/// A second that the clock can tell.
pub open spec fn on_the_clock(now: i64) -> bool {
    0 <= now <= LATEST_SEC
}

/// How a node or a region has been faring.
#[derive(Clone, Copy, Debug, PartialEq, Eq, Structural)]
pub struct Health {
    /// How many failures there were since the last success.
    pub consecutive_failures: u32,
    /// Until when it is left alone; 0 where it is not.
    pub cooldown_until_sec: i64,
    /// When it last succeeded; 0 where it never did.
    pub last_success_sec: i64,
    /// When it last failed; 0 where it never did.
    pub last_failure_sec: i64,
}

/// Why and until when a node is not to be used.
pub struct Quarantine {
    pub until_sec: i64,
    pub reason: String,
}

/// What is remembered, as a mathematical value.
#[verifier::ext_equal]
pub struct StatsView {
    /// Whether anything is remembered at all.
    pub enabled: bool,
    /// How long a node cools down.
    pub failure_cooldown_secs: i64,
    /// After how many failures in a row a node cools down.
    pub failure_threshold: u32,
    /// The regions, the preferred ones first.
    pub region_priority: Seq<Seq<char>>,
    /// After how many failures in a row a region cools down.
    pub region_threshold: u32,
    /// How long a region cools down.
    pub region_cooldown_secs: i64,
    /// Whether regions matter.
    pub by_region: bool,
    /// How each node has been faring.
    pub nodes: Map<Seq<char>, Health>,
    /// How each region has been faring.
    pub regions: Map<Seq<char>, Health>,
    /// Until when and why each node is in quarantine.
    pub quarantine: Map<Seq<char>, (i64, Seq<char>)>,
    /// The consensus anchor.
    pub anchor: Option<Seq<char>>,
    /// When the anchor was set, in milliseconds.
    pub anchored_ms: Option<i64>,
    /// When the last switch was, in milliseconds; 0 where there was none.
    pub switched_ms: i64,
    /// The node that the last switch led to.
    pub switched_to: Option<Seq<char>>,
    /// The node that the last switch led away from.
    pub switched_from: Option<Seq<char>>,
}

/// What is held under `name`, if anything.
pub open spec fn entry<T>(map: Map<Seq<char>, T>, name: Seq<char>) -> Option<T> {
    if map.contains_key(name) {
        Some(map[name])
    } else {
        None
    }
}

/// What a success makes of the health that there was.
pub open spec fn revived(before: Option<Health>, now: i64) -> Health {
    Health {
        consecutive_failures: 0,
        cooldown_until_sec: 0,
        last_success_sec: now,
        last_failure_sec: match before {
            Some(h) => h.last_failure_sec,
            None => 0,
        },
    }
}

/// How many failures in a row there were.
pub open spec fn failures(before: Option<Health>) -> u32 {
    match before {
        Some(h) => h.consecutive_failures,
        None => 0,
    }
}

/// What a failure makes of the health that there was.
pub open spec fn worn(before: Option<Health>, now: i64, threshold: u32, cooldown: i64) -> Health {
    let count = failures(before) + 1;
    Health {
        consecutive_failures: count as u32,
        cooldown_until_sec: if count >= threshold {
            (now + cooldown) as i64
        } else {
            0
        },
        last_success_sec: match before {
            Some(h) => h.last_success_sec,
            None => 0,
        },
        last_failure_sec: now,
    }
}

/// One more failure can be counted, and the end of a cooldown that it leads to can be told.
pub open spec fn wear_fits(
    before: Option<Health>,
    now: i64,
    threshold: u32,
    cooldown: i64,
) -> bool {
    let count = failures(before) + 1;
    &&& count <= u32::MAX
    &&& count >= threshold ==> i64::MIN <= now + cooldown <= i64::MAX
}

impl StatsView {
    /// The region whose health goes with that of `node`.
    pub open spec fn watched_region(self, node: Seq<char>) -> Option<Seq<char>> {
        let region = regions::region_of(node, self.region_priority);
        if self.by_region && region.len() > 0 && region != "其他"@ {
            Some(region)
        } else {
            None
        }
    }

    /// Without a consensus anchor.
    pub open spec fn unanchored(self) -> StatsView {
        StatsView { anchor: None, anchored_ms: None, ..self }
    }

    /// With `node` as consensus anchor since `now_ms`.
    pub open spec fn anchored(self, node: Seq<char>, now_ms: i64) -> StatsView {
        StatsView { anchor: Some(node), anchored_ms: Some(now_ms), ..self }
    }

    /// A success of `node`: it and its region are well again, and where it is reliable it becomes
    /// the consensus anchor.
    pub open spec fn succeeded(
        self,
        node: Seq<char>,
        now: i64,
        reliable: bool,
        now_ms: i64,
    ) -> StatsView {
        if !self.enabled || node.len() == 0 {
            self
        } else {
            let v1 = StatsView {
                nodes: self.nodes.insert(node, revived(entry(self.nodes, node), now)),
                ..self
            };
            let v2 = match self.watched_region(node) {
                Some(region) => StatsView {
                    regions: v1.regions.insert(region, revived(entry(v1.regions, region), now)),
                    ..v1
                },
                None => v1,
            };
            if reliable && v2.anchor != Some(node) {
                v2.anchored(node, now_ms)
            } else {
                v2
            }
        }
    }

    /// A failure of `node` can be counted, if it is counted at all.
    pub open spec fn failure_fits(self, node: Seq<char>, now: i64) -> bool {
        self.enabled && node.len() > 0 ==> {
            &&& wear_fits(
                entry(self.nodes, node),
                now,
                self.failure_threshold,
                self.failure_cooldown_secs,
            )
            &&& self.watched_region(node) matches Some(region) ==> wear_fits(
                entry(self.regions, region),
                now,
                self.region_threshold,
                self.region_cooldown_secs,
            )
        }
    }

    /// A failure of `node`: it and its region have one more in a row. One that reaches its
    /// threshold cools down, and is no longer where the consensus anchor is.
    pub open spec fn failed(self, node: Seq<char>, now: i64) -> StatsView {
        if !self.enabled || node.len() == 0 {
            self
        } else {
            let health = worn(
                entry(self.nodes, node),
                now,
                self.failure_threshold,
                self.failure_cooldown_secs,
            );
            let v1 = StatsView { nodes: self.nodes.insert(node, health), ..self };
            let v2 = if health.consecutive_failures >= self.failure_threshold && v1.anchor == Some(
                node,
            ) {
                v1.unanchored()
            } else {
                v1
            };
            match self.watched_region(node) {
                Some(region) => {
                    let whole = worn(
                        entry(self.regions, region),
                        now,
                        self.region_threshold,
                        self.region_cooldown_secs,
                    );
                    let v3 = StatsView { regions: v2.regions.insert(region, whole), ..v2 };
                    if whole.consecutive_failures >= self.region_threshold && v3.anchor_in(region) {
                        v3.unanchored()
                    } else {
                        v3
                    }
                },
                None => v2,
            }
        }
    }

    /// The consensus anchor is in `region`.
    pub open spec fn anchor_in(self, region: Seq<char>) -> bool {
        self.anchor matches Some(anchor) && regions::region_of(anchor, self.region_priority)
            == region
    }

    /// The ends of the quarantine of `node`, and of the cooldown of its region, can be told, if
    /// there are any.
    pub open spec fn quarantine_fits(
        self,
        node: Seq<char>,
        duration: i64,
        reason: Seq<char>,
        now: i64,
    ) -> bool {
        self.enabled && node.len() > 0 ==> {
            &&& i64::MIN <= now + duration <= i64::MAX
            &&& text::occurs(reason, "location"@) && self.watched_region(node) is Some ==> i64::MIN
                <= now + self.region_cooldown_secs <= i64::MAX
        }
    }

    /// `node` is put in quarantine. It is no longer the consensus anchor, and where the reason is
    /// its location its region cools down.
    pub open spec fn quarantined(
        self,
        node: Seq<char>,
        duration: i64,
        reason: Seq<char>,
        now: i64,
    ) -> StatsView {
        if !self.enabled || node.len() == 0 {
            self
        } else {
            let v1 = StatsView {
                quarantine: self.quarantine.insert(node, ((now + duration) as i64, reason)),
                ..self
            };
            let v2 = if v1.anchor == Some(node) {
                v1.unanchored()
            } else {
                v1
            };
            match self.watched_region(node) {
                Some(region) if text::occurs(reason, "location"@) => StatsView {
                    regions: v2.regions.insert(
                        region,
                        blocked(
                            entry(v2.regions, region),
                            (now + self.region_cooldown_secs) as i64,
                            now,
                        ),
                    ),
                    ..v2
                },
                _ => v2,
            }
        }
    }

    /// `node` is in quarantine.
    pub open spec fn in_quarantine(self, node: Seq<char>, now: i64) -> bool {
        &&& self.enabled
        &&& node.len() > 0
        &&& self.quarantine.contains_key(node)
        &&& self.quarantine[node].0 > now
    }

    /// `node` is cooling down.
    pub open spec fn cooling(self, node: Seq<char>, now: i64) -> bool {
        &&& self.enabled
        &&& node.len() > 0
        &&& self.nodes.contains_key(node)
        &&& self.nodes[node].cooldown_until_sec > now
    }

    /// `region` is cooling down.
    pub open spec fn region_cooling(self, region: Seq<char>, now: i64) -> bool {
        &&& self.enabled
        &&& region.len() > 0
        &&& self.regions.contains_key(region)
        &&& self.regions[region].cooldown_until_sec > now
    }

    /// The consensus anchor, where it is not blank.
    pub open spec fn consensus(self) -> Option<Seq<char>> {
        match self.anchor {
            Some(node) if self.enabled && text::trimmed(node).len() > 0 => Some(node),
            _ => None,
        }
    }
}

/// What it makes of the health that there was that a region was refused for its location.
pub open spec fn blocked(before: Option<Health>, until: i64, now: i64) -> Health {
    match before {
        Some(h) => Health {
            cooldown_until_sec: if h.cooldown_until_sec >= until {
                h.cooldown_until_sec
            } else {
                until
            },
            last_failure_sec: now,
            ..h
        },
        None => Health {
            consecutive_failures: 1,
            cooldown_until_sec: until,
            last_success_sec: 0,
            last_failure_sec: now,
        },
    }
}

/// What is remembered of nodes and regions, and the rules by which it changes. What is remembered
/// is open to whoever keeps it between runs.
pub struct StatsManager {
    enabled: bool,
    failure_cooldown_secs: i64,
    consecutive_failure_threshold: u32,
    region_priority: Vec<String>,
    region_consecutive_failure_threshold: u32,
    region_failure_cooldown_secs: i64,
    no_region_priority: bool,
    pub nodes: Table<Health>,
    pub regions: Table<Health>,
    pub quarantine: Table<Quarantine>,
    pub anchor: Option<String>,
    pub anchored_ms: Option<i64>,
    pub switched_ms: i64,
    pub switched_to: Option<String>,
    pub switched_from: Option<String>,
}

/// Until when and why a node is in quarantine.
pub open spec fn sentence(q: Quarantine) -> (i64, Seq<char>) {
    (q.until_sec, q.reason@)
}

/// Until when and why each node is in quarantine.
pub open spec fn sentences(table: Map<Seq<char>, Quarantine>) -> Map<Seq<char>, (i64, Seq<char>)> {
    Map::new(|name: Seq<char>| table.contains_key(name), |name: Seq<char>| sentence(table[name]))
}

impl View for StatsManager {
    type V = StatsView;

    closed spec fn view(&self) -> StatsView {
        StatsView {
            enabled: self.enabled,
            failure_cooldown_secs: self.failure_cooldown_secs,
            failure_threshold: self.consecutive_failure_threshold,
            region_priority: text::strings(self.region_priority@),
            region_threshold: self.region_consecutive_failure_threshold,
            region_cooldown_secs: self.region_failure_cooldown_secs,
            by_region: !self.no_region_priority,
            nodes: self.nodes@,
            regions: self.regions@,
            quarantine: sentences(self.quarantine@),
            anchor: text::text_of(self.anchor),
            anchored_ms: self.anchored_ms,
            switched_ms: self.switched_ms,
            switched_to: text::text_of(self.switched_to),
            switched_from: text::text_of(self.switched_from),
        }
    }
}

/// Whether an optional string holds `name`.
fn holds(s: &Option<String>, name: &str) -> (r: bool)
    ensures
        r == (text::text_of(*s) == Some(name@)),
{
    match s {
        Some(t) => same_str(t.as_str(), name),
        None => false,
    }
}

/// A copy of what is held under `name`, if anything.
fn look_up(table: &Table<Health>, name: &str) -> (r: Option<Health>)
    requires
        table.well_formed(),
    ensures
        r == entry(table@, name@),
{
    match table.get(name) {
        Some(h) => Some(*h),
        None => None,
    }
}

/// What a success makes of the health that there was.
fn revive(before: Option<Health>, now: i64) -> (r: Health)
    ensures
        r == revived(before, now),
{
    Health {
        consecutive_failures: 0,
        cooldown_until_sec: 0,
        last_success_sec: now,
        last_failure_sec: match before {
            Some(h) => h.last_failure_sec,
            None => 0,
        },
    }
}

/// What a failure makes of the health that there was.
fn wear(before: Option<Health>, now: i64, threshold: u32, cooldown: i64) -> (r: Health)
    requires
        wear_fits(before, now, threshold, cooldown),
    ensures
        r == worn(before, now, threshold, cooldown),
{
    let count: u32 = match before {
        Some(h) => h.consecutive_failures + 1,
        None => 1,
    };
    Health {
        consecutive_failures: count,
        cooldown_until_sec: if count >= threshold {
            now + cooldown
        } else {
            0
        },
        last_success_sec: match before {
            Some(h) => h.last_success_sec,
            None => 0,
        },
        last_failure_sec: now,
    }
}

/// Whether one more failure can be counted, and the end of a cooldown that it leads to told.
fn can_wear(before: Option<Health>, now: i64, threshold: u32, cooldown: i64) -> (r: bool)
    ensures
        r == wear_fits(before, now, threshold, cooldown),
{
    let count: u32 = match before {
        Some(h) => h.consecutive_failures,
        None => 0,
    };
    count < u32::MAX && (count + 1 < threshold || now.checked_add(cooldown).is_some())
}

impl StatsManager {
    /// Each of the tables has at most one row for each name.
    pub closed spec fn well_formed(self) -> bool {
        &&& self.nodes.well_formed()
        &&& self.regions.well_formed()
        &&& self.quarantine.well_formed()
    }

    /// A memory that holds nothing yet.
    pub fn new(
        enabled: bool,
        failure_cooldown_secs: i64,
        consecutive_failure_threshold: u32,
        region_priority: Vec<String>,
        region_consecutive_failure_threshold: u32,
        region_failure_cooldown_secs: i64,
        no_region_priority: bool,
    ) -> (r: Self)
        ensures
            r.well_formed(),
            r@ == (StatsView {
                enabled,
                failure_cooldown_secs,
                failure_threshold: consecutive_failure_threshold,
                region_priority: text::strings(region_priority@),
                region_threshold: region_consecutive_failure_threshold,
                region_cooldown_secs: region_failure_cooldown_secs,
                by_region: !no_region_priority,
                nodes: Map::empty(),
                regions: Map::empty(),
                quarantine: Map::empty(),
                anchor: None,
                anchored_ms: None,
                switched_ms: 0,
                switched_to: None,
                switched_from: None,
            }),
    {
        let r = StatsManager {
            enabled,
            failure_cooldown_secs,
            consecutive_failure_threshold,
            region_priority,
            region_consecutive_failure_threshold,
            region_failure_cooldown_secs,
            no_region_priority,
            nodes: Table::new(),
            regions: Table::new(),
            quarantine: Table::new(),
            anchor: None,
            anchored_ms: None,
            switched_ms: 0,
            switched_to: None,
            switched_from: None,
        };
        proof {
            assert(r@.quarantine =~= Map::empty());
        }
        r
    }

    /// The region whose health goes with that of `node`.
    fn region_to_watch(&self, node: &str) -> (r: Option<String>)
        ensures
            text::text_of(r) == self@.watched_region(node@),
    {
        if self.no_region_priority {
            return None;
        }
        let region = regions::extract_region(node, &self.region_priority);
        if !chars_of(region.as_str()).is_empty() && !same_str(region.as_str(), "其他") {
            Some(region)
        } else {
            None
        }
    }

    /// Records a success for the specified node at `now`. `reliable` says whether its record, with
    /// this success, makes it fit to be the consensus anchor.
    pub fn record_success_at(&mut self, node: &str, now: i64, reliable: bool, now_ms: i64)
        requires
            old(self).well_formed(),
        ensures
            final(self).well_formed(),
            final(self)@ == old(self)@.succeeded(node@, now, reliable, now_ms),
    {
        if !self.enabled || chars_of(node).is_empty() {
            return;
        }
        let watched = self.region_to_watch(node);
        let health = revive(look_up(&self.nodes, node), now);
        self.nodes.set(node, health);
        if let Some(region) = watched {
            let whole = revive(look_up(&self.regions, region.as_str()), now);
            self.regions.set(region.as_str(), whole);
        }
        if reliable && !holds(&self.anchor, node) {
            self.anchor = Some(node.to_owned());
            self.anchored_ms = Some(now_ms);
        }
    }

    /// Whether a failure of `node` at `now` can be counted.
    pub fn can_record_failure(&self, node: &str, now: i64) -> (r: bool)
        requires
            self.well_formed(),
        ensures
            r == self@.failure_fits(node@, now),
    {
        if !self.enabled || chars_of(node).is_empty() {
            return true;
        }
        let fits = can_wear(
            look_up(&self.nodes, node),
            now,
            self.consecutive_failure_threshold,
            self.failure_cooldown_secs,
        );
        match self.region_to_watch(node) {
            Some(region) => fits && can_wear(
                look_up(&self.regions, region.as_str()),
                now,
                self.region_consecutive_failure_threshold,
                self.region_failure_cooldown_secs,
            ),
            None => fits,
        }
    }

    /// Records a failure for the specified node at `now`.
    pub fn record_failure_at(&mut self, node: &str, now: i64)
        requires
            old(self).well_formed(),
            old(self)@.failure_fits(node@, now),
        ensures
            final(self).well_formed(),
            final(self)@ == old(self)@.failed(node@, now),
    {
        if !self.enabled || chars_of(node).is_empty() {
            return;
        }
        let watched = self.region_to_watch(node);
        let health = wear(
            look_up(&self.nodes, node),
            now,
            self.consecutive_failure_threshold,
            self.failure_cooldown_secs,
        );
        self.nodes.set(node, health);
        if health.consecutive_failures >= self.consecutive_failure_threshold && holds(
            &self.anchor,
            node,
        ) {
            self.anchor = None;
            self.anchored_ms = None;
        }
        if let Some(region) = watched {
            let whole = wear(
                look_up(&self.regions, region.as_str()),
                now,
                self.region_consecutive_failure_threshold,
                self.region_failure_cooldown_secs,
            );
            self.regions.set(region.as_str(), whole);
            if whole.consecutive_failures >= self.region_consecutive_failure_threshold
                && self.is_anchor_in(region.as_str()) {
                self.anchor = None;
                self.anchored_ms = None;
            }
        }
    }

    /// Whether the consensus anchor is in `region`.
    fn is_anchor_in(&self, region: &str) -> (r: bool)
        ensures
            r == self@.anchor_in(region@),
    {
        match &self.anchor {
            Some(anchor) => same_str(
                regions::extract_region(anchor.as_str(), &self.region_priority).as_str(),
                region,
            ),
            None => false,
        }
    }

    /// Whether the quarantine of `node` from `now` on can be recorded.
    pub fn can_quarantine(&self, node: &str, duration_secs: i64, reason: &str, now: i64) -> (r:
        bool)
        ensures
            r == self@.quarantine_fits(node@, duration_secs, reason@, now),
    {
        if !self.enabled || chars_of(node).is_empty() {
            return true;
        }
        now.checked_add(duration_secs).is_some() && (!text::contains(
            &chars_of(reason),
            "location",
        ) || self.region_to_watch(node).is_none() || now.checked_add(
            self.region_failure_cooldown_secs,
        ).is_some())
    }

    /// Quarantines a node until `now + duration_secs` with a given reason.
    pub fn quarantine_node_at(&mut self, node: &str, duration_secs: i64, reason: &str, now: i64)
        requires
            old(self).well_formed(),
            old(self)@.quarantine_fits(node@, duration_secs, reason@, now),
        ensures
            final(self).well_formed(),
            final(self)@ == old(self)@.quarantined(node@, duration_secs, reason@, now),
    {
        if !self.enabled || chars_of(node).is_empty() {
            return;
        }
        let ghost before = self.quarantine@;
        let watched = self.region_to_watch(node);
        let q = Quarantine { until_sec: now + duration_secs, reason: reason.to_owned() };
        let ghost held = sentence(q);
        self.quarantine.set(node, q);
        proof {
            assert(sentences(self.quarantine@) =~= sentences(before).insert(node@, held));
        }
        if holds(&self.anchor, node) {
            self.anchor = None;
            self.anchored_ms = None;
        }
        if let Some(region) = watched {
            if text::contains(&chars_of(reason), "location") {
                let until: i64 = now + self.region_failure_cooldown_secs;
                let whole = match look_up(&self.regions, region.as_str()) {
                    Some(h) => Health {
                        consecutive_failures: h.consecutive_failures,
                        cooldown_until_sec: if h.cooldown_until_sec >= until {
                            h.cooldown_until_sec
                        } else {
                            until
                        },
                        last_success_sec: h.last_success_sec,
                        last_failure_sec: now,
                    },
                    None => Health {
                        consecutive_failures: 1,
                        cooldown_until_sec: until,
                        last_success_sec: 0,
                        last_failure_sec: now,
                    },
                };
                self.regions.set(region.as_str(), whole);
            }
        }
    }
}

impl Lasting for Health {
    open spec fn end(&self) -> i64 {
        self.cooldown_until_sec
    }

    fn end_sec(&self) -> (r: i64) {
        self.cooldown_until_sec
    }
}

impl Lasting for Quarantine {
    open spec fn end(&self) -> i64 {
        self.until_sec
    }

    fn end_sec(&self) -> (r: i64) {
        self.until_sec
    }
}

/// How many seconds there are from `now` until `until`, as far as 64 bits tell.
pub open spec fn remaining(until: i64, now: i64) -> i64 {
    if until - now > i64::MAX {
        i64::MAX
    } else if until - now < 0 {
        0
    } else {
        (until - now) as i64
    }
}

/// How many seconds there are from `now` until `until`, as far as 64 bits tell.
fn seconds_left(until: i64, now: i64) -> (r: i64)
    ensures
        r == remaining(until, now),
{
    if until <= now {
        return 0;
    }
    match until.checked_sub(now) {
        Some(left) => left,
        None => i64::MAX,
    }
}

/// `names` are those under which `ends` holds something beyond `now`, each once, the latest
/// first.
pub open spec fn latest_first(
    names: Seq<Seq<char>>,
    ends: Map<Seq<char>, i64>,
    now: i64,
) -> bool {
    &&& names.no_duplicates()
    &&& forall|name: Seq<char>| #[trigger]
        names.contains(name) <==> ends.contains_key(name) && ends[name] > now
    &&& forall|i: int, j: int|
        0 <= i < j < names.len() ==> ends[#[trigger] names[i]] >= ends[#[trigger] names[j]]
}

/// When each cooldown ends.
pub open spec fn cooldowns(rows: Map<Seq<char>, Health>) -> Map<Seq<char>, i64> {
    Map::new(
        |name: Seq<char>| rows.contains_key(name),
        |name: Seq<char>| rows[name].cooldown_until_sec,
    )
}

/// When each quarantine ends.
pub open spec fn releases(rows: Map<Seq<char>, (i64, Seq<char>)>) -> Map<Seq<char>, i64> {
    Map::new(|name: Seq<char>| rows.contains_key(name), |name: Seq<char>| rows[name].0)
}

/// The first parts of a list of triples.
pub open spec fn first_parts<A, B>(list: Seq<(String, A, B)>) -> Seq<Seq<char>> {
    Seq::new(list.len(), |i: int| list[i].0@)
}

/// `list` tells of each of `rows` that is cooling down how long it will, and how often it failed
/// in a row; the longest first.
pub open spec fn cooldown_list(
    list: Seq<(String, i64, u32)>,
    rows: Map<Seq<char>, Health>,
    now: i64,
) -> bool {
    &&& latest_first(first_parts(list), cooldowns(rows), now)
    &&& forall|i: int|
        0 <= i < list.len() ==> (#[trigger] list[i]).1 == remaining(
            rows[list[i].0@].cooldown_until_sec,
            now,
        ) && list[i].2 == rows[list[i].0@].consecutive_failures
}

/// `list` tells of each of `rows` that is in quarantine how long it will be, and why; the longest
/// first.
pub open spec fn quarantine_list(
    list: Seq<(String, i64, String)>,
    rows: Map<Seq<char>, (i64, Seq<char>)>,
    now: i64,
) -> bool {
    &&& latest_first(first_parts(list), releases(rows), now)
    &&& forall|i: int|
        0 <= i < list.len() ==> (#[trigger] list[i]).1 == remaining(rows[list[i].0@].0, now)
            && list[i].2@ == rows[list[i].0@].1
}

/// Those of a table that are cooling down, how long they will, and how often they failed in a
/// row; the longest first.
fn list_cooldowns(table: &Table<Health>, now: i64) -> (r: Vec<(String, i64, u32)>)
    requires
        table.well_formed(),
    ensures
        cooldown_list(r@, table@, now),
{
    let names = table.names_by_end(now);
    let mut out: Vec<(String, i64, u32)> = Vec::new();
    let mut i: usize = 0;
    while i < names.len()
        invariant
            i <= names@.len(),
            table.well_formed(),
            table::by_end(text::strings(names@), table@, now),
            out@.len() == i,
            forall|k: int|
                0 <= k < i ==> (#[trigger] out@[k]).0@ == names@[k]@ && out@[k].1 == remaining(
                    table@[names@[k]@].cooldown_until_sec,
                    now,
                ) && out@[k].2 == table@[names@[k]@].consecutive_failures,
        decreases names@.len() - i,
    {
        let name = names[i].as_str();
        proof {
            assert(text::strings(names@)[i as int] == name@);
            assert(text::strings(names@).contains(name@));
        }
        if let Some(health) = table.get(name) {
            out.push(
                (
                    name.to_owned(),
                    seconds_left(health.cooldown_until_sec, now),
                    health.consecutive_failures,
                ),
            );
        }
        i += 1;
    }
    proof {
        let listed = first_parts(out@);
        let ends = cooldowns(table@);
        assert(listed =~= text::strings(names@));
        assert forall|name: Seq<char>| #[trigger]
            listed.contains(name) <==> ends.contains_key(name) && ends[name] > now by {}
        assert forall|i: int, j: int| 0 <= i < j < listed.len() implies ends[
            #[trigger] listed[i]] >= ends[#[trigger] listed[j]] by {
            assert(listed.contains(listed[i]));
            assert(listed.contains(listed[j]));
        }
    }
    out
}

/// `names` without those in quarantine.
pub open spec fn released(v: StatsView, names: Seq<Seq<char>>, now: i64) -> Seq<Seq<char>> {
    names.filter(|name: Seq<char>| !v.in_quarantine(name, now))
}

/// `names` without those that are cooling down.
pub open spec fn rested(v: StatsView, names: Seq<Seq<char>>, now: i64) -> Seq<Seq<char>> {
    names.filter(|name: Seq<char>| !v.cooling(name, now))
}

impl StatsManager {
    pub fn is_enabled(&self) -> (r: bool)
        ensures
            r == self@.enabled,
    {
        self.enabled
    }

    /// Checks whether a node is currently quarantined at `now_sec`.
    pub fn is_quarantined(&self, node: &str, now_sec: i64) -> (r: bool)
        requires
            self.well_formed(),
        ensures
            r == self@.in_quarantine(node@, now_sec),
    {
        self.enabled && !chars_of(node).is_empty() && match self.quarantine.get(node) {
            Some(q) => q.until_sec > now_sec,
            None => false,
        }
    }

    /// Filters candidate nodes to only those not currently quarantined.
    pub fn filter_quarantined(&self, candidates: &[String], now_sec: i64) -> (r: Vec<String>)
        requires
            self.well_formed(),
        ensures
            text::strings(r@) == released(self@, text::strings(candidates@), now_sec),
    {
        let ghost p = |name: Seq<char>| !self@.in_quarantine(name, now_sec);
        let ghost all = text::strings(candidates@);
        let mut out: Vec<String> = Vec::new();
        let mut i: usize = 0;
        proof {
            assert(all.take(0) =~= Seq::<Seq<char>>::empty());
            reveal(Seq::filter);
            assert(text::strings(out@) =~= all.take(0).filter(p));
        }
        while i < candidates.len()
            invariant
                i <= candidates@.len(),
                self.well_formed(),
                all == text::strings(candidates@),
                p == (|name: Seq<char>| !self@.in_quarantine(name, now_sec)),
                text::strings(out@) == all.take(i as int).filter(p),
            decreases candidates@.len() - i,
        {
            let name = candidates[i].as_str();
            let ghost before = out@;
            proof {
                reveal(Seq::filter);
                assert(all.take(i + 1).drop_last() =~= all.take(i as int));
                assert(all.take(i + 1).last() == name@);
            }
            if !self.is_quarantined(name, now_sec) {
                out.push(name.to_owned());
                proof {
                    assert(text::strings(out@) =~= text::strings(before).push(name@));
                }
            }
            i += 1;
        }
        proof {
            assert(all.take(all.len() as int) =~= all);
        }
        out
    }

    /// Returns all currently quarantined nodes with (node_name, remaining_secs, reason).
    pub fn get_quarantined_nodes(&self, now_sec: i64) -> (r: Vec<(String, i64, String)>)
        requires
            self.well_formed(),
        ensures
            self@.enabled ==> quarantine_list(r@, self@.quarantine, now_sec),
            !self@.enabled ==> r@.len() == 0,
    {
        let mut out: Vec<(String, i64, String)> = Vec::new();
        if !self.enabled {
            return out;
        }
        let names = self.quarantine.names_by_end(now_sec);
        let mut i: usize = 0;
        while i < names.len()
            invariant
                i <= names@.len(),
                self.well_formed(),
                table::by_end(text::strings(names@), self.quarantine@, now_sec),
                out@.len() == i,
                forall|k: int|
                    0 <= k < i ==> (#[trigger] out@[k]).0@ == names@[k]@ && out@[k].1 == remaining(
                        self.quarantine@[names@[k]@].until_sec,
                        now_sec,
                    ) && out@[k].2@ == self.quarantine@[names@[k]@].reason@
                        && self.quarantine@.contains_key(names@[k]@),
            decreases names@.len() - i,
        {
            let name = names[i].as_str();
            proof {
                assert(text::strings(names@)[i as int] == name@);
                assert(text::strings(names@).contains(name@));
            }
            if let Some(q) = self.quarantine.get(name) {
                out.push((name.to_owned(), seconds_left(q.until_sec, now_sec), q.reason.clone()));
            }
            i += 1;
        }
        proof {
            let listed = first_parts(out@);
            let ends = releases(self@.quarantine);
            assert(listed =~= text::strings(names@));
            assert forall|name: Seq<char>| #[trigger]
                listed.contains(name) <==> ends.contains_key(name) && ends[name] > now_sec by {}
            assert forall|i: int, j: int| 0 <= i < j < listed.len() implies ends[
                #[trigger] listed[i]] >= ends[#[trigger] listed[j]] by {
                assert(listed.contains(listed[i]));
                assert(listed.contains(listed[j]));
            }
        }
        out
    }

    /// Clears quarantine for a specific node or all nodes if None
    pub fn clear_quarantine(&mut self, node: Option<&str>)
        requires
            old(self).well_formed(),
        ensures
            final(self).well_formed(),
            final(self)@ == (if !old(self)@.enabled {
                old(self)@
            } else {
                StatsView {
                    quarantine: match node {
                        Some(name) => old(self)@.quarantine.remove(name@),
                        None => Map::empty(),
                    },
                    ..old(self)@
                }
            }),
    {
        if !self.enabled {
            return;
        }
        let ghost before = self.quarantine@;
        match node {
            Some(name) => {
                self.quarantine.remove(name);
                proof {
                    assert(sentences(self.quarantine@) =~= sentences(before).remove(name@));
                }
            },
            None => {
                self.quarantine = Table::new();
                proof {
                    assert(sentences(self.quarantine@) =~= Map::empty());
                }
            },
        }
    }

    /// Checks whether a node is currently in cooldown from consecutive failures at `now_sec`.
    pub fn is_cooling_down(&self, node: &str, now_sec: i64) -> (r: bool)
        requires
            self.well_formed(),
        ensures
            r == self@.cooling(node@, now_sec),
    {
        self.enabled && !chars_of(node).is_empty() && match self.nodes.get(node) {
            Some(h) => h.cooldown_until_sec > now_sec,
            None => false,
        }
    }

    /// Filters candidate nodes to only those not currently in cooldown.
    pub fn filter_cooling_down(&self, candidates: &[String], now_sec: i64) -> (r: Vec<String>)
        requires
            self.well_formed(),
        ensures
            text::strings(r@) == rested(self@, text::strings(candidates@), now_sec),
    {
        let ghost p = |name: Seq<char>| !self@.cooling(name, now_sec);
        let ghost all = text::strings(candidates@);
        let mut out: Vec<String> = Vec::new();
        let mut i: usize = 0;
        proof {
            assert(all.take(0) =~= Seq::<Seq<char>>::empty());
            reveal(Seq::filter);
            assert(text::strings(out@) =~= all.take(0).filter(p));
        }
        while i < candidates.len()
            invariant
                i <= candidates@.len(),
                self.well_formed(),
                all == text::strings(candidates@),
                p == (|name: Seq<char>| !self@.cooling(name, now_sec)),
                text::strings(out@) == all.take(i as int).filter(p),
            decreases candidates@.len() - i,
        {
            let name = candidates[i].as_str();
            let ghost before = out@;
            proof {
                reveal(Seq::filter);
                assert(all.take(i + 1).drop_last() =~= all.take(i as int));
                assert(all.take(i + 1).last() == name@);
            }
            if !self.is_cooling_down(name, now_sec) {
                out.push(name.to_owned());
                proof {
                    assert(text::strings(out@) =~= text::strings(before).push(name@));
                }
            }
            i += 1;
        }
        proof {
            assert(all.take(all.len() as int) =~= all);
        }
        out
    }

    /// Returns consecutive failure count for a node
    pub fn get_consecutive_failures(&self, node: &str) -> (r: u32)
        requires
            self.well_formed(),
        ensures
            r == (if self@.enabled && node@.len() > 0 {
                failures(entry(self@.nodes, node@))
            } else {
                0
            }),
    {
        if !self.enabled || chars_of(node).is_empty() {
            return 0;
        }
        match self.nodes.get(node) {
            Some(h) => h.consecutive_failures,
            None => 0,
        }
    }

    /// Returns all currently cooling-down nodes with (node_name, remaining_secs,
    /// consecutive_failures).
    pub fn get_cooling_down_nodes(&self, now_sec: i64) -> (r: Vec<(String, i64, u32)>)
        requires
            self.well_formed(),
        ensures
            self@.enabled ==> cooldown_list(r@, self@.nodes, now_sec),
            !self@.enabled ==> r@.len() == 0,
    {
        if !self.enabled {
            return Vec::new();
        }
        list_cooldowns(&self.nodes, now_sec)
    }

    /// Gets current consensus anchor node
    pub fn get_consensus_anchor(&self) -> (r: Option<String>)
        ensures
            text::text_of(r) == self@.consensus(),
    {
        if !self.enabled {
            return None;
        }
        match &self.anchor {
            Some(node) => if text::trim(&chars_of(node.as_str())).len() > 0 {
                Some(node.clone())
            } else {
                None
            },
            None => None,
        }
    }

    /// Sets consensus anchor node at `now_ms`
    pub fn set_consensus_anchor_at(&mut self, node: &str, now_ms: i64)
        requires
            old(self).well_formed(),
        ensures
            final(self).well_formed(),
            final(self)@ == (if !old(self)@.enabled || node@.len() == 0 {
                old(self)@
            } else {
                old(self)@.anchored(node@, now_ms)
            }),
    {
        if !self.enabled || chars_of(node).is_empty() {
            return;
        }
        self.anchor = Some(node.to_owned());
        self.anchored_ms = Some(now_ms);
    }

    /// Checks if a node is the current consensus anchor
    pub fn is_consensus_anchor(&self, node: &str) -> (r: bool)
        ensures
            r == (node@.len() > 0 && self@.consensus() == Some(node@)),
    {
        if chars_of(node).is_empty() {
            return false;
        }
        holds(&self.get_consensus_anchor(), node)
    }

    /// Checks whether a region is currently in cooldown from consecutive failures or location
    /// block at `now_sec`.
    pub fn is_region_cooling_down(&self, region: &str, now_sec: i64) -> (r: bool)
        requires
            self.well_formed(),
        ensures
            r == self@.region_cooling(region@, now_sec),
    {
        self.enabled && !chars_of(region).is_empty() && match self.regions.get(region) {
            Some(h) => h.cooldown_until_sec > now_sec,
            None => false,
        }
    }

    /// Returns all currently cooling-down regions with (region_name, remaining_secs,
    /// consecutive_failures).
    pub fn get_cooling_down_regions(&self, now_sec: i64) -> (r: Vec<(String, i64, u32)>)
        requires
            self.well_formed(),
        ensures
            self@.enabled ==> cooldown_list(r@, self@.regions, now_sec),
            !self@.enabled ==> r@.len() == 0,
    {
        if !self.enabled {
            return Vec::new();
        }
        list_cooldowns(&self.regions, now_sec)
    }

    /// Returns consecutive failure count for a region.
    pub fn get_region_consecutive_failures(&self, region: &str) -> (r: u32)
        requires
            self.well_formed(),
        ensures
            r == (if self@.enabled && region@.len() > 0 {
                failures(entry(self@.regions, region@))
            } else {
                0
            }),
    {
        if !self.enabled || chars_of(region).is_empty() {
            return 0;
        }
        match self.regions.get(region) {
            Some(h) => h.consecutive_failures,
            None => 0,
        }
    }

    pub fn region_priority(&self) -> (r: &[String])
        ensures
            text::strings(r@) == self@.region_priority,
    {
        &self.region_priority
    }

    pub fn is_region_priority_enabled(&self) -> (r: bool)
        ensures
            r == self@.by_region,
    {
        !self.no_region_priority
    }

    /// Returns (last_switch_at_ms, last_switch_node)
    pub fn get_last_switch_info(&self) -> (r: (i64, Option<String>))
        ensures
            self@.enabled ==> r.0 == self@.switched_ms && text::text_of(r.1) == self@.switched_to,
            !self@.enabled ==> r.0 == 0 && r.1 is None,
    {
        if !self.enabled {
            return (0, None);
        }
        let to = match &self.switched_to {
            Some(node) => Some(node.clone()),
            None => None,
        };
        (self.switched_ms, to)
    }

    /// Records a Clash switch event
    pub fn record_switch_event(&mut self, from_node: &str, to_node: &str, now_ms: i64)
        requires
            old(self).well_formed(),
        ensures
            final(self).well_formed(),
            final(self)@ == (if !old(self)@.enabled {
                old(self)@
            } else {
                StatsView {
                    switched_ms: now_ms,
                    switched_to: Some(to_node@),
                    switched_from: Some(from_node@),
                    ..old(self)@
                }
            }),
    {
        if !self.enabled {
            return;
        }
        self.switched_ms = now_ms;
        self.switched_to = Some(to_node.to_owned());
        self.switched_from = Some(from_node.to_owned());
    }
}

impl StatsManager {
    /// Gets current local hour (0..=23). Trusted: `chrono::Local::now` and `Timelike::hour`, which
    /// gives a number below 24.
    #[verifier::external_body]
    pub fn current_hour() -> (r: u8)
        ensures
            r < 24,
    {
        chrono::Timelike::hour(&chrono::Local::now()) as u8
    }

    /// Gets current unix timestamp in seconds. Trusted: `chrono::Utc::now` and
    /// `DateTime::timestamp`; the former gives no moment before 1970 and none after the last that
    /// `chrono` has a date for, and ends the program where the clock of the machine shows one.
    #[verifier::external_body]
    pub fn now_sec() -> (r: i64)
        ensures
            0 <= r <= LATEST_SEC,
    {
        chrono::Utc::now().timestamp()
    }

    /// Gets current unix timestamp in milliseconds. Trusted: `chrono::Utc::now` and
    /// `DateTime::timestamp_millis`; the former gives no moment before 1970, and ends the program
    /// where the clock of the machine shows one.
    #[verifier::external_body]
    fn now_ms() -> (r: i64)
        ensures
            r >= 0,
    {
        chrono::Utc::now().timestamp_millis()
    }

    /// A memory as `config` asks for it.
    pub fn from_config(config: &Config) -> (r: Self)
        ensures
            r.well_formed(),
            r@ == (StatsView {
                enabled: !config.no_stats,
                failure_cooldown_secs: crate::config::at_least_zero(config.failure_cooldown),
                failure_threshold: config.consecutive_failure_threshold,
                region_priority: text::strings(config.region_priority@),
                region_threshold: config.region_consecutive_failure_threshold,
                region_cooldown_secs: crate::config::at_least_zero(
                    config.region_failure_cooldown,
                ),
                by_region: !config.no_region_priority,
                nodes: Map::empty(),
                regions: Map::empty(),
                quarantine: Map::empty(),
                anchor: None,
                anchored_ms: None,
                switched_ms: 0,
                switched_to: None,
                switched_from: None,
            }),
    {
        let mut region_priority: Vec<String> = Vec::new();
        let mut i: usize = 0;
        while i < config.region_priority.len()
            invariant
                i <= config.region_priority@.len(),
                region_priority@.len() == i,
                forall|k: int|
                    0 <= k < i ==> (#[trigger] region_priority@[k])@ == config.region_priority@[k]@,
            decreases config.region_priority@.len() - i,
        {
            region_priority.push(config.region_priority[i].clone());
            i += 1;
        }
        proof {
            assert(text::strings(region_priority@) =~= text::strings(config.region_priority@));
        }
        StatsManager::new(
            !config.no_stats,
            config.failure_cooldown_duration_secs(),
            config.consecutive_failure_threshold,
            region_priority,
            config.region_consecutive_failure_threshold,
            config.region_failure_cooldown_duration_secs(),
            config.no_region_priority,
        )
    }

    /// Records a success for the specified node at the present moment.
    pub fn record_success(&mut self, node: &str, reliable: bool)
        requires
            old(self).well_formed(),
        ensures
            final(self).well_formed(),
            exists|now: i64, now_ms: i64|
                on_the_clock(now) && final(self)@ == #[trigger] old(self)@.succeeded(
                    node@,
                    now,
                    reliable,
                    now_ms,
                ),
    {
        let now = StatsManager::now_sec();
        let now_ms = StatsManager::now_ms();
        self.record_success_at(node, now, reliable, now_ms);
    }

    /// Records a failure for the specified node at the present moment, where it can be counted.
    pub fn record_failure(&mut self, node: &str)
        requires
            old(self).well_formed(),
        ensures
            final(self).well_formed(),
            exists|now: i64|
                on_the_clock(now) && final(self)@ == (if #[trigger] old(self)@.failure_fits(
                    node@,
                    now,
                ) {
                    old(self)@.failed(node@, now)
                } else {
                    old(self)@
                }),
            (forall|now: i64|
                on_the_clock(now) ==> #[trigger] old(self)@.failure_fits(node@, now)) ==> exists|
                now: i64,
            |
                on_the_clock(now) && final(self)@ == #[trigger] old(self)@.failed(node@, now),
    {
        let now = StatsManager::now_sec();
        if self.can_record_failure(node, now) {
            self.record_failure_at(node, now);
        }
    }

    /// Quarantines a node for `duration_secs` from the present moment on with a given reason,
    /// where the end of that can be told.
    pub fn quarantine_node(&mut self, node: &str, duration_secs: i64, reason: &str)
        requires
            old(self).well_formed(),
        ensures
            final(self).well_formed(),
            exists|now: i64|
                on_the_clock(now) && final(self)@ == (if #[trigger] old(self)@.quarantine_fits(
                    node@,
                    duration_secs,
                    reason@,
                    now,
                ) {
                    old(self)@.quarantined(node@, duration_secs, reason@, now)
                } else {
                    old(self)@
                }),
            (forall|now: i64|
                on_the_clock(now) ==> #[trigger] old(self)@.quarantine_fits(
                    node@,
                    duration_secs,
                    reason@,
                    now,
                )) ==> exists|now: i64|
                on_the_clock(now) && final(self)@ == #[trigger] old(self)@.quarantined(
                    node@,
                    duration_secs,
                    reason@,
                    now,
                ),
    {
        let now = StatsManager::now_sec();
        if self.can_quarantine(node, duration_secs, reason, now) {
            self.quarantine_node_at(node, duration_secs, reason, now);
        }
    }

    /// Sets consensus anchor node at the present moment
    pub fn set_consensus_anchor(&mut self, node: &str)
        requires
            old(self).well_formed(),
        ensures
            final(self).well_formed(),
            !old(self)@.enabled || node@.len() == 0 ==> final(self)@ == old(self)@,
            old(self)@.enabled && node@.len() > 0 ==> exists|now_ms: i64|
                final(self)@ == #[trigger] old(self)@.anchored(node@, now_ms),
    {
        let now_ms = StatsManager::now_ms();
        self.set_consensus_anchor_at(node, now_ms);
    }
}

/// The version of a memory that says none.
pub fn default_version() -> (r: u32)
    ensures
        r == 1,
{
    1
}

/// Whether a database must be made anew: it says no version, or another than the current one.
pub fn needs_rebuild(version: Option<&str>) -> (r: bool)
    ensures
        r == !(version matches Some(v) && text::unsigned(v@) == Some(CURRENT_DB_VERSION as nat)),
        !r <==> (version matches Some(v) && text::unsigned(v@) == Some(2nat)),
{
    match version {
        Some(v) => match text::parse_unsigned(&chars_of(v), u32::MAX as u64) {
            Some(n) => n != CURRENT_DB_VERSION as u64,
            None => true,
        },
        None => true,
    }
}

/// The time of the last switch as it was written down; 0 where that is no time.
pub fn switch_time(written: Option<&str>) -> (r: i64)
    ensures
        r == (match written {
            Some(s) => match text::signed(s@) {
                Some(n) if i64::MIN <= n <= i64::MAX => n,
                _ => 0,
            },
            None => 0,
        }),
{
    match written {
        Some(s) => match text::parse_signed(&chars_of(s)) {
            Some(n) => n,
            None => 0,
        },
        None => 0,
    }
}

/// For how many seconds counts that were last changed at `last_updated_sec` have decayed at
/// `now_sec`.
pub fn decay_span(last_updated_sec: i64, now_sec: i64) -> (r: Option<i64>)
    ensures
        r == (if last_updated_sec <= 0 || now_sec <= last_updated_sec {
            None
        } else {
            Some((now_sec - last_updated_sec) as i64)
        }),
{
    if last_updated_sec <= 0 || now_sec <= last_updated_sec {
        None
    } else {
        Some(now_sec - last_updated_sec)
    }
}

/// A success at `now_sec` follows the last change within `burst_window_secs`.
pub open spec fn in_burst(last_updated_sec: i64, now_sec: i64, burst_window_secs: i64) -> bool {
    last_updated_sec > 0 && 0 <= now_sec - last_updated_sec <= burst_window_secs
}

/// The number that a success has in its burst; 0 where it is not in one.
pub fn burst_position(
    burst_count: u32,
    last_updated_sec: i64,
    now_sec: i64,
    burst_window_secs: i64,
) -> (r: u32)
    ensures
        r == (if in_burst(last_updated_sec, now_sec, burst_window_secs) {
            if burst_count == u32::MAX {
                u32::MAX
            } else {
                (burst_count + 1) as u32
            }
        } else {
            0
        }),
{
    if last_updated_sec > 0 && now_sec >= last_updated_sec && now_sec - last_updated_sec
        <= burst_window_secs {
        burst_count.saturating_add(1)
    } else {
        0
    }
}

/// A quarantine and a failure fit at any second that the clock can tell, as long as the spans of
/// time, none of which is negative, leave room behind it and the counts are not at their end.
pub proof fn ordinary_spans_fit(
    v: StatsView,
    node: Seq<char>,
    duration: i64,
    reason: Seq<char>,
    now: i64,
)
    requires
        on_the_clock(now),
        0 <= duration <= i64::MAX - LATEST_SEC,
        0 <= v.failure_cooldown_secs <= i64::MAX - LATEST_SEC,
        0 <= v.region_cooldown_secs <= i64::MAX - LATEST_SEC,
        failures(entry(v.nodes, node)) < u32::MAX,
        v.watched_region(node) matches Some(region) ==> failures(entry(v.regions, region))
            < u32::MAX,
    ensures
        v.quarantine_fits(node, duration, reason, now),
        v.failure_fits(node, now),
{
}

/// A success ends the failures in a row and the cooldown of a node, and of its region.
pub proof fn success_heals(
    v: StatsView,
    node: Seq<char>,
    now: i64,
    reliable: bool,
    now_ms: i64,
    later: i64,
)
    requires
        v.enabled,
        node.len() > 0,
        later >= 0,
    ensures
        ({
            let after = v.succeeded(node, now, reliable, now_ms);
            &&& failures(entry(after.nodes, node)) == 0
            &&& !after.cooling(node, later)
            &&& v.watched_region(node) matches Some(region) ==> failures(
                entry(after.regions, region),
            ) == 0 && !after.region_cooling(region, later)
        }),
{
}

/// A node cools down exactly from the failure on with which it has as many in a row as the
/// threshold says, and until the cooldown is over.
pub proof fn cooldown_starts_at_threshold(v: StatsView, node: Seq<char>, now: i64, later: i64)
    requires
        v.enabled,
        node.len() > 0,
        v.failure_fits(node, now),
        later >= 0,
    ensures
        failures(entry(v.failed(node, now).nodes, node)) == failures(entry(v.nodes, node)) + 1,
        v.failed(node, now).cooling(node, later) <==> failures(entry(v.nodes, node)) + 1
            >= v.failure_threshold && later < now + v.failure_cooldown_secs,
{
}

/// A region cools down exactly from the failure of one of its nodes on with which it has as many
/// in a row as the threshold says, and until the cooldown is over.
pub proof fn region_cooldown_starts_at_threshold(
    v: StatsView,
    node: Seq<char>,
    region: Seq<char>,
    now: i64,
    later: i64,
)
    requires
        v.enabled,
        node.len() > 0,
        v.failure_fits(node, now),
        v.watched_region(node) == Some(region),
        later >= 0,
    ensures
        failures(entry(v.failed(node, now).regions, region)) == failures(entry(v.regions, region))
            + 1,
        v.failed(node, now).region_cooling(region, later) <==> failures(entry(v.regions, region))
            + 1 >= v.region_threshold && later < now + v.region_cooldown_secs,
{
}

/// As many failures of a node in a row as the threshold says, and no fewer, make it cool down.
pub proof fn threshold_many_failures_cool_down(
    v: StatsView,
    node: Seq<char>,
    times: Seq<i64>,
    later: i64,
)
    requires
        v.enabled,
        node.len() > 0,
        times.len() > 0,
        failures(entry(v.nodes, node)) == 0,
        forall|i: int|
            0 <= i < times.len() ==> failed_at(v, node, times.take(i)).failure_fits(
                node,
                #[trigger] times[i],
            ),
        0 <= later < times.last() + v.failure_cooldown_secs,
    ensures
        failed_at(v, node, times).cooling(node, later) <==> times.len() >= v.failure_threshold,
{
    failures_add_up(v, node, times);
    let last = times.len() - 1;
    let front = times.drop_last();
    assert(front =~= times.take(last));
    assert(failed_at(v, node, times.take(last)).failure_fits(node, times[last]));
    assert forall|i: int| 0 <= i < front.len() implies failed_at(
        v,
        node,
        front.take(i),
    ).failure_fits(node, #[trigger] front[i]) by {
        assert(front.take(i) =~= times.take(i));
        assert(front[i] == times[i]);
    }
    failures_add_up(v, node, front);
}

/// What is remembered after failures of `node` at `times`.
pub open spec fn failed_at(v: StatsView, node: Seq<char>, times: Seq<i64>) -> StatsView
    decreases times.len(),
{
    if times.len() == 0 {
        v
    } else {
        failed_at(v, node, times.drop_last()).failed(node, times.last())
    }
}

/// Each failure in a row counts.
proof fn failures_add_up(v: StatsView, node: Seq<char>, times: Seq<i64>)
    requires
        v.enabled,
        node.len() > 0,
        failures(entry(v.nodes, node)) == 0,
        forall|i: int|
            0 <= i < times.len() ==> failed_at(v, node, times.take(i)).failure_fits(
                node,
                #[trigger] times[i],
            ),
    ensures
        failures(entry(failed_at(v, node, times).nodes, node)) == times.len(),
        failed_at(v, node, times).enabled,
        failed_at(v, node, times).failure_threshold == v.failure_threshold,
        failed_at(v, node, times).failure_cooldown_secs == v.failure_cooldown_secs,
    decreases times.len(),
{
    if times.len() > 0 {
        let front = times.drop_last();
        assert forall|i: int| 0 <= i < front.len() implies failed_at(
            v,
            node,
            front.take(i),
        ).failure_fits(node, #[trigger] front[i]) by {
            assert(front.take(i) =~= times.take(i));
            assert(front[i] == times[i]);
        }
        failures_add_up(v, node, front);
        let last = times.len() - 1;
        assert(times.take(last) =~= front);
        assert(failed_at(v, node, times.take(last)).failure_fits(node, times[last]));
    }
}

/// What happens to a node leaves what is remembered of any other as it was.
pub proof fn others_are_not_affected(
    v: StatsView,
    node: Seq<char>,
    other: Seq<char>,
    now: i64,
    reliable: bool,
    now_ms: i64,
    duration: i64,
    reason: Seq<char>,
    later: i64,
)
    requires
        other != node,
    ensures
        entry(v.succeeded(node, now, reliable, now_ms).nodes, other) == entry(v.nodes, other),
        entry(v.failed(node, now).nodes, other) == entry(v.nodes, other),
        entry(v.quarantined(node, duration, reason, now).nodes, other) == entry(v.nodes, other),
        v.succeeded(node, now, reliable, now_ms).in_quarantine(other, later) == v.in_quarantine(
            other,
            later,
        ),
        v.failed(node, now).in_quarantine(other, later) == v.in_quarantine(other, later),
        v.quarantined(node, duration, reason, now).in_quarantine(other, later)
            == v.in_quarantine(other, later),
{
}

/// A node that is put in quarantine is in it until the time is over, and is not among those that
/// the filter leaves.
pub proof fn quarantine_lasts(
    v: StatsView,
    node: Seq<char>,
    duration: i64,
    reason: Seq<char>,
    now: i64,
    later: i64,
    candidates: Seq<Seq<char>>,
)
    requires
        v.enabled,
        node.len() > 0,
        v.quarantine_fits(node, duration, reason, now),
    ensures
        v.quarantined(node, duration, reason, now).in_quarantine(node, later) <==> later < now
            + duration,
        later < now + duration ==> !released(
            v.quarantined(node, duration, reason, now),
            candidates,
            later,
        ).contains(node),
{
    let after = v.quarantined(node, duration, reason, now);
    let p = |name: Seq<char>| !after.in_quarantine(name, later);
    let kept = candidates.filter(p);
    if kept.contains(node) {
        let k = choose|k: int| 0 <= k < kept.len() && kept[k] == node;
        assert(p(kept[k]));
    }
}

/// The filter leaves just the candidates that are not in quarantine.
pub proof fn filter_leaves_the_released(
    v: StatsView,
    candidates: Seq<Seq<char>>,
    now: i64,
    name: Seq<char>,
)
    ensures
        released(v, candidates, now).contains(name) <==> candidates.contains(name)
            && !v.in_quarantine(name, now),
{
    let p = |name: Seq<char>| !v.in_quarantine(name, now);
    let kept = candidates.filter(p);
    if kept.contains(name) {
        let k = choose|k: int| 0 <= k < kept.len() && kept[k] == name;
        assert(p(kept[k]));
        candidates.lemma_filter_contains_rev(p, name);
    }
    if candidates.contains(name) && p(name) {
        let k = choose|k: int| 0 <= k < candidates.len() && candidates[k] == name;
        assert(kept.contains(candidates[k]));
    }
}

/// A node that is put in quarantine is not the consensus anchor.
pub proof fn quarantine_unseats_the_anchor(
    v: StatsView,
    node: Seq<char>,
    duration: i64,
    reason: Seq<char>,
    now: i64,
)
    requires
        v.enabled,
        node.len() > 0,
    ensures
        v.quarantined(node, duration, reason, now).anchor != Some(node),
{
}

/// A node that fails so often in a row that it cools down is not the consensus anchor; nor is any
/// node of a region that does.
pub proof fn cooldown_unseats_the_anchor(v: StatsView, node: Seq<char>, now: i64)
    requires
        v.enabled,
        node.len() > 0,
        v.failure_fits(node, now),
    ensures
        failures(entry(v.nodes, node)) + 1 >= v.failure_threshold ==> v.failed(node, now).anchor
            != Some(node),
        v.watched_region(node) matches Some(region) ==> failures(entry(v.regions, region)) + 1
            >= v.region_threshold ==> !v.failed(node, now).anchor_in(region),
{
}

/// Only a success makes a node the consensus anchor, and only one that shows it to be reliable.
pub proof fn anchor_is_earned(
    v: StatsView,
    node: Seq<char>,
    now: i64,
    reliable: bool,
    now_ms: i64,
    duration: i64,
    reason: Seq<char>,
)
    ensures
        v.failed(node, now).anchor == v.anchor || v.failed(node, now).anchor is None,
        v.quarantined(node, duration, reason, now).anchor == v.anchor || v.quarantined(
            node,
            duration,
            reason,
            now,
        ).anchor is None,
        !reliable ==> v.succeeded(node, now, reliable, now_ms).anchor == v.anchor,
        reliable && v.enabled && node.len() > 0 ==> v.succeeded(
            node,
            now,
            reliable,
            now_ms,
        ).anchor == Some(node),
{
}

/// A refusal for its location makes the region of a node cool down.
pub proof fn refused_region_cools_down(
    v: StatsView,
    node: Seq<char>,
    region: Seq<char>,
    duration: i64,
    reason: Seq<char>,
    now: i64,
    later: i64,
)
    requires
        v.enabled,
        node.len() > 0,
        v.quarantine_fits(node, duration, reason, now),
        text::occurs(reason, "location"@),
        v.watched_region(node) == Some(region),
        later < now + v.region_cooldown_secs,
    ensures
        v.quarantined(node, duration, reason, now).region_cooling(region, later),
{
}

/// Without statistics nothing is ever remembered.
pub proof fn nothing_is_remembered_when_disabled(
    v: StatsView,
    node: Seq<char>,
    now: i64,
    reliable: bool,
    now_ms: i64,
    duration: i64,
    reason: Seq<char>,
)
    requires
        !v.enabled,
    ensures
        v.succeeded(node, now, reliable, now_ms) == v,
        v.failed(node, now) == v,
        v.quarantined(node, duration, reason, now) == v,
        !v.in_quarantine(node, now),
        !v.cooling(node, now),
        v.consensus() is None,
{
}

/// Which counts of a node a row holds.
#[derive(Clone, Copy, Debug, PartialEq, Eq, Structural)]
pub enum Slot {
    /// Those of all hours.
    Overall,
    /// Those of one hour of the day.
    Hour(u8),
}

/// Which counts of a node a row with this hour holds: all hours for -1, none for what is no hour.
pub fn slot_of(hour: i32) -> (r: Option<Slot>)
    ensures
        r == (if hour == -1 {
            Some(Slot::Overall)
        } else if 0 <= hour < 24 {
            Some(Slot::Hour(hour as u8))
        } else {
            None
        }),
{
    if hour == -1 {
        Some(Slot::Overall)
    } else if 0 <= hour && hour < 24 {
        Some(Slot::Hour(hour as u8))
    } else {
        None
    }
}

/// Where the database is kept by default.
#[derive(Clone, Copy, Debug, PartialEq, Eq, Structural)]
pub enum StatsPlace {
    /// Where the environment says.
    Given,
    /// In the configuration directory of Antigravity CLI.
    AgyDirectory,
    /// In a directory of its own in the home directory.
    OwnDirectory,
    /// Among temporary files.
    Temporary,
}

/// Chooses where the database is kept by default: where the environment says, if that is not
/// blank; else in the home directory, in the configuration directory of Antigravity CLI if that
/// or `.gemini`, which holds it, exists; else among temporary files.
pub fn choose_stats_place(
    given: Option<&str>,
    has_home: bool,
    has_agy_directory: bool,
    has_gemini_directory: bool,
) -> (r: StatsPlace)
    ensures
        r == (if given matches Some(path) && text::trimmed(path@).len() > 0 {
            StatsPlace::Given
        } else if !has_home {
            StatsPlace::Temporary
        } else if has_agy_directory || has_gemini_directory {
            StatsPlace::AgyDirectory
        } else {
            StatsPlace::OwnDirectory
        }),
{
    if let Some(path) = given {
        if text::trim(&chars_of(path)).len() > 0 {
            return StatsPlace::Given;
        }
    }
    if !has_home {
        StatsPlace::Temporary
    } else if has_agy_directory || has_gemini_directory {
        StatsPlace::AgyDirectory
    } else {
        StatsPlace::OwnDirectory
    }
}

impl StatsManager {
    /// How many failures in a row a node had that is cooling down.
    pub fn cooling_failures(&self, node: &str, now_sec: i64) -> (r: Option<u32>)
        requires
            self.well_formed(),
        ensures
            r == (if self@.cooling(node@, now_sec) {
                Some(self@.nodes[node@].consecutive_failures)
            } else {
                None
            }),
    {
        if self.is_cooling_down(node, now_sec) {
            Some(self.get_consecutive_failures(node))
        } else {
            None
        }
    }
}

/// The health of a region goes with that of its nodes just where regions matter and the region is a
/// known or a configured one, and not the rest.
pub proof fn regions_are_watched(v: StatsView, node: Seq<char>)
    ensures
        !v.by_region ==> v.watched_region(node) is None,
        regions::region_of(node, v.region_priority) == "其他"@ ==> v.watched_region(node) is None,
        v.by_region && regions::region_of(node, v.region_priority).len() > 0
            && regions::region_of(node, v.region_priority) != "其他"@ ==> v.watched_region(node)
            == Some(regions::region_of(node, v.region_priority)),
{
}

/// What happens to a node leaves every region but its own as it was, and its own too where regions
/// do not matter; and a quarantine for another reason than the location leaves all regions as they
/// were.
pub proof fn other_regions_are_not_affected(
    v: StatsView,
    node: Seq<char>,
    region: Seq<char>,
    now: i64,
    reliable: bool,
    now_ms: i64,
    duration: i64,
    reason: Seq<char>,
)
    ensures
        !v.by_region || region != regions::region_of(node, v.region_priority) ==> {
            &&& entry(v.succeeded(node, now, reliable, now_ms).regions, region) == entry(
                v.regions,
                region,
            )
            &&& entry(v.failed(node, now).regions, region) == entry(v.regions, region)
            &&& entry(v.quarantined(node, duration, reason, now).regions, region) == entry(
                v.regions,
                region,
            )
        },
        !text::occurs(reason, "location"@) ==> v.quarantined(node, duration, reason, now).regions
            == v.regions,
{
}

/// Neither a success nor a failure puts a node in quarantine or frees it, and a quarantine changes
/// nothing of how nodes have been faring.
pub proof fn quarantine_is_apart_from_health(
    v: StatsView,
    node: Seq<char>,
    now: i64,
    reliable: bool,
    now_ms: i64,
    duration: i64,
    reason: Seq<char>,
)
    ensures
        v.succeeded(node, now, reliable, now_ms).quarantine == v.quarantine,
        v.failed(node, now).quarantine == v.quarantine,
        v.quarantined(node, duration, reason, now).nodes == v.nodes,
        v.enabled && node.len() > 0 ==> v.quarantined(node, duration, reason, now).quarantine[node].1
            == reason,
{
}

/// A refusal for the location never shortens the cooldown of a region, nor does it count as one of
/// its failures where it had any before.
pub proof fn a_refusal_does_not_shorten_a_cooldown(
    v: StatsView,
    node: Seq<char>,
    region: Seq<char>,
    duration: i64,
    reason: Seq<char>,
    now: i64,
    later: i64,
)
    requires
        v.quarantine_fits(node, duration, reason, now),
        v.region_cooling(region, later),
    ensures
        v.quarantined(node, duration, reason, now).region_cooling(region, later),
        failures(entry(v.quarantined(node, duration, reason, now).regions, region)) == failures(
            entry(v.regions, region),
        ),
{
}

/// The consensus anchor stays what it is through a failure of another node, unless it is in a
/// region that reaches its threshold with that; and through a failure of its own with which neither
/// it nor its region reaches a threshold.
pub proof fn the_anchor_outlives_single_failures(v: StatsView, node: Seq<char>, now: i64)
    requires
        v.failure_fits(node, now),
        v.anchor == Some(node) ==> failures(entry(v.nodes, node)) + 1 < v.failure_threshold,
        v.anchor matches Some(anchor) ==> (v.watched_region(node) matches Some(region)
            ==> regions::region_of(anchor, v.region_priority) != region || failures(
            entry(v.regions, region),
        ) + 1 < v.region_threshold),
    ensures
        v.failed(node, now).anchor == v.anchor,
        v.failed(node, now).anchored_ms == v.anchored_ms,
{
}

/// The anchor is there since the moment at which it became one: that of another success changes
/// nothing.
pub proof fn an_anchor_keeps_its_date(
    v: StatsView,
    node: Seq<char>,
    now: i64,
    reliable: bool,
    now_ms: i64,
)
    requires
        v.enabled,
        node.len() > 0,
    ensures
        v.anchor == Some(node) || !reliable ==> v.succeeded(
            node,
            now,
            reliable,
            now_ms,
        ).anchored_ms == v.anchored_ms,
        v.anchor != Some(node) && reliable ==> v.succeeded(
            node,
            now,
            reliable,
            now_ms,
        ).anchored_ms == Some(now_ms),
{
}

/// The consensus anchor is what was made one, where statistics are kept and its name is not blank.
pub proof fn the_consensus_is_the_anchor(v: StatsView, node: Seq<char>, now_ms: i64)
    ensures
        v.enabled && node.len() > 0 && !text::white_space(node[0]) ==> v.anchored(
            node,
            now_ms,
        ).consensus() == Some(node),
        !v.enabled || v.anchor is None ==> v.consensus() is None,
        v.consensus() matches Some(name) ==> v.anchor == Some(name) && v.enabled && text::trimmed(
            name,
        ).len() > 0,
{
    if v.enabled && node.len() > 0 && !text::white_space(node[0]) {
        text::trimming_takes_white_space(node);
        if text::trimmed(node).len() == 0 {
            let (a, b) = choose|a: Seq<char>, b: Seq<char>| #[trigger]
                (a + text::trimmed(node) + b) == node && (forall|i: int|
                    0 <= i < a.len() ==> text::white_space(#[trigger] a[i])) && (forall|i: int|
                    0 <= i < b.len() ==> text::white_space(#[trigger] b[i]));
            if a.len() > 0 {
                assert(a[0] == node[0]);
            } else {
                assert(b[0] == node[0]);
            }
        }
    }
}

/// The filter leaves just the candidates that are not cooling down.
pub proof fn filter_leaves_the_rested(
    v: StatsView,
    candidates: Seq<Seq<char>>,
    now: i64,
    name: Seq<char>,
)
    ensures
        rested(v, candidates, now).contains(name) <==> candidates.contains(name) && !v.cooling(
            name,
            now,
        ),
{
    let p = |name: Seq<char>| !v.cooling(name, now);
    let kept = candidates.filter(p);
    if kept.contains(name) {
        let k = choose|k: int| 0 <= k < kept.len() && kept[k] == name;
        assert(p(kept[k]));
        candidates.lemma_filter_contains_rev(p, name);
    }
    if candidates.contains(name) && p(name) {
        let k = choose|k: int| 0 <= k < candidates.len() && candidates[k] == name;
        assert(kept.contains(candidates[k]));
    }
}

/// The filters take the candidates one by one and keep their order.
pub proof fn filters_keep_the_order(
    v: StatsView,
    candidates: Seq<Seq<char>>,
    name: Seq<char>,
    now: i64,
)
    ensures
        released(v, candidates.push(name), now) == (if v.in_quarantine(name, now) {
            released(v, candidates, now)
        } else {
            released(v, candidates, now).push(name)
        }),
        rested(v, candidates.push(name), now) == (if v.cooling(name, now) {
            rested(v, candidates, now)
        } else {
            rested(v, candidates, now).push(name)
        }),
{
    reveal(Seq::filter);
    assert(candidates.push(name).drop_last() =~= candidates);
    assert(candidates.push(name).last() == name);
}

/// What remains of a time is what is left from now until its end, and nothing once it is over.
pub proof fn what_remains_leads_to_the_end(until: i64, now: i64)
    ensures
        until <= now ==> remaining(until, now) == 0,
        now < until && until - now <= i64::MAX ==> now + remaining(until, now) == until,
{
}

/// The list of quarantines has every node that is in quarantine, and no other, each once with the
/// time that is left and the reason; the one that is in it the longest comes first.
pub proof fn all_quarantines_are_listed(
    v: StatsView,
    list: Seq<(String, i64, String)>,
    now: i64,
    name: Seq<char>,
)
    requires
        v.enabled,
        name.len() > 0,
        quarantine_list(list, v.quarantine, now),
    ensures
        v.in_quarantine(name, now) <==> exists|i: int|
            0 <= i < list.len() && (#[trigger] list[i]).0@ == name,
        forall|i: int|
            0 <= i < list.len() && (#[trigger] list[i]).0@ == name ==> list[i].1 == remaining(
                v.quarantine[name].0,
                now,
            ) && list[i].2@ == v.quarantine[name].1,
        forall|i: int, j: int|
            0 <= i < j < list.len() ==> (#[trigger] list[i]).1 >= (#[trigger] list[j]).1
                && list[i].0@ != list[j].0@,
{
    let names = first_parts(list);
    listing_is_complete(names, releases(v.quarantine), now, name);
    assert forall|i: int, j: int| 0 <= i < j < list.len() implies (#[trigger] list[i]).1 >= (
    #[trigger] list[j]).1 && list[i].0@ != list[j].0@ by {
        assert(names[i] == list[i].0@ && names[j] == list[j].0@);
        assert(names.contains(names[i]) && names.contains(names[j]));
    }
    if v.in_quarantine(name, now) {
        let i = choose|i: int| 0 <= i < names.len() && names[i] == name;
        assert(list[i].0@ == name);
    }
    assert forall|i: int| 0 <= i < list.len() && (#[trigger] list[i]).0@ == name implies names.contains(
        name,
    ) by {
        assert(names[i] == name);
    }
}

proof fn listing_is_complete(
    names: Seq<Seq<char>>,
    ends: Map<Seq<char>, i64>,
    now: i64,
    name: Seq<char>,
)
    requires
        latest_first(names, ends, now),
    ensures
        names.contains(name) <==> ends.contains_key(name) && ends[name] > now,
{
}

/// The list of cooldowns has every node, or region, that is cooling down, and no other, each once
/// with the time that is left and its failures in a row; the one that cools down the longest first.
pub proof fn all_cooldowns_are_listed(
    list: Seq<(String, i64, u32)>,
    rows: Map<Seq<char>, Health>,
    now: i64,
    name: Seq<char>,
)
    requires
        cooldown_list(list, rows, now),
    ensures
        rows.contains_key(name) && rows[name].cooldown_until_sec > now <==> exists|i: int|
            0 <= i < list.len() && (#[trigger] list[i]).0@ == name,
        forall|i: int|
            0 <= i < list.len() && (#[trigger] list[i]).0@ == name ==> list[i].1 == remaining(
                rows[name].cooldown_until_sec,
                now,
            ) && list[i].2 == rows[name].consecutive_failures,
        forall|i: int, j: int|
            0 <= i < j < list.len() ==> (#[trigger] list[i]).1 >= (#[trigger] list[j]).1
                && list[i].0@ != list[j].0@,
{
    let names = first_parts(list);
    listing_is_complete(names, cooldowns(rows), now, name);
    assert forall|i: int, j: int| 0 <= i < j < list.len() implies (#[trigger] list[i]).1 >= (
    #[trigger] list[j]).1 && list[i].0@ != list[j].0@ by {
        assert(names[i] == list[i].0@ && names[j] == list[j].0@);
        assert(names.contains(names[i]) && names.contains(names[j]));
    }
    if names.contains(name) {
        let i = choose|i: int| 0 <= i < names.len() && names[i] == name;
        assert(list[i].0@ == name);
    }
    assert forall|i: int| 0 <= i < list.len() && (#[trigger] list[i]).0@ == name implies names.contains(
        name,
    ) by {
        assert(names[i] == name);
    }
}

/// A success is in a burst where it comes no later than the window after the last change: by
/// default no more than 15 seconds.
pub proof fn a_burst_is_within_the_window(last: i64, after: i64, window: i64)
    requires
        last > 0,
        0 <= after <= i64::MAX - last,
    ensures
        in_burst(last, (last + after) as i64, window) <==> after <= window,
        in_burst(last, (last + after) as i64, DEFAULT_BURST_WINDOW_SECS) <==> after < 16,
        !in_burst(0, after, window),
{
}

/// The clock tells seconds from the start of 1970 to the end of the year 262142.
pub proof fn the_clock_has_an_end(now: i64)
    ensures
        on_the_clock(now) <==> 0 <= now < 8_210_266_876_800,
{
}

/// A node or a region is held back only where statistics are kept, it has a name and something is
/// remembered of it, and only up to the second that is remembered.
pub proof fn only_what_is_remembered_is_held_back(v: StatsView, name: Seq<char>, now: i64)
    ensures
        !v.enabled || name.len() == 0 ==> !v.in_quarantine(name, now) && !v.cooling(name, now)
            && !v.region_cooling(name, now),
        !v.quarantine.contains_key(name) ==> !v.in_quarantine(name, now),
        !v.nodes.contains_key(name) ==> !v.cooling(name, now),
        !v.regions.contains_key(name) ==> !v.region_cooling(name, now),
        v.in_quarantine(name, now) ==> now < v.quarantine[name].0,
        v.cooling(name, now) ==> now < v.nodes[name].cooldown_until_sec,
        v.region_cooling(name, now) ==> now < v.regions[name].cooldown_until_sec,
        v.enabled && name.len() > 0 && v.quarantine.contains_key(name) && !v.in_quarantine(name, now)
            ==> v.quarantine[name].0 <= now,
        v.enabled && name.len() > 0 && v.nodes.contains_key(name) && !v.cooling(name, now)
            ==> v.nodes[name].cooldown_until_sec <= now,
        v.enabled && name.len() > 0 && v.regions.contains_key(name) && !v.region_cooling(name, now)
            ==> v.regions[name].cooldown_until_sec <= now,
{
}

/// A region that is refused for its location is noted to have failed now. How often it failed in a
/// row and when it last succeeded stay as they were; of a region of which nothing was known, this
/// is the first failure.
pub proof fn a_refusal_is_noted_for_the_region(
    v: StatsView,
    node: Seq<char>,
    region: Seq<char>,
    duration: i64,
    reason: Seq<char>,
    now: i64,
)
    requires
        v.enabled,
        node.len() > 0,
        v.watched_region(node) == Some(region),
        text::occurs(reason, "location"@),
    ensures
        ({
            let noted = v.quarantined(node, duration, reason, now).regions;
            &&& noted.contains_key(region)
            &&& noted[region].last_failure_sec == now
            &&& v.regions.contains_key(region) ==> noted[region].consecutive_failures
                == v.regions[region].consecutive_failures && noted[region].last_success_sec
                == v.regions[region].last_success_sec
            &&& !v.regions.contains_key(region) ==> noted[region].consecutive_failures == 1
                && noted[region].last_success_sec == 0
        }),
{
}

/// With the consensus anchor goes the time at which it was set, by a failure as by a quarantine.
pub proof fn a_lost_anchor_leaves_no_date(
    v: StatsView,
    node: Seq<char>,
    duration: i64,
    reason: Seq<char>,
    now: i64,
)
    requires
        v.anchor is Some,
    ensures
        v.failed(node, now).anchor is None ==> v.failed(node, now).anchored_ms is None,
        v.quarantined(node, duration, reason, now).anchor is None ==> v.quarantined(
            node,
            duration,
            reason,
            now,
        ).anchored_ms is None,
        v.failed(node, now).anchor is Some ==> v.failed(node, now).anchored_ms == v.anchored_ms,
        v.quarantined(node, duration, reason, now).anchor is Some ==> v.quarantined(
            node,
            duration,
            reason,
            now,
        ).anchored_ms == v.anchored_ms,
{
}

/// A success is dated and leaves the time of the last failure as it was; a failure is dated and
/// leaves that of the last success.
pub proof fn successes_and_failures_are_dated(
    v: StatsView,
    node: Seq<char>,
    now: i64,
    reliable: bool,
    now_ms: i64,
)
    requires
        v.enabled,
        node.len() > 0,
        v.failure_fits(node, now),
    ensures
        ({
            let well = v.succeeded(node, now, reliable, now_ms).nodes[node];
            let ill = v.failed(node, now).nodes[node];
            &&& well.last_success_sec == now && well.consecutive_failures == 0
            &&& ill.last_failure_sec == now
            &&& v.nodes.contains_key(node) ==> well.last_failure_sec
                == v.nodes[node].last_failure_sec && ill.last_success_sec
                == v.nodes[node].last_success_sec && ill.consecutive_failures
                == v.nodes[node].consecutive_failures + 1
            &&& !v.nodes.contains_key(node) ==> well.last_failure_sec == 0 && ill.last_success_sec
                == 0 && ill.consecutive_failures == 1
        }),
        v.watched_region(node) matches Some(region) ==> ({
            let well = v.succeeded(node, now, reliable, now_ms).regions[region];
            let ill = v.failed(node, now).regions[region];
            &&& well.last_success_sec == now && well.consecutive_failures == 0
            &&& ill.last_failure_sec == now
            &&& v.regions.contains_key(region) ==> well.last_failure_sec
                == v.regions[region].last_failure_sec && ill.last_success_sec
                == v.regions[region].last_success_sec && ill.consecutive_failures
                == v.regions[region].consecutive_failures + 1
            &&& !v.regions.contains_key(region) ==> well.last_failure_sec == 0
                && ill.last_success_sec == 0 && ill.consecutive_failures == 1
        }),
{
}

} // verus!
