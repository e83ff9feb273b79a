//! The switch from one node of a group to another.

use crate::clash;
use crate::json::{Json, JsonView};
use crate::retry::is_location_block_error;
use crate::selection;
use crate::selection::{Scored, Search};
use crate::stats::{StatsManager, StatsView};
use crate::status;
use crate::text;
use crate::text::{chars_of, same_ignoring_ascii_case, same_str};
use vstd::prelude::*;

verus! {

/// Why a node that a probe was refused at for its location is put in quarantine.
pub open spec fn probe_reason() -> Seq<char> {
    "probe_location_blocked"@
}

/// Whether a parent selector is set and is another than the group itself.
pub fn has_parent(parent: &str, group: &str) -> (r: bool)
    ensures
        r == (parent@.len() > 0 && !text::same_but_ascii_case(parent@, group@)),
{
    !chars_of(parent).is_empty() && !same_ignoring_ascii_case(parent, group)
}

/// `list` has `name`, but for the case of ASCII letters.
pub open spec fn has_similar(list: Seq<JsonView>, name: Seq<char>) -> bool {
    exists|k: int|
        0 <= k < list.len() && ((#[trigger] list[k]) matches JsonView::Text(t)
            && text::same_but_ascii_case(t, name))
}

/// A parent selector has the group for a member, and points elsewhere.
pub open spec fn parent_strays(parent: JsonView, group: Seq<char>) -> bool {
    &&& parent.field("all"@) matches Some(JsonView::Array(items)) && has_similar(items, group)
    &&& !text::same_but_ascii_case(clash::current(parent), group)
}

/// Whether a parent selector has the group for a member, and points elsewhere.
pub fn should_switch_parent(parent: &Json, group: &str) -> (r: bool)
    ensures
        r == parent_strays(parent@, group@),
{
    let now = clash::current_node(parent);
    if same_ignoring_ascii_case(now.as_str(), group) {
        return false;
    }
    match parent.get("all") {
        Some(list) => match list {
            Json::Array(items) => {
                let ghost all = list@->Array_0;
                proof {
                    crate::json::array_parts(*list);
                }
                let mut i: usize = 0;
                while i < items.len()
                    invariant
                        i <= items@.len(),
                        all.len() == items@.len(),
                        parent@.field("all"@) == Some(JsonView::Array(all)),
                        !text::same_but_ascii_case(clash::current(parent@), group@),
                        forall|k: int| 0 <= k < items@.len() ==> #[trigger] all[k] == items@[k]@,
                        forall|k: int|
                            0 <= k < i ==> !((#[trigger] all[k]) matches JsonView::Text(t)
                                && text::same_but_ascii_case(t, group@)),
                    decreases items@.len() - i,
                {
                    proof {
                        assert(all[i as int] == items@[i as int]@);
                    }
                    match &items[i] {
                        Json::Text(t) => {
                            if same_ignoring_ascii_case(t.as_str(), group) {
                                return true;
                            }
                        },
                        _ => {},
                    }
                    i += 1;
                }
                false
            },
            _ => false,
        },
        None => false,
    }
}

/// What a probe of a node found.
#[derive(Clone, Copy, Debug, PartialEq, Eq, Structural)]
pub enum ProbeResult {
    /// The API answers.
    Supported,
    /// The API is not served there.
    LocationBlocked,
    /// There is no answer, or only the server's failure.
    Unreachable,
}

/// What an answer to a probe means.
pub fn judge_probe(status: u16, body: &str) -> (r: ProbeResult)
    ensures
        r == (if crate::retry::location_block(status, body@) {
            ProbeResult::LocationBlocked
        } else if status::server_error(status) {
            ProbeResult::Unreachable
        } else {
            ProbeResult::Supported
        }),
{
    if is_location_block_error(status, body) {
        ProbeResult::LocationBlocked
    } else if status::is_server_error(status) {
        ProbeResult::Unreachable
    } else {
        ProbeResult::Supported
    }
}

/// The address that a probe asks for.
pub fn probe_url(upstream_base: &str) -> (r: String)
    ensures
        r@ == text::without_trailing(upstream_base@, '/') + "/v1beta/models?pageSize=1"@,
{
    text::trim_end_char(upstream_base, '/').concat("/v1beta/models?pageSize=1")
}

/// A switch is due: from which node, which one is failing, and when.
pub struct Due {
    /// The node that the group uses now.
    pub at: Seq<char>,
    /// The node at which a request failed.
    pub failing: Seq<char>,
    pub now_sec: i64,
    pub now_ms: i64,
    /// How long there is no second switch after one.
    pub cooldown_ms: i64,
}

/// There was a switch so lately that there is none now.
pub open spec fn cooling_off(v: StatsView, due: Due) -> bool {
    &&& v.enabled
    &&& due.cooldown_ms > 0
    &&& v.switched_ms > 0
    &&& due.now_ms - v.switched_ms < due.cooldown_ms
}

/// The node to go on with instead of a switch: the one that the group uses now, if another
/// request has left the failing one; or, soon after a switch, the one that it led to, else the
/// one that the group uses now. None of these if it is in quarantine.
pub open spec fn adopted(v: StatsView, due: Due) -> Option<Seq<char>> {
    let here = due.at.len() > 0 && !v.in_quarantine(due.at, due.now_sec);
    if due.failing.len() > 0 && due.at != due.failing && here {
        Some(due.at)
    } else if cooling_off(v, due) {
        match v.switched_to {
            Some(target) if target.len() > 0 && target != due.failing && !v.in_quarantine(
                target,
                due.now_sec,
            ) => Some(target),
            _ => if here {
                Some(due.at)
            } else {
                None
            },
        }
    } else {
        None
    }
}

/// The nodes to choose from: those not in quarantine or, where there is none, all; of those, the
/// ones not cooling down or, where there is none, all.
pub open spec fn pool_of(v: StatsView, list: Seq<(Seq<char>, u64)>, now: i64) -> Seq<
    (Seq<char>, u64),
> {
    let free = selection::some_or_all(selection::free(v, list, now), list);
    selection::some_or_all(selection::awake(v, free, now), free)
}

/// How many nodes are probed at most.
pub const MAX_PROBES: usize = 3;

/// The nodes to probe: the best `n` choices in turn, each without those before it.
pub open spec fn probes(
    v: StatsView,
    pool: Seq<(Seq<char>, u64)>,
    due: Due,
    n: nat,
) -> Seq<Seq<char>>
    decreases n,
{
    if n == 0 {
        Seq::empty()
    } else {
        let before = probes(v, pool, due, (n - 1) as nat);
        let search = Search {
            excluded: probe_excluded(due, before),
            failing: Some(due.failing),
            now: due.now_sec,
        };
        match selection::choice(v, pool, search) {
            Some(name) if !before.contains(name) => before.push(name),
            _ => before,
        }
    }
}

/// The node that the group uses now, where there is one, and those that are probed already.
pub open spec fn probe_excluded(due: Due, probed: Seq<Seq<char>>) -> Seq<Seq<char>> {
    if due.at.len() > 0 {
        seq![due.at] + probed
    } else {
        probed
    }
}

/// What to do about a switch that is due.
pub enum Plan {
    /// Nothing can be done: the group offers no node.
    GiveUp,
    /// Go on with this node, and remember it as the one in use.
    Adopt(String),
    /// Go on with this node: it is the only one.
    Stay(String),
    /// Choose from `pool`, and probe these nodes of it first.
    Choose { pool: Vec<Scored>, probe: Vec<String> },
}

/// `plan` is what to do about a switch that is due.
pub open spec fn is_plan(
    plan: Plan,
    v: StatsView,
    list: Seq<(Seq<char>, u64)>,
    due: Due,
    probing: bool,
) -> bool {
    let pool = pool_of(v, list, due.now_sec);
    if list.len() == 0 {
        plan is GiveUp
    } else {
        match adopted(v, due) {
            Some(node) => plan matches Plan::Adopt(name) && name@ == node,
            None => if pool.len() == 1 && pool[0].0 == due.at {
                plan matches Plan::Stay(name) && name@ == due.at
            } else {
                &&& plan matches Plan::Choose { pool: nodes, probe }
                &&& selection::scored(nodes@) == pool
                &&& text::strings(probe@) == (if probing && pool.len() > 1 {
                    probes(v, pool, due, MAX_PROBES as nat)
                } else {
                    Seq::empty()
                })
            },
        }
    }
}

impl StatsManager {
    /// The node to go on with instead of a switch.
    fn node_to_adopt(
        &self,
        at: &str,
        failing: &str,
        now_sec: i64,
        now_ms: i64,
        cooldown_ms: i64,
    ) -> (r: Option<String>)
        requires
            self.well_formed(),
        ensures
            text::text_of(r) == adopted(
                self@,
                (Due { at: at@, failing: failing@, now_sec, now_ms, cooldown_ms }),
            ),
    {
        let here = !chars_of(at).is_empty() && !self.is_quarantined(at, now_sec);
        if !chars_of(failing).is_empty() && !same_str(at, failing) && here {
            return Some(at.to_owned());
        }
        let (last_ms, last_node) = self.get_last_switch_info();
        let recent = match now_ms.checked_sub(last_ms) {
            Some(age) => age < cooldown_ms,
            None => true,
        };
        if cooldown_ms > 0 && last_ms > 0 && recent {
            if let Some(target) = last_node {
                if !chars_of(target.as_str()).is_empty() && !same_str(target.as_str(), failing)
                    && !self.is_quarantined(target.as_str(), now_sec) {
                    return Some(target);
                }
            }
            if here {
                return Some(at.to_owned());
            }
        }
        None
    }

    /// The nodes to choose from.
    fn choose_pool(&self, candidates: &[Scored], now_sec: i64) -> (r: Vec<Scored>)
        requires
            self.well_formed(),
        ensures
            selection::scored(r@) == pool_of(self@, selection::scored(candidates@), now_sec),
    {
        let all = selection::copy_all(candidates);
        let unquarantined = self.find_free(&all, now_sec);
        let free = if unquarantined.len() > 0 {
            unquarantined
        } else {
            all
        };
        let nobody: Vec<String> = Vec::new();
        proof {
            assert(text::strings(nobody@) =~= Seq::<Seq<char>>::empty());
        }
        let rested = self.find_suiting(&free, None, &nobody, None, true, now_sec);
        if rested.len() > 0 {
            rested
        } else {
            free
        }
    }

    /// The nodes to probe: the best choices in turn, each without those before it.
    fn choose_probes(
        &self,
        pool: &Vec<Scored>,
        at: &str,
        failing: &str,
        now_sec: i64,
        Ghost(due): Ghost<Due>,
    ) -> (r: Vec<String>)
        requires
            self.well_formed(),
            due.at == at@,
            due.failing == failing@,
            due.now_sec == now_sec,
        ensures
            text::strings(r@) == probes(
                self@,
                selection::scored(pool@),
                due,
                MAX_PROBES as nat,
            ),
    {
        let mut out: Vec<String> = Vec::new();
        let mut excluded: Vec<String> = Vec::new();
        if !chars_of(at).is_empty() {
            excluded.push(at.to_owned());
        }
        let mut i: usize = 0;
        proof {
            assert(text::strings(out@) =~= Seq::<Seq<char>>::empty());
            assert(text::strings(excluded@) =~= probe_excluded(due, text::strings(out@)));
        }
        while i < MAX_PROBES
            invariant
                i <= MAX_PROBES,
                self.well_formed(),
                due.at == at@,
                due.failing == failing@,
                due.now_sec == now_sec,
                text::strings(out@) == probes(self@, selection::scored(pool@), due, i as nat),
                text::strings(excluded@) == probe_excluded(due, text::strings(out@)),
            decreases MAX_PROBES - i,
        {
            let ghost before = text::strings(out@);
            let ghost barred = text::strings(excluded@);
            if let Some(name) = self.select_best_node_at(pool, &excluded, Some(failing), now_sec) {
                if !selection::has_name(&out, name.as_str()) {
                    excluded.push(name.clone());
                    out.push(name);
                    proof {
                        assert(text::strings(out@) =~= before.push(name@));
                        assert(text::strings(excluded@) =~= barred.push(name@));
                        assert(probe_excluded(due, before.push(name@)) =~= barred.push(name@));
                    }
                }
            }
            i += 1;
        }
        out
    }

    /// What to do about a switch that is due: `at` is the node that the group uses now, `failing`
    /// the one at which a request failed, `candidates` those that the group offers.
    pub fn plan_switch(
        &self,
        candidates: &[Scored],
        at: &str,
        failing: &str,
        now_sec: i64,
        now_ms: i64,
        cooldown_ms: i64,
        probing: bool,
    ) -> (r: Plan)
        requires
            self.well_formed(),
        ensures
            is_plan(
                r,
                self@,
                selection::scored(candidates@),
                (Due { at: at@, failing: failing@, now_sec, now_ms, cooldown_ms }),
                probing,
            ),
    {
        let ghost due = Due { at: at@, failing: failing@, now_sec, now_ms, cooldown_ms };
        if candidates.len() == 0 {
            return Plan::GiveUp;
        }
        if let Some(node) = self.node_to_adopt(at, failing, now_sec, now_ms, cooldown_ms) {
            return Plan::Adopt(node);
        }
        let pool = self.choose_pool(candidates, now_sec);
        if pool.len() == 1 && same_str(pool[0].name.as_str(), at) {
            return Plan::Stay(at.to_owned());
        }
        let probe = if probing && pool.len() > 1 {
            self.choose_probes(&pool, at, failing, now_sec, Ghost(due))
        } else {
            Vec::new()
        };
        proof {
            if !(probing && pool@.len() > 1) {
                assert(text::strings(probe@) =~= Seq::<Seq<char>>::empty());
            }
        }
        Plan::Choose { pool, probe }
    }
}

/// What is remembered after a probe of `node`: it becomes the consensus anchor and the node that
/// was switched to; or it goes into quarantine; or it has one more failure.
pub open spec fn after_probe(
    v: StatsView,
    from: Seq<char>,
    node: Seq<char>,
    result: ProbeResult,
    quarantine_secs: i64,
    now_sec: i64,
    now_ms: i64,
) -> StatsView {
    match result {
        ProbeResult::Supported => switched(
            if v.enabled && node.len() > 0 {
                v.anchored(node, now_ms)
            } else {
                v
            },
            from,
            node,
            now_ms,
        ),
        ProbeResult::LocationBlocked => if v.quarantine_fits(
            node,
            quarantine_secs,
            probe_reason(),
            now_sec,
        ) {
            v.quarantined(node, quarantine_secs, probe_reason(), now_sec)
        } else {
            v
        },
        ProbeResult::Unreachable => if v.failure_fits(node, now_sec) {
            v.failed(node, now_sec)
        } else {
            v
        },
    }
}

/// What is remembered after a switch.
pub open spec fn switched(
    v: StatsView,
    from: Seq<char>,
    to: Seq<char>,
    now_ms: i64,
) -> StatsView {
    if v.enabled {
        StatsView { switched_ms: now_ms, switched_to: Some(to), switched_from: Some(from), ..v }
    } else {
        v
    }
}

impl StatsManager {
    /// Takes in what a probe of `node` found. Whether it is the node to go on with.
    pub fn absorb_probe(
        &mut self,
        from: &str,
        node: &str,
        result: ProbeResult,
        quarantine_secs: i64,
        now_sec: i64,
        now_ms: i64,
    ) -> (r: bool)
        requires
            old(self).well_formed(),
        ensures
            final(self).well_formed(),
            r == (result is Supported),
            final(self)@ == after_probe(
                old(self)@,
                from@,
                node@,
                result,
                quarantine_secs,
                now_sec,
                now_ms,
            ),
    {
        match result {
            ProbeResult::Supported => {
                self.set_consensus_anchor_at(node, now_ms);
                self.record_switch_event(from, node, now_ms);
                true
            },
            ProbeResult::LocationBlocked => {
                let reason = "probe_location_blocked";
                if self.can_quarantine(node, quarantine_secs, reason, now_sec) {
                    self.quarantine_node_at(node, quarantine_secs, reason, now_sec);
                }
                false
            },
            ProbeResult::Unreachable => {
                if self.can_record_failure(node, now_sec) {
                    self.record_failure_at(node, now_sec);
                }
                false
            },
        }
    }
}

/// The node to switch to when no probe has settled it.
pub enum Target {
    /// Go on with this node: it is the only one.
    Stay(String),
    /// Ask for this node, and go on with it whatever comes of that.
    Force(String),
    /// Ask for this node, and go on with it if that is granted.
    Request(String),
}

/// `excluded`, and the node that the group uses now.
pub open spec fn also_excluded(excluded: Seq<Seq<char>>, at: Seq<char>) -> Seq<Seq<char>> {
    if at.len() > 0 && !excluded.contains(at) {
        excluded.push(at)
    } else {
        excluded
    }
}

/// The best choice from `pool` other than the node that the group uses now, else the first.
pub open spec fn best_other(
    v: StatsView,
    pool: Seq<(Seq<char>, u64)>,
    at: Seq<char>,
    excluded: Seq<Seq<char>>,
    now_sec: i64,
) -> Seq<char> {
    let search = Search {
        excluded: also_excluded(excluded, at),
        failing: Some(at),
        now: now_sec,
    };
    match selection::choice(v, pool, search) {
        Some(name) => name,
        None => pool[0].0,
    }
}

/// Any node but `at`.
pub open spec fn other_than(at: Seq<char>) -> spec_fn(Seq<char>) -> bool {
    |name: Seq<char>| name != at
}

/// `target` is what to do: the best choice, unless that is the node that the group uses now; then
/// the first other node, and where there is none, to stay or to ask for it once more.
pub open spec fn is_target(
    target: Target,
    v: StatsView,
    pool: Seq<(Seq<char>, u64)>,
    at: Seq<char>,
    excluded: Seq<Seq<char>>,
    now_sec: i64,
) -> bool {
    let next = best_other(v, pool, at, excluded, now_sec);
    let other = text::first_where(selection::names(pool), other_than(at));
    if next != at {
        target matches Target::Request(name) && name@ == next
    } else if pool.len() == 1 {
        target matches Target::Stay(name) && name@ == at
    } else {
        match other {
            Some(alt) => target matches Target::Force(name) && name@ == alt,
            None => target matches Target::Request(name) && name@ == at,
        }
    }
}

impl StatsManager {
    /// The node to switch to when no probe has settled it.
    pub fn choose_target(
        &self,
        pool: &Vec<Scored>,
        at: &str,
        excluded: &[String],
        now_sec: i64,
    ) -> (r: Target)
        requires
            self.well_formed(),
            pool@.len() > 0,
        ensures
            is_target(
                r,
                self@,
                selection::scored(pool@),
                at@,
                text::strings(excluded@),
                now_sec,
            ),
    {
        let mut barred: Vec<String> = Vec::new();
        let mut i: usize = 0;
        while i < excluded.len()
            invariant
                i <= excluded@.len(),
                barred@.len() == i,
                forall|k: int| 0 <= k < i ==> (#[trigger] barred@[k])@ == excluded@[k]@,
            decreases excluded@.len() - i,
        {
            barred.push(excluded[i].clone());
            i += 1;
        }
        proof {
            assert(text::strings(barred@) =~= text::strings(excluded@));
        }
        if !chars_of(at).is_empty() && !selection::has_name(&barred, at) {
            let ghost before = text::strings(barred@);
            barred.push(at.to_owned());
            proof {
                assert(text::strings(barred@) =~= before.push(at@));
            }
        }
        let next = match self.select_best_node_at(pool, &barred, Some(at), now_sec) {
            Some(name) => name,
            None => pool[0].name.clone(),
        };
        if !same_str(next.as_str(), at) {
            return Target::Request(next);
        }
        if pool.len() == 1 {
            return Target::Stay(next);
        }
        let ghost all = selection::names(selection::scored(pool@));
        let ghost p = other_than(at@);
        let mut k: usize = 0;
        proof {
            assert(all.skip(0) =~= all);
        }
        while k < pool.len()
            invariant
                k <= pool@.len(),
                pool@.len() > 1,
                all == selection::names(selection::scored(pool@)),
                p == other_than(at@),
                best_other(
                    self@,
                    selection::scored(pool@),
                    at@,
                    text::strings(excluded@),
                    now_sec,
                ) == at@,
                text::first_where(all, p) == text::first_where(all.skip(k as int), p),
            decreases pool@.len() - k,
        {
            proof {
                assert(all.skip(k as int)[0] == pool@[k as int].name@);
                assert(all.skip(k as int).drop_first() =~= all.skip(k + 1));
            }
            if !same_str(pool[k].name.as_str(), at) {
                return Target::Force(pool[k].name.clone());
            }
            k += 1;
        }
        Target::Request(next)
    }
}

/// How many of the nodes that were tried are remembered.
pub const MAX_TRIED: usize = 8;

/// The nodes that were tried, and `node`; of more than are remembered, the first is forgotten.
pub open spec fn with_tried(tried: Seq<Seq<char>>, node: Seq<char>) -> Seq<Seq<char>> {
    let all = if node.len() == 0 || tried.contains(node) {
        tried
    } else {
        tried.push(node)
    };
    if all.len() > MAX_TRIED {
        all.drop_first()
    } else {
        all
    }
}

/// Remembers that `node` was tried.
pub fn note_tried(tried: &mut Vec<String>, node: &str)
    ensures
        text::strings(final(tried)@) == with_tried(text::strings(old(tried)@), node@),
{
    let ghost before = text::strings(tried@);
    if !chars_of(node).is_empty() && !selection::has_name(tried, node) {
        tried.push(node.to_owned());
        proof {
            assert(text::strings(tried@) =~= before.push(node@));
        }
    }
    let ghost all = text::strings(tried@);
    if tried.len() > MAX_TRIED {
        let _ = tried.remove(0);
        proof {
            assert(text::strings(tried@) =~= all.drop_first());
        }
    }
}

/// How long, in milliseconds, the node in use is known without asking again.
pub const NODE_FRESH_MS: u64 = 2000;

/// The node in use, where one is known that was asked for lately enough.
pub fn fresh_node(node: Option<&str>, age_ms: u64) -> (r: Option<String>)
    ensures
        text::text_of(r) == (match node {
            Some(name) if name@.len() > 0 && age_ms < NODE_FRESH_MS => Some(name@),
            _ => None,
        }),
        r is Some <==> (node matches Some(name) && name@.len() > 0 && age_ms < 2000),
{
    match node {
        Some(name) => if !chars_of(name).is_empty() && age_ms < NODE_FRESH_MS {
            Some(name.to_owned())
        } else {
            None
        },
        None => None,
    }
}

/// Soon after a switch there is no other as long as the node in use is known and not in
/// quarantine.
pub proof fn no_switch_soon_after_another(v: StatsView, due: Due)
    requires
        cooling_off(v, due),
        due.at.len() > 0,
        !v.in_quarantine(due.at, due.now_sec),
    ensures
        adopted(v, due) is Some,
{
}

/// Where the group was switched away from the failing node already, that node is adopted.
pub proof fn a_switch_by_others_is_adopted(v: StatsView, due: Due)
    requires
        due.failing.len() > 0,
        due.at.len() > 0,
        due.at != due.failing,
        !v.in_quarantine(due.at, due.now_sec),
    ensures
        adopted(v, due) == Some(due.at),
{
}

/// No node that is in quarantine is adopted.
pub proof fn adopted_is_not_in_quarantine(v: StatsView, due: Due)
    ensures
        adopted(v, due) matches Some(node) ==> node.len() > 0 && !v.in_quarantine(
            node,
            due.now_sec,
        ),
{
}

/// Right after a switch is remembered, a request at the node that it left adopts the node that it
/// led to, if that is not in quarantine.
pub proof fn a_recent_switch_is_adopted(
    v: StatsView,
    due: Due,
    to: Seq<char>,
    switched_ms: i64,
)
    requires
        v.enabled,
        due.at == due.failing,
        to.len() > 0,
        to != due.failing,
        !v.in_quarantine(to, due.now_sec),
        switched_ms > 0,
        due.cooldown_ms > 0,
        due.now_ms - switched_ms < due.cooldown_ms,
    ensures
        adopted(switched(v, due.at, to, switched_ms), due) == Some(to),
{
}

/// As many nodes are probed as there may be at most, no node twice, and only such as are offered.
pub proof fn probes_are_few_and_offered(
    v: StatsView,
    pool: Seq<(Seq<char>, u64)>,
    due: Due,
    n: nat,
)
    ensures
        probes(v, pool, due, n).len() <= n,
        probes(v, pool, due, n).no_duplicates(),
        forall|name: Seq<char>| #[trigger]
            probes(v, pool, due, n).contains(name) ==> selection::names(pool).contains(name),
    decreases n,
{
    if n > 0 {
        let before = probes(v, pool, due, (n - 1) as nat);
        let search = Search {
            excluded: probe_excluded(due, before),
            failing: Some(due.failing),
            now: due.now_sec,
        };
        probes_are_few_and_offered(v, pool, due, (n - 1) as nat);
        selection::choice_is_a_candidate(v, pool, search);
        let all = probes(v, pool, due, n);
        assert forall|name: Seq<char>| #[trigger] all.contains(name) implies selection::names(
            pool,
        ).contains(name) by {
            let k = choose|k: int| 0 <= k < all.len() && all[k] == name;
            if k < before.len() {
                assert(before[k] == name);
                assert(before.contains(name));
            }
        }
    }
}

/// Where another node than the one in use can be chosen, it is not the one in use that is asked
/// for, nor is it stayed at.
pub proof fn a_switch_leads_elsewhere(
    target: Target,
    v: StatsView,
    pool: Seq<(Seq<char>, u64)>,
    at: Seq<char>,
    excluded: Seq<Seq<char>>,
    now_sec: i64,
    k: int,
)
    requires
        is_target(target, v, pool, at, excluded, now_sec),
        0 <= k < pool.len(),
        pool[k].0 != at,
    ensures
        match target {
            Target::Stay(_) => false,
            Target::Force(name) => name@ != at && selection::names(pool).contains(name@),
            Target::Request(name) => name@ != at && selection::names(pool).contains(name@),
        },
{
    let search = Search { excluded: also_excluded(excluded, at), failing: Some(at), now: now_sec };
    let all = selection::names(pool);
    let p = other_than(at);
    selection::choice_is_a_candidate(v, pool, search);
    assert(all[k] != at);
    first_where_finds(all, p, k);
    let next = best_other(v, pool, at, excluded, now_sec);
    assert(all.contains(next));
    if pool.len() == 1 {
        let m = choose|m: int| 0 <= m < all.len() && all[m] == next;
        assert(m == k);
    }
}

/// The first of which `p` holds is one of the list, and `p` holds of it; there is one where `p`
/// holds of any.
proof fn first_where_finds(list: Seq<Seq<char>>, p: spec_fn(Seq<char>) -> bool, k: int)
    requires
        0 <= k < list.len(),
        p(list[k]),
    ensures
        text::first_where(list, p) matches Some(name) && p(name) && list.contains(name),
    decreases list.len(),
{
    if p(list[0]) {
        assert(list.contains(list[0]));
    } else {
        let rest = list.drop_first();
        assert(rest[k - 1] == list[k]);
        first_where_finds(rest, p, k - 1);
        let name = text::first_where(rest, p)->0;
        let m = choose|m: int| 0 <= m < rest.len() && rest[m] == name;
        assert(list[m + 1] == name);
    }
}

/// A node that was tried is remembered, and never more nodes than there may be.
pub proof fn tried_nodes_are_bounded(tried: Seq<Seq<char>>, node: Seq<char>)
    requires
        tried.len() <= MAX_TRIED,
    ensures
        with_tried(tried, node).len() <= MAX_TRIED,
        node.len() > 0 ==> with_tried(tried, node).contains(node),
{
    if node.len() > 0 && !tried.contains(node) {
        let all = tried.push(node);
        let kept = with_tried(tried, node);
        assert(kept[kept.len() - 1] == node);
    }
}

/// What is remembered before the next try: the failure of the node, where it counts as one and can
/// be counted.
pub open spec fn after_failure(
    v: StatsView,
    node: Seq<char>,
    record_failure: bool,
    now_sec: i64,
) -> StatsView {
    if record_failure && node.len() > 0 && v.failure_fits(node, now_sec) {
        v.failed(node, now_sec)
    } else {
        v
    }
}

/// Takes in that a try at `node` failed: counts the failure, where it counts as one, and remembers
/// that the node was tried.
pub fn note_failure(
    stats: &mut StatsManager,
    tried: &mut Vec<String>,
    node: &str,
    record_failure: bool,
    now_sec: i64,
)
    requires
        old(stats).well_formed(),
    ensures
        final(stats).well_formed(),
        final(stats)@ == after_failure(old(stats)@, node@, record_failure, now_sec),
        text::strings(final(tried)@) == with_tried(text::strings(old(tried)@), node@),
{
    if record_failure && !chars_of(node).is_empty() && stats.can_record_failure(node, now_sec) {
        stats.record_failure_at(node, now_sec);
    }
    note_tried(tried, node);
}

/// A parent selector is switched just where it lists the group, in whatever case, and uses another
/// member now.
pub proof fn a_straying_parent_is_switched(
    parent: JsonView,
    items: Seq<JsonView>,
    group: Seq<char>,
    now: Seq<char>,
)
    requires
        parent.field("all"@) == Some(JsonView::Array(items)),
        parent.field("now"@) == Some(JsonView::Text(now)),
    ensures
        parent_strays(parent, group) <==> text::ascii_lowered(now) != text::ascii_lowered(group) && (
        exists|k: int|
            0 <= k < items.len() && ((#[trigger] items[k]) matches JsonView::Text(t)
                && text::ascii_lowered(t) == text::ascii_lowered(group))),
{
    if exists|k: int|
        0 <= k < items.len() && ((#[trigger] items[k]) matches JsonView::Text(t)
            && text::ascii_lowered(t) == text::ascii_lowered(group)) {
        let k = choose|k: int|
            0 <= k < items.len() && ((#[trigger] items[k]) matches JsonView::Text(t)
                && text::ascii_lowered(t) == text::ascii_lowered(group));
        assert(items[k] matches JsonView::Text(t) && text::same_but_ascii_case(t, group));
    }
}

/// Within the cooldown after a switch the node in use is gone on with; once it is over, or where
/// there was no switch, nothing is adopted for that.
pub proof fn a_switch_cools_off(v: StatsView, due: Due)
    requires
        v.enabled,
        due.at == due.failing,
        due.at.len() > 0,
    ensures
        due.cooldown_ms > 0 && v.switched_ms > 0 && due.now_ms < v.switched_ms + due.cooldown_ms
            && !v.in_quarantine(due.at, due.now_sec) ==> adopted(v, due) is Some,
        due.cooldown_ms <= 0 || v.switched_ms <= 0 || due.now_ms >= v.switched_ms
            + due.cooldown_ms ==> adopted(v, due) is None,
{
}

/// Without statistics no switch is remembered, and a request at the node in use adopts none.
pub proof fn without_statistics_nothing_is_adopted(v: StatsView, due: Due)
    requires
        !v.enabled,
        due.at == due.failing || due.failing.len() == 0 || due.at.len() == 0,
    ensures
        adopted(v, due) is None,
{
}

/// Nodes in quarantine, and then nodes that are cooling down, are left out of the pool as long as
/// there are others; and the pool has every candidate that is neither.
pub proof fn the_pool_leaves_out_bad_nodes(
    v: StatsView,
    list: Seq<(Seq<char>, u64)>,
    now: i64,
    k: int,
    name: Seq<char>,
)
    requires
        0 <= k < list.len(),
        !v.in_quarantine(list[k].0, now),
    ensures
        selection::names(pool_of(v, list, now)).contains(name) ==> selection::names(list).contains(
            name,
        ) && !v.in_quarantine(name, now),
        !v.cooling(list[k].0, now) ==> pool_of(v, list, now).contains(list[k]) && (
        selection::names(pool_of(v, list, now)).contains(name) ==> !v.cooling(name, now)),
{
    let q = |c: (Seq<char>, u64)| !v.in_quarantine(c.0, now);
    let ask = selection::Ask {
        region: None,
        excluded: Seq::empty(),
        failing: None,
        rested: true,
        now,
    };
    let r = |c: (Seq<char>, u64)| selection::suits(v, ask, c.0);
    let free = selection::free(v, list, now);
    let awake = selection::awake(v, free, now);
    let pool = pool_of(v, list, now);
    assert(q(list[k]));
    list.lemma_filter_contains(q, k);
    if !v.cooling(list[k].0, now) {
        let m = choose|m: int| 0 <= m < free.len() && free[m] == list[k];
        assert(r(free[m]));
        free.lemma_filter_contains(r, m);
    }
    if selection::names(pool).contains(name) {
        let i = choose|i: int|
            0 <= i < selection::names(pool).len() && selection::names(pool)[i] == name;
        let c = pool[i];
        if awake.len() > 0 {
            assert(r(awake[i]));
            assert(awake.contains(c));
            free.lemma_filter_contains_rev(r, c);
        } else {
            assert(free.contains(c));
        }
        let m = choose|m: int| 0 <= m < free.len() && free[m] == c;
        assert(q(free[m]));
        list.lemma_filter_contains_rev(q, c);
        let n = choose|n: int| 0 <= n < list.len() && list[n] == c;
        assert(selection::names(list)[n] == name);
    }
}

/// The node that is probed first is the best choice without the node in use and the failing one.
pub proof fn the_best_choice_is_probed_first(
    v: StatsView,
    pool: Seq<(Seq<char>, u64)>,
    due: Due,
    n: nat,
    name: Seq<char>,
)
    requires
        n > 0,
        due.at.len() > 0,
        selection::choice(
            v,
            pool,
            (Search {
                excluded: seq![due.at],
                failing: Some(due.failing),
                now: due.now_sec,
            }),
        ) == Some(name),
    ensures
        probes(v, pool, due, n).len() > 0,
        probes(v, pool, due, n)[0] == name,
    decreases n,
{
    if n > 1 {
        the_best_choice_is_probed_first(v, pool, due, (n - 1) as nat, name);
    } else {
        reveal_with_fuel(probes, 2);
        assert(seq![due.at] + Seq::<Seq<char>>::empty() =~= seq![due.at]);
        assert(probes(v, pool, due, 0) =~= Seq::empty());
    }
}

/// Neither the node in use nor the failing one is probed first as long as there is a candidate
/// against which nothing speaks.
pub proof fn probes_begin_elsewhere(
    v: StatsView,
    pool: Seq<(Seq<char>, u64)>,
    due: Due,
    n: nat,
    k: int,
)
    requires
        n > 0,
        due.at.len() > 0,
        0 <= k < pool.len(),
        selection::fit(
            v,
            (Search {
                excluded: seq![due.at],
                failing: Some(due.failing),
                now: due.now_sec,
            }),
            pool[k].0,
        ),
    ensures
        probes(v, pool, due, n).len() > 0,
        probes(v, pool, due, n)[0] != due.at,
        probes(v, pool, due, n)[0] != due.failing,
{
    let search = Search {
        excluded: seq![due.at],
        failing: Some(due.failing),
        now: due.now_sec,
    };
    selection::excluded_only_where_none_is_left(v, pool, search, k);
    selection::choice_is_a_candidate(v, pool, search);
    selection::choice_is_neither_excluded_nor_failing(v, pool, search, k);
    let name = selection::choice(v, pool, search)->0;
    if name == due.at {
        assert(search.excluded[0] == due.at);
    }
    the_best_choice_is_probed_first(v, pool, due, n, name);
}

/// There is no plan but to give up where the group offers nothing; at most three nodes are probed,
/// one after the other, and none where probing is off or one node alone is left; and where another
/// node is left than the one in use, and nothing is adopted, a choice is made.
pub proof fn plans_follow_the_offer(
    plan: Plan,
    v: StatsView,
    list: Seq<(Seq<char>, u64)>,
    due: Due,
    probing: bool,
)
    requires
        is_plan(plan, v, list, due, probing),
    ensures
        plan is GiveUp <==> list.len() == 0,
        plan matches Plan::Choose { pool, probe } ==> probe@.len() <= 3 && (!probing
            ==> probe@.len() == 0) && pool@.len() > 0 && (pool@.len() == 1 ==> probe@.len() == 0)
            && (probing && pool@.len() > 1 ==> text::strings(probe@) == probes(
            v,
            selection::scored(pool@),
            due,
            3,
        )),
        plan matches Plan::Stay(name) ==> name@ == due.at,
        plan matches Plan::Adopt(name) ==> name@.len() > 0 && !v.in_quarantine(
            name@,
            due.now_sec,
        ),
        adopted(v, due) is None && (exists|k: int|
            0 <= k < list.len() && (#[trigger] list[k]).0 != due.at && !v.in_quarantine(
                list[k].0,
                due.now_sec,
            ) && !v.cooling(list[k].0, due.now_sec)) ==> plan is Choose,
{
    let pool = pool_of(v, list, due.now_sec);
    probes_are_few_and_offered(v, pool, due, MAX_PROBES as nat);
    if let Plan::Choose { pool: nodes, probe } = plan {
        assert(text::strings(probe@).len() == probe@.len());
        assert(selection::scored(nodes@).len() == nodes@.len());
    }
    if exists|k: int|
        0 <= k < list.len() && (#[trigger] list[k]).0 != due.at && !v.in_quarantine(
            list[k].0,
            due.now_sec,
        ) && !v.cooling(list[k].0, due.now_sec) {
        let k = choose|k: int|
            0 <= k < list.len() && (#[trigger] list[k]).0 != due.at && !v.in_quarantine(
                list[k].0,
                due.now_sec,
            ) && !v.cooling(list[k].0, due.now_sec);
        the_pool_leaves_out_bad_nodes(v, list, due.now_sec, k, due.at);
        let m = choose|m: int| 0 <= m < pool.len() && pool[m] == list[k];
    }
}

/// A node that a probe found supported becomes the consensus anchor and the node of the last
/// switch; one that it found blocked goes into quarantine and its region cools down; one that it
/// did not reach has one more failure.
pub proof fn probes_are_taken_to_heart(
    v: StatsView,
    from: Seq<char>,
    node: Seq<char>,
    secs: i64,
    now_sec: i64,
    now_ms: i64,
    later: i64,
)
    requires
        v.enabled,
        node.len() > 0,
        v.quarantine_fits(node, secs, probe_reason(), now_sec),
        v.failure_fits(node, now_sec),
    ensures
        ({
            let after = after_probe(
                v,
                from,
                node,
                ProbeResult::Supported,
                secs,
                now_sec,
                now_ms,
            );
            &&& after.anchor == Some(node)
            &&& after.switched_to == Some(node)
            &&& after.switched_from == Some(from)
            &&& after.switched_ms == now_ms
            &&& after.quarantine == v.quarantine
            &&& after.nodes == v.nodes
        }),
        ({
            let after = after_probe(
                v,
                from,
                node,
                ProbeResult::LocationBlocked,
                secs,
                now_sec,
                now_ms,
            );
            &&& after.in_quarantine(node, later) <==> later < now_sec + secs
            &&& after.anchor != Some(node)
            &&& after.switched_to == v.switched_to
            &&& v.watched_region(node) matches Some(region) ==> later < now_sec
                + v.region_cooldown_secs ==> after.region_cooling(region, later)
        }),
        ({
            let after = after_probe(
                v,
                from,
                node,
                ProbeResult::Unreachable,
                secs,
                now_sec,
                now_ms,
            );
            &&& crate::stats::failures(crate::stats::entry(after.nodes, node))
                == crate::stats::failures(crate::stats::entry(v.nodes, node)) + 1
            &&& after.quarantine == v.quarantine
            &&& after.switched_to == v.switched_to
        }),
{
    reveal_strlit("probe_location_blocked");
    reveal_strlit("location");
    assert("probe_location_blocked"@.subrange(6, 14) =~= "location"@);
    assert(text::occurs_at("probe_location_blocked"@, "location"@, 6));
}

/// A switch is remembered with where it led and when, and nothing else changes.
pub proof fn a_switch_is_remembered(v: StatsView, from: Seq<char>, to: Seq<char>, now_ms: i64)
    requires
        v.enabled,
    ensures
        switched(v, from, to, now_ms).switched_to == Some(to),
        switched(v, from, to, now_ms).switched_from == Some(from),
        switched(v, from, to, now_ms).switched_ms == now_ms,
        switched(v, from, to, now_ms).anchor == v.anchor,
        switched(v, from, to, now_ms).nodes == v.nodes,
        switched(v, from, to, now_ms).regions == v.regions,
        switched(v, from, to, now_ms).quarantine == v.quarantine,
{
}

/// As long as there is a candidate against which nothing speaks, other than the node in use and
/// those that were tried, such a one is asked for.
pub proof fn an_untried_node_is_asked_for(
    target: Target,
    v: StatsView,
    pool: Seq<(Seq<char>, u64)>,
    at: Seq<char>,
    tried: Seq<Seq<char>>,
    now_sec: i64,
    k: int,
)
    requires
        is_target(target, v, pool, at, tried, now_sec),
        0 <= k < pool.len(),
        pool[k].0 != at,
        !tried.contains(pool[k].0),
        !crate::regions::info_node(pool[k].0),
        !crate::regions::unsupported(pool[k].0),
        !v.in_quarantine(pool[k].0, now_sec),
    ensures
        target matches Target::Request(name) && name@ != at && !tried.contains(name@)
            && selection::names(pool).contains(name@),
{
    let search = Search { excluded: also_excluded(tried, at), failing: Some(at), now: now_sec };
    if search.excluded.contains(pool[k].0) {
        let i = choose|i: int|
            0 <= i < search.excluded.len() && search.excluded[i] == pool[k].0;
        if i < tried.len() {
            assert(tried[i] == pool[k].0);
        }
    }
    selection::excluded_only_where_none_is_left(v, pool, search, k);
    selection::choice_is_a_candidate(v, pool, search);
    a_switch_leads_elsewhere(target, v, pool, at, tried, now_sec, k);
    let name = selection::choice(v, pool, search)->0;
    if tried.contains(name) {
        let i = choose|i: int| 0 <= i < tried.len() && tried[i] == name;
        assert(search.excluded[i] == name);
    }
    selection::choice_is_neither_excluded_nor_failing(v, pool, search, k);
}

/// Of the nodes that were tried the last eight are remembered, in the order in which they were
/// tried, and none twice in a row of tries.
pub proof fn the_last_eight_are_remembered(tried: Seq<Seq<char>>, node: Seq<char>)
    ensures
        node.len() > 0 && !tried.contains(node) && tried.len() < 8 ==> with_tried(tried, node)
            == tried.push(node),
        node.len() > 0 && !tried.contains(node) && tried.len() == 8 ==> with_tried(tried, node)
            == tried.drop_first().push(node),
        (node.len() == 0 || tried.contains(node)) && tried.len() <= 8 ==> with_tried(tried, node)
            == tried,
{
    if tried.len() == 8 {
        assert(tried.push(node).drop_first() =~= tried.drop_first().push(node));
    }
}

/// A failure of a node is counted where it is to be recorded, and nothing changes where it is not.
pub proof fn failures_are_counted_where_recorded(v: StatsView, node: Seq<char>, now: i64)
    ensures
        after_failure(v, node, false, now) == v,
        v.enabled && node.len() > 0 && v.failure_fits(node, now) ==> crate::stats::failures(
            crate::stats::entry(after_failure(v, node, true, now).nodes, node),
        ) == crate::stats::failures(crate::stats::entry(v.nodes, node)) + 1,
{
}

/// As long as there is a candidate against which nothing speaks that is not probed yet, another is
/// probed.
pub proof fn probes_go_on_to_others(
    v: StatsView,
    pool: Seq<(Seq<char>, u64)>,
    due: Due,
    n: nat,
    k: int,
)
    requires
        n > 0,
        0 <= k < pool.len(),
        pool[k].0 != due.at,
        pool[k].0 != due.failing,
        !crate::regions::info_node(pool[k].0),
        !crate::regions::unsupported(pool[k].0),
        !v.in_quarantine(pool[k].0, due.now_sec),
        !probes(v, pool, due, (n - 1) as nat).contains(pool[k].0),
    ensures
        probes(v, pool, due, n).len() == probes(v, pool, due, (n - 1) as nat).len() + 1,
        probes(v, pool, due, n).drop_last() == probes(v, pool, due, (n - 1) as nat),
        probes(v, pool, due, n).last() != due.failing,
        due.at.len() > 0 ==> probes(v, pool, due, n).last() != due.at,
{
    let before = probes(v, pool, due, (n - 1) as nat);
    let search = Search {
        excluded: probe_excluded(due, before),
        failing: Some(due.failing),
        now: due.now_sec,
    };
    if search.excluded.contains(pool[k].0) {
        let i = choose|i: int| 0 <= i < search.excluded.len() && search.excluded[i] == pool[k].0;
        if due.at.len() > 0 {
            if i > 0 {
                assert(before[i - 1] == pool[k].0);
            }
        } else {
            assert(before[i] == pool[k].0);
        }
    }
    selection::choice_is_neither_excluded_nor_failing(v, pool, search, k);
    let name = selection::choice(v, pool, search)->0;
    if before.contains(name) {
        let i = choose|i: int| 0 <= i < before.len() && before[i] == name;
        if due.at.len() > 0 {
            assert(search.excluded[i + 1] == name);
        } else {
            assert(search.excluded[i] == name);
        }
    }
    if due.at.len() > 0 && name == due.at {
        assert(search.excluded[0] == name);
    }
    assert(before.push(name).drop_last() =~= before);
}

/// Where no node is in use, none is excluded for being in use.
pub proof fn nothing_in_use_excludes_nothing(
    v: StatsView,
    pool: Seq<(Seq<char>, u64)>,
    at: Seq<char>,
    excluded: Seq<Seq<char>>,
    now: i64,
)
    requires
        at.len() == 0,
    ensures
        selection::choice(v, pool, (Search { excluded, failing: Some(at), now })) matches Some(name)
            ==> best_other(v, pool, at, excluded, now) == name,
{
}

} // verus!
