//! The choice among nodes: how they rank, and which one is tried next.

use crate::regions;
use crate::stats;
use crate::stats::{StatsManager, StatsView};
use crate::text;
use crate::text::{comes_before, is_listed, same_str};
use vstd::prelude::*;

verus! {

/// A node and its score. The higher the score, the more reliable the node.
pub struct Scored {
    pub name: String,
    pub score: u64,
}

/// Nodes with their scores.
pub open spec fn scored(list: Seq<Scored>) -> Seq<(Seq<char>, u64)> {
    Seq::new(list.len(), |i: int| (list[i].name@, list[i].score))
}

/// `a` ranks ahead of `b`: its score is higher, or it is the same and the name comes first.
pub open spec fn ahead(a: (Seq<char>, u64), b: (Seq<char>, u64)) -> bool {
    a.1 > b.1 || a.1 == b.1 && text::precedes(a.0, b.0)
}

/// Whether `a` ranks ahead of `b`.
fn is_ahead(a: &Scored, b: &Scored) -> (r: bool)
    ensures
        r == ahead((a.name@, a.score), (b.name@, b.score)),
{
    a.score > b.score || (a.score == b.score && comes_before(a.name.as_str(), b.name.as_str()))
}

/// The node ahead of which no other ranks.
pub open spec fn leader(list: Seq<(Seq<char>, u64)>) -> (Seq<char>, u64)
    decreases list.len(),
{
    if list.len() <= 1 {
        list[0]
    } else {
        let best = leader(list.drop_last());
        if ahead(list.last(), best) {
            list.last()
        } else {
            best
        }
    }
}

/// The node of `list` to take: the leader where scores count, else the first.
pub open spec fn pick(by_score: bool, list: Seq<(Seq<char>, u64)>) -> Option<Seq<char>> {
    if list.len() == 0 {
        None
    } else if by_score {
        Some(leader(list).0)
    } else {
        Some(list[0].0)
    }
}

/// Ranking is a strict order in which any two nodes that differ stand one ahead of the other.
pub proof fn ranking_is_an_order(
    a: (Seq<char>, u64),
    b: (Seq<char>, u64),
    c: (Seq<char>, u64),
)
    ensures
        !ahead(a, a),
        a != b ==> (ahead(a, b) <==> !ahead(b, a)),
        ahead(a, b) && ahead(b, c) ==> ahead(a, c),
{
    text::precedes_is_total(a.0, a.0);
    text::precedes_is_total(a.0, b.0);
    if ahead(a, b) && ahead(b, c) && a.1 == b.1 && b.1 == c.1 {
        text::precedes_is_transitive(a.0, b.0, c.0);
    }
}

/// The leader is one of the list, and none of the list ranks ahead of it.
pub proof fn leader_leads(list: Seq<(Seq<char>, u64)>)
    requires
        list.len() > 0,
    ensures
        list.contains(leader(list)),
        forall|i: int| 0 <= i < list.len() ==> !ahead(#[trigger] list[i], leader(list)),
    decreases list.len(),
{
    if list.len() == 1 {
        assert(list[0] == leader(list));
        ranking_is_an_order(list[0], list[0], list[0]);
    } else {
        let front = list.drop_last();
        leader_leads(front);
        let best = leader(front);
        let k = choose|k: int| 0 <= k < front.len() && front[k] == best;
        assert(list[k] == best);
        assert(list[list.len() - 1] == list.last());
        assert forall|i: int| 0 <= i < list.len() implies !ahead(
            #[trigger] list[i],
            leader(list),
        ) by {
            ranking_is_an_order(list[i], leader(list), best);
            ranking_is_an_order(list[i], list.last(), best);
            ranking_is_an_order(list.last(), best, best);
            if i < front.len() {
                assert(list[i] == front[i]);
            }
        }
    }
}

impl Scored {
    /// The same node with the same score.
    fn copy(&self) -> (r: Scored)
        ensures
            r.name@ == self.name@,
            r.score == self.score,
    {
        Scored { name: self.name.clone(), score: self.score }
    }
}

/// The node of `list` to take: the leader where scores count, else the first.
fn pick_from(by_score: bool, list: &Vec<Scored>) -> (r: Option<String>)
    ensures
        match r {
            Some(name) => pick(by_score, scored(list@)) == Some(name@),
            None => pick(by_score, scored(list@)) is None,
        },
{
    if list.len() == 0 {
        return None;
    }
    if !by_score {
        return Some(list[0].name.clone());
    }
    let ghost all = scored(list@);
    let mut best: usize = 0;
    let mut i: usize = 1;
    proof {
        assert(all.take(1)[0] == all[0]);
    }
    while i < list.len()
        invariant
            1 <= i <= list@.len(),
            best < i,
            all == scored(list@),
            leader(all.take(i as int)) == all[best as int],
        decreases list@.len() - i,
    {
        proof {
            assert(all.take(i + 1).drop_last() =~= all.take(i as int));
            assert(all.take(i + 1).last() == all[i as int]);
        }
        if is_ahead(&list[i], &list[best]) {
            best = i;
        }
        i += 1;
    }
    proof {
        assert(all.take(all.len() as int) =~= all);
    }
    Some(list[best].name.clone())
}

/// What is asked of a node: where it is, that it is not the failing one nor one of the excluded,
/// and that it is not cooling down.
pub struct Ask {
    pub region: Option<Seq<char>>,
    pub excluded: Seq<Seq<char>>,
    pub failing: Option<Seq<char>>,
    pub rested: bool,
    pub now: i64,
}

/// The node called `name` is what is asked for.
pub open spec fn suits(v: StatsView, ask: Ask, name: Seq<char>) -> bool {
    &&& ask.region matches Some(region) ==> regions::region_of(name, v.region_priority) == region
    &&& ask.failing != Some(name)
    &&& !ask.excluded.contains(name)
    &&& ask.rested ==> !v.cooling(name, ask.now)
}

/// Those of `list` that are what is asked for.
pub open spec fn suiting(v: StatsView, list: Seq<(Seq<char>, u64)>, ask: Ask) -> Seq<
    (Seq<char>, u64),
> {
    list.filter(|c: (Seq<char>, u64)| suits(v, ask, c.0))
}

/// Those of `list` that name a usable node.
pub open spec fn usable(list: Seq<(Seq<char>, u64)>) -> Seq<(Seq<char>, u64)> {
    list.filter(|c: (Seq<char>, u64)| !regions::info_node(c.0) && !regions::unsupported(c.0))
}

/// Those of `list` that are not in quarantine.
pub open spec fn free(v: StatsView, list: Seq<(Seq<char>, u64)>, now: i64) -> Seq<
    (Seq<char>, u64),
> {
    list.filter(|c: (Seq<char>, u64)| !v.in_quarantine(c.0, now))
}

/// `some`, or `all` where there is none.
pub open spec fn some_or_all<T>(some: Seq<T>, all: Seq<T>) -> Seq<T> {
    if some.len() > 0 {
        some
    } else {
        all
    }
}

/// The names of nodes.
pub open spec fn names(list: Seq<(Seq<char>, u64)>) -> Seq<Seq<char>> {
    Seq::new(list.len(), |i: int| list[i].0)
}

/// Whether an optional string slice is `name`.
pub(crate) fn is_it(s: Option<&str>, name: &str) -> (r: bool)
    ensures
        r == (text::slice_text(s) == Some(name@)),
{
    match s {
        Some(t) => same_str(t, name),
        None => false,
    }
}

/// A name is on a list of strings just where its text is among theirs.
proof fn listed_is_contained(name: Seq<char>, list: Seq<String>)
    ensures
        text::listed(name, list) == text::strings(list).contains(name),
{
    if text::listed(name, list) {
        let k = choose|k: int| 0 <= k < list.len() && name == (#[trigger] list[k])@;
        assert(text::strings(list)[k] == name);
    }
    if text::strings(list).contains(name) {
        let k = choose|k: int|
            0 <= k < text::strings(list).len() && text::strings(list)[k] == name;
        assert(list[k]@ == name);
    }
}

impl StatsManager {
    /// Whether the node called `name` is what is asked for.
    fn does_suit(
        &self,
        region: Option<&str>,
        excluded: &[String],
        failing: Option<&str>,
        rested: bool,
        now: i64,
        name: &str,
    ) -> (r: bool)
        requires
            self.well_formed(),
        ensures
            r == suits(
                self@,
                (Ask {
                    region: text::slice_text(region),
                    excluded: text::strings(excluded@),
                    failing: text::slice_text(failing),
                    rested,
                    now,
                }),
                name@,
            ),
    {
        proof {
            listed_is_contained(name@, excluded@);
        }
        if let Some(there) = region {
            let here = regions::extract_region(name, self.region_priority());
            if !same_str(here.as_str(), there) {
                return false;
            }
        }
        !is_it(failing, name) && !is_listed(name, excluded) && !(rested && self.is_cooling_down(
            name,
            now,
        ))
    }

    /// Those of `list` that are what is asked for.
    pub(crate) fn find_suiting(
        &self,
        list: &Vec<Scored>,
        region: Option<&str>,
        excluded: &[String],
        failing: Option<&str>,
        rested: bool,
        now: i64,
    ) -> (r: Vec<Scored>)
        requires
            self.well_formed(),
        ensures
            scored(r@) == suiting(
                self@,
                scored(list@),
                (Ask {
                    region: text::slice_text(region),
                    excluded: text::strings(excluded@),
                    failing: text::slice_text(failing),
                    rested,
                    now,
                }),
            ),
    {
        let ghost ask = Ask {
            region: text::slice_text(region),
            excluded: text::strings(excluded@),
            failing: text::slice_text(failing),
            rested,
            now,
        };
        let ghost p = |c: (Seq<char>, u64)| suits(self@, ask, c.0);
        let ghost all = scored(list@);
        let mut out: Vec<Scored> = Vec::new();
        let mut i: usize = 0;
        proof {
            reveal(Seq::filter);
            assert(all.take(0) =~= Seq::<(Seq<char>, u64)>::empty());
            assert(scored(out@) =~= all.take(0).filter(p));
        }
        while i < list.len()
            invariant
                i <= list@.len(),
                self.well_formed(),
                ask == (Ask {
                    region: text::slice_text(region),
                    excluded: text::strings(excluded@),
                    failing: text::slice_text(failing),
                    rested,
                    now,
                }),
                p == (|c: (Seq<char>, u64)| suits(self@, ask, c.0)),
                all == scored(list@),
                scored(out@) == all.take(i as int).filter(p),
            decreases list@.len() - i,
        {
            let ghost before = out@;
            proof {
                reveal(Seq::filter);
                assert(all.take(i + 1).drop_last() =~= all.take(i as int));
                assert(all.take(i + 1).last() == (list@[i as int].name@, list@[i as int].score));
            }
            if self.does_suit(region, excluded, failing, rested, now, list[i].name.as_str()) {
                out.push(list[i].copy());
                proof {
                    assert(scored(out@) =~= scored(before).push(all[i as int]));
                }
            }
            i += 1;
        }
        proof {
            assert(all.take(all.len() as int) =~= all);
        }
        out
    }

    /// Those of `list` that name a usable node.
    fn find_usable(list: &[Scored]) -> (r: Vec<Scored>)
        ensures
            scored(r@) == usable(scored(list@)),
    {
        let ghost p = |c: (Seq<char>, u64)|
            !regions::info_node(c.0) && !regions::unsupported(c.0);
        let ghost all = scored(list@);
        let mut out: Vec<Scored> = Vec::new();
        let mut i: usize = 0;
        proof {
            reveal(Seq::filter);
            assert(all.take(0) =~= Seq::<(Seq<char>, u64)>::empty());
            assert(scored(out@) =~= all.take(0).filter(p));
        }
        while i < list.len()
            invariant
                i <= list@.len(),
                p == (|c: (Seq<char>, u64)|
                    !regions::info_node(c.0) && !regions::unsupported(c.0)),
                all == scored(list@),
                scored(out@) == all.take(i as int).filter(p),
            decreases list@.len() - i,
        {
            let ghost before = out@;
            proof {
                reveal(Seq::filter);
                assert(all.take(i + 1).drop_last() =~= all.take(i as int));
                assert(all.take(i + 1).last() == (list@[i as int].name@, list@[i as int].score));
            }
            if regions::is_valid_candidate_node(list[i].name.as_str()) {
                out.push(list[i].copy());
                proof {
                    assert(scored(out@) =~= scored(before).push(all[i as int]));
                }
            }
            i += 1;
        }
        proof {
            assert(all.take(all.len() as int) =~= all);
        }
        out
    }

    /// Those of `list` that are not in quarantine.
    pub(crate) fn find_free(&self, list: &Vec<Scored>, now: i64) -> (r: Vec<Scored>)
        requires
            self.well_formed(),
        ensures
            scored(r@) == free(self@, scored(list@), now),
    {
        let ghost p = |c: (Seq<char>, u64)| !self@.in_quarantine(c.0, now);
        let ghost all = scored(list@);
        let mut out: Vec<Scored> = Vec::new();
        let mut i: usize = 0;
        proof {
            reveal(Seq::filter);
            assert(all.take(0) =~= Seq::<(Seq<char>, u64)>::empty());
            assert(scored(out@) =~= all.take(0).filter(p));
        }
        while i < list.len()
            invariant
                i <= list@.len(),
                self.well_formed(),
                p == (|c: (Seq<char>, u64)| !self@.in_quarantine(c.0, now)),
                all == scored(list@),
                scored(out@) == all.take(i as int).filter(p),
            decreases list@.len() - i,
        {
            let ghost before = out@;
            proof {
                reveal(Seq::filter);
                assert(all.take(i + 1).drop_last() =~= all.take(i as int));
                assert(all.take(i + 1).last() == (list@[i as int].name@, list@[i as int].score));
            }
            if !self.is_quarantined(list[i].name.as_str(), now) {
                out.push(list[i].copy());
                proof {
                    assert(scored(out@) =~= scored(before).push(all[i as int]));
                }
            }
            i += 1;
        }
        proof {
            assert(all.take(all.len() as int) =~= all);
        }
        out
    }
}

/// A copy of a list of nodes.
pub(crate) fn copy_all(list: &[Scored]) -> (r: Vec<Scored>)
    ensures
        scored(r@) == scored(list@),
{
    let mut out: Vec<Scored> = Vec::new();
    let mut i: usize = 0;
    while i < list.len()
        invariant
            i <= list@.len(),
            out@.len() == i,
            forall|k: int|
                0 <= k < i ==> (#[trigger] out@[k]).name@ == list@[k].name@ && out@[k].score
                    == list@[k].score,
        decreases list@.len() - i,
    {
        out.push(list[i].copy());
        i += 1;
    }
    proof {
        assert(scored(out@) =~= scored(list@));
    }
    out
}

/// No node ranks ahead of one that stands before it.
pub open spec fn ranked(list: Seq<(Seq<char>, u64)>) -> bool {
    forall|i: int, j: int|
        0 <= i < j < list.len() ==> !ahead(#[trigger] list[j], #[trigger] list[i])
}

/// Where in a ranked list a node belongs: behind all that do not rank behind it.
fn rank_of(list: &Vec<Scored>, node: &Scored) -> (r: usize)
    requires
        ranked(scored(list@)),
    ensures
        r <= list@.len(),
        forall|k: int|
            0 <= k < r ==> !ahead((node.name@, node.score), #[trigger] scored(list@)[k]),
        forall|k: int|
            r <= k < list@.len() ==> !ahead(#[trigger] scored(list@)[k], (node.name@, node.score)),
{
    let ghost all = scored(list@);
    let ghost it = (node.name@, node.score);
    let mut at: usize = 0;
    while at < list.len()
        invariant
            at <= list@.len(),
            all == scored(list@),
            it == (node.name@, node.score),
            ranked(all),
            forall|k: int| 0 <= k < at ==> !ahead(it, #[trigger] all[k]),
        decreases list@.len() - at,
    {
        proof {
            assert(all[at as int] == (list@[at as int].name@, list@[at as int].score));
        }
        if is_ahead(node, &list[at]) {
            proof {
                assert forall|k: int| at <= k < list@.len() implies !ahead(
                    #[trigger] all[k],
                    it,
                ) by {
                    ranking_is_an_order(all[k], it, all[at as int]);
                    ranking_is_an_order(it, all[at as int], it);
                    if k > at {
                        assert(!ahead(all[k], all[at as int]));
                    }
                }
            }
            return at;
        }
        at += 1;
    }
    at
}

impl StatsManager {
    /// Ranks candidate nodes by their reliability score descending. Without statistics they stay
    /// in the order in which they came.
    pub fn rank_nodes(&self, candidates: &[Scored]) -> (r: Vec<Scored>)
        ensures
            scored(r@).to_multiset() == scored(candidates@).to_multiset(),
            self@.enabled ==> ranked(scored(r@)),
            !self@.enabled ==> scored(r@) == scored(candidates@),
    {
        if !self.is_enabled() {
            return copy_all(candidates);
        }
        let ghost all = scored(candidates@);
        let mut out: Vec<Scored> = Vec::new();
        let mut i: usize = 0;
        proof {
            assert(all.take(0) =~= scored(out@));
        }
        while i < candidates.len()
            invariant
                i <= candidates@.len(),
                all == scored(candidates@),
                ranked(scored(out@)),
                scored(out@).to_multiset() == all.take(i as int).to_multiset(),
            decreases candidates@.len() - i,
        {
            let node = candidates[i].copy();
            let ghost it = all[i as int];
            let ghost before = scored(out@);
            let at = rank_of(&out, &node);
            out.insert(at, node);
            proof {
                let after = scored(out@);
                assert(after =~= before.insert(at as int, it));
                before.insert_ensures(at as int, it);
                vstd::seq_lib::to_multiset_insert(before, at as int, it);
                assert(all.take(i + 1) =~= all.take(i as int).push(it));
                vstd::seq_lib::to_multiset_build(all.take(i as int), it);
                assert forall|a: int, b: int| 0 <= a < b < after.len() implies !ahead(
                    #[trigger] after[b],
                    #[trigger] after[a],
                ) by {
                    let x = if a < at {
                        a
                    } else {
                        a - 1
                    };
                    let y = if b < at {
                        b
                    } else {
                        b - 1
                    };
                    if a != at {
                        assert(after[a] == before[x]);
                    }
                    if b != at {
                        assert(after[b] == before[y]);
                    }
                }
            }
            i += 1;
        }
        proof {
            assert(all.take(all.len() as int) =~= all);
        }
        out
    }
}

/// The regions of the nodes of `list`, in the order in which they first come up.
pub open spec fn regions_seen(list: Seq<(Seq<char>, u64)>, priority: Seq<Seq<char>>) -> Seq<
    Seq<char>,
>
    decreases list.len(),
{
    if list.len() == 0 {
        Seq::empty()
    } else {
        let before = regions_seen(list.drop_last(), priority);
        let region = regions::region_of(list.last().0, priority);
        if before.contains(region) {
            before
        } else {
            before.push(region)
        }
    }
}

/// `order`, followed by those of `seen` that are `target` and are not in it yet.
pub open spec fn followed_by(
    order: Seq<Seq<char>>,
    seen: Seq<Seq<char>>,
    target: Seq<char>,
) -> Seq<Seq<char>>
    decreases seen.len(),
{
    if seen.len() == 0 {
        order
    } else {
        let before = followed_by(order, seen.drop_last(), target);
        if regions::same_region(seen.last(), target) && !before.contains(seen.last()) {
            before.push(seen.last())
        } else {
            before
        }
    }
}

/// Those of `seen` that are on the list of priorities, in its order.
pub open spec fn preferred(seen: Seq<Seq<char>>, priority: Seq<Seq<char>>) -> Seq<Seq<char>>
    decreases priority.len(),
{
    if priority.len() == 0 {
        Seq::empty()
    } else {
        followed_by(preferred(seen, priority.drop_last()), seen, priority.last())
    }
}

/// `order`, followed by those of `seen` that are not in it yet, but for the rest.
pub open spec fn and_the_others(order: Seq<Seq<char>>, seen: Seq<Seq<char>>) -> Seq<Seq<char>>
    decreases seen.len(),
{
    if seen.len() == 0 {
        order
    } else {
        let before = and_the_others(order, seen.drop_last());
        if seen.last() != "其他"@ && !before.contains(seen.last()) {
            before.push(seen.last())
        } else {
            before
        }
    }
}

/// The regions of the nodes of `list` in the order in which they are tried: by priority, then
/// those without one, and nodes of no known region at the end.
pub open spec fn region_order(list: Seq<(Seq<char>, u64)>, priority: Seq<Seq<char>>) -> Seq<
    Seq<char>,
> {
    let seen = regions_seen(list, priority);
    let order = and_the_others(preferred(seen, priority), seen);
    if seen.contains("其他"@) && !order.contains("其他"@) {
        order.push("其他"@)
    } else {
        order
    }
}

/// Adds `name` to `list`.
fn add_name(list: &mut Vec<String>, name: &str)
    ensures
        text::strings(final(list)@) == text::strings(old(list)@).push(name@),
{
    let ghost before = list@;
    list.push(name.to_owned());
    proof {
        assert(text::strings(list@) =~= text::strings(before).push(name@));
    }
}

/// Whether `name` is among the texts of `list`.
pub(crate) fn has_name(list: &Vec<String>, name: &str) -> (r: bool)
    ensures
        r == text::strings(list@).contains(name@),
{
    proof {
        listed_is_contained(name@, list@);
    }
    is_listed(name, list)
}

impl StatsManager {
    /// The regions of the nodes of `list`, in the order in which they first come up.
    fn see_regions(&self, list: &Vec<Scored>) -> (r: Vec<String>)
        ensures
            text::strings(r@) == regions_seen(scored(list@), self@.region_priority),
    {
        let ghost all = scored(list@);
        let mut out: Vec<String> = Vec::new();
        let mut i: usize = 0;
        proof {
            assert(all.take(0) =~= Seq::<(Seq<char>, u64)>::empty());
            assert(text::strings(out@) =~= regions_seen(all.take(0), self@.region_priority));
        }
        while i < list.len()
            invariant
                i <= list@.len(),
                all == scored(list@),
                text::strings(out@) == regions_seen(all.take(i as int), self@.region_priority),
            decreases list@.len() - i,
        {
            proof {
                assert(all.take(i + 1).drop_last() =~= all.take(i as int));
                assert(all.take(i + 1).last() == (list@[i as int].name@, list@[i as int].score));
            }
            let region = regions::extract_region(list[i].name.as_str(), self.region_priority());
            if !has_name(&out, region.as_str()) {
                add_name(&mut out, region.as_str());
            }
            i += 1;
        }
        proof {
            assert(all.take(all.len() as int) =~= all);
        }
        out
    }

    /// The regions of the nodes of `list` in the order in which they are tried.
    fn order_regions(&self, list: &Vec<Scored>) -> (r: Vec<String>)
        ensures
            text::strings(r@) == region_order(scored(list@), self@.region_priority),
    {
        let seen = self.see_regions(list);
        let ghost found = text::strings(seen@);
        let priority = self.region_priority();
        let ghost wanted = text::strings(priority@);
        let mut out: Vec<String> = Vec::new();
        let mut i: usize = 0;
        proof {
            assert(wanted.take(0) =~= Seq::<Seq<char>>::empty());
            assert(text::strings(out@) =~= preferred(found, wanted.take(0)));
        }
        while i < priority.len()
            invariant
                i <= priority@.len(),
                found == text::strings(seen@),
                wanted == text::strings(priority@),
                text::strings(out@) == preferred(found, wanted.take(i as int)),
            decreases priority@.len() - i,
        {
            let target = priority[i].as_str();
            let ghost before = text::strings(out@);
            let mut k: usize = 0;
            proof {
                assert(wanted.take(i + 1).drop_last() =~= wanted.take(i as int));
                assert(wanted.take(i + 1).last() == target@);
                assert(found.take(0) =~= Seq::<Seq<char>>::empty());
            }
            while k < seen.len()
                invariant
                    k <= seen@.len(),
                    found == text::strings(seen@),
                    text::strings(out@) == followed_by(before, found.take(k as int), target@),
                decreases seen@.len() - k,
            {
                let region = seen[k].as_str();
                proof {
                    assert(found.take(k + 1).drop_last() =~= found.take(k as int));
                    assert(found.take(k + 1).last() == region@);
                }
                if regions::canonical_region_matches(region, target) && !has_name(&out, region) {
                    add_name(&mut out, region);
                }
                k += 1;
            }
            proof {
                assert(found.take(found.len() as int) =~= found);
            }
            i += 1;
        }
        let ghost first = text::strings(out@);
        let mut k: usize = 0;
        proof {
            assert(wanted.take(wanted.len() as int) =~= wanted);
            assert(found.take(0) =~= Seq::<Seq<char>>::empty());
        }
        while k < seen.len()
            invariant
                k <= seen@.len(),
                found == text::strings(seen@),
                text::strings(out@) == and_the_others(first, found.take(k as int)),
            decreases seen@.len() - k,
        {
            let region = seen[k].as_str();
            proof {
                assert(found.take(k + 1).drop_last() =~= found.take(k as int));
                assert(found.take(k + 1).last() == region@);
            }
            if !same_str(region, "其他") && !has_name(&out, region) {
                add_name(&mut out, region);
            }
            k += 1;
        }
        proof {
            assert(found.take(found.len() as int) =~= found);
        }
        if has_name(&seen, "其他") && !has_name(&out, "其他") {
            add_name(&mut out, "其他");
        }
        out
    }
}

/// A node is looked for: which ones are excluded, which one is failing, and when.
pub struct Search {
    pub excluded: Seq<Seq<char>>,
    pub failing: Option<Seq<char>>,
    pub now: i64,
}

impl Search {
    /// Any node but the excluded and the failing one; where it is asked for, none that is cooling
    /// down.
    pub open spec fn anywhere(self, rested: bool) -> Ask {
        Ask {
            region: None,
            excluded: self.excluded,
            failing: self.failing,
            rested,
            now: self.now,
        }
    }

    /// Any node of `region` but the excluded and the failing one; where it is asked for, none that
    /// is cooling down.
    pub open spec fn within(self, region: Seq<char>, rested: bool) -> Ask {
        Ask {
            region: Some(region),
            excluded: self.excluded,
            failing: self.failing,
            rested,
            now: self.now,
        }
    }

    /// Any node but `name`.
    pub open spec fn but(self, name: Option<Seq<char>>) -> Ask {
        Ask { region: None, excluded: Seq::empty(), failing: name, rested: false, now: self.now }
    }
}

/// The node to take from the first of `order` that is not cooling down and has one.
pub open spec fn first_in_order(
    v: StatsView,
    list: Seq<(Seq<char>, u64)>,
    order: Seq<Seq<char>>,
    search: Search,
    rested: bool,
) -> Option<Seq<char>>
    decreases order.len(),
{
    if order.len() == 0 {
        None
    } else {
        let here = suiting(v, list, search.within(order[0], rested));
        if !v.region_cooling(order[0], search.now) && here.len() > 0 {
            pick(v.enabled, here)
        } else {
            first_in_order(v, list, order.drop_first(), search, rested)
        }
    }
}

/// Where `region` stands in `order`; behind its end where it does not.
pub open spec fn place_in(order: Seq<Seq<char>>, region: Seq<char>) -> int
    decreases order.len(),
{
    if order.len() == 0 || order[0] == region {
        0
    } else {
        1 + place_in(order.drop_first(), region)
    }
}

/// One of the regions that stand before `region` has a node to take.
pub open spec fn higher_available(
    v: StatsView,
    list: Seq<(Seq<char>, u64)>,
    order: Seq<Seq<char>>,
    search: Search,
    region: Seq<char>,
) -> bool {
    first_in_order(v, list, order.take(place_in(order, region)), search, true) is Some
}

/// The consensus anchor is the node to go back to: it is a candidate, nothing speaks against it
/// or its region, and no region of a higher priority has a node to take.
pub open spec fn snaps_back(
    v: StatsView,
    list: Seq<(Seq<char>, u64)>,
    search: Search,
    anchor: Seq<char>,
) -> bool {
    let region = regions::region_of(anchor, v.region_priority);
    &&& !search.excluded.contains(anchor)
    &&& !v.region_cooling(region, search.now)
    &&& !v.cooling(anchor, search.now)
    &&& !v.in_quarantine(anchor, search.now)
    &&& search.failing != Some(anchor)
    &&& names(list).contains(anchor)
    &&& !higher_available(v, list, region_order(list, v.region_priority), search, region)
}

/// The node to take where no region has one: the best that is neither failing nor excluded; else the
/// consensus anchor, unless it is the failing one; else the best that is not failing; else the best.
pub open spec fn last_resort(v: StatsView, list: Seq<(Seq<char>, u64)>, search: Search) -> Option<
    Seq<char>,
> {
    let eligible = suiting(v, list, search.anywhere(false));
    let healthy = suiting(v, list, search.but(search.failing));
    if eligible.len() > 0 {
        pick(v.enabled, eligible)
    } else {
        match v.consensus() {
            Some(anchor) if names(list).contains(anchor) && search.failing != Some(anchor) => Some(
                anchor,
            ),
            _ => if healthy.len() > 0 {
                pick(v.enabled, healthy)
            } else {
                pick(v.enabled, list)
            },
        }
    }
}

/// The node to take where regions matter: the consensus anchor if it snaps back; else the best
/// rested node of the first region that has one; else the best of the first region that has any;
/// else the last resort.
pub open spec fn two_tier_choice(
    v: StatsView,
    list: Seq<(Seq<char>, u64)>,
    search: Search,
) -> Option<Seq<char>> {
    let order = region_order(list, v.region_priority);
    match v.consensus() {
        Some(anchor) if snaps_back(v, list, search, anchor) => Some(anchor),
        _ => match first_in_order(v, list, order, search, true) {
            Some(name) => Some(name),
            None => match first_in_order(v, list, order, search, false) {
                Some(name) => Some(name),
                None => last_resort(v, list, search),
            },
        },
    }
}

/// Those of `list` that are not cooling down.
pub open spec fn awake(v: StatsView, list: Seq<(Seq<char>, u64)>, now: i64) -> Seq<
    (Seq<char>, u64),
> {
    suiting(
        v,
        list,
        Ask { region: None, excluded: Seq::empty(), failing: None, rested: true, now },
    )
}

/// The node to take where regions do not matter: the best that is neither failing, excluded nor
/// cooling down; else the best that is neither failing nor excluded. Else, among those that are not
/// cooling down or, where there is none, among all, the consensus anchor; else the best that is not
/// the failing one or, where none is failing, not the one excluded last; else the best.
pub open spec fn flat_choice(v: StatsView, list: Seq<(Seq<char>, u64)>, search: Search) -> Option<
    Seq<char>,
> {
    let rested = suiting(v, list, search.anywhere(true));
    let eligible = suiting(v, list, search.anywhere(false));
    let pool = some_or_all(awake(v, list, search.now), list);
    if rested.len() > 0 {
        pick(v.enabled, rested)
    } else if eligible.len() > 0 {
        pick(v.enabled, eligible)
    } else {
        match v.consensus() {
            Some(anchor) if names(pool).contains(anchor) && search.failing != Some(anchor)
                && !v.cooling(anchor, search.now) => Some(anchor),
            _ => {
                let avoided = if search.failing is None && search.excluded.len() > 0 {
                    Some(search.excluded.last())
                } else {
                    search.failing
                };
                let others = suiting(v, pool, search.but(avoided));
                if others.len() > 0 {
                    pick(v.enabled, others)
                } else {
                    pick(v.enabled, pool)
                }
            },
        }
    }
}

/// The nodes among which the choice is made: the candidates that are usable or, where none is, all;
/// of those, the ones not in quarantine or, where there is none, all.
pub open spec fn active_pool(v: StatsView, list: Seq<(Seq<char>, u64)>, now: i64) -> Seq<
    (Seq<char>, u64),
> {
    let pool = some_or_all(usable(list), list);
    some_or_all(free(v, pool, now), pool)
}

/// The node to take, with or without regard to regions.
pub open spec fn choice(v: StatsView, list: Seq<(Seq<char>, u64)>, search: Search) -> Option<
    Seq<char>,
> {
    let active = active_pool(v, list, search.now);
    if list.len() == 0 {
        None
    } else if v.by_region {
        two_tier_choice(v, active, search)
    } else {
        flat_choice(v, active, search)
    }
}

/// Whether `name` is among the names of `list`.
fn is_candidate(list: &Vec<Scored>, name: &str) -> (r: bool)
    ensures
        r == names(scored(list@)).contains(name@),
{
    let ghost all = names(scored(list@));
    let mut i: usize = 0;
    while i < list.len()
        invariant
            i <= list@.len(),
            all == names(scored(list@)),
            forall|k: int| 0 <= k < i ==> #[trigger] all[k] != name@,
        decreases list@.len() - i,
    {
        proof {
            assert(all[i as int] == list@[i as int].name@);
        }
        if same_str(list[i].name.as_str(), name) {
            return true;
        }
        i += 1;
    }
    false
}

impl StatsManager {
    /// The node to take from the first `n` of `order` that is not cooling down and has one.
    fn take_in_order(
        &self,
        list: &Vec<Scored>,
        order: &Vec<String>,
        n: usize,
        excluded: &[String],
        failing: Option<&str>,
        rested: bool,
        now: i64,
    ) -> (r: Option<String>)
        requires
            self.well_formed(),
            n <= order@.len(),
        ensures
            text::text_of(r) == first_in_order(
                self@,
                scored(list@),
                text::strings(order@).take(n as int),
                (Search {
                    excluded: text::strings(excluded@),
                    failing: text::slice_text(failing),
                    now,
                }),
                rested,
            ),
    {
        let ghost search = Search {
            excluded: text::strings(excluded@),
            failing: text::slice_text(failing),
            now,
        };
        let ghost all = text::strings(order@).take(n as int);
        let mut i: usize = 0;
        proof {
            assert(all.skip(0) =~= all);
        }
        while i < n
            invariant
                i <= n <= order@.len(),
                self.well_formed(),
                search == (Search {
                    excluded: text::strings(excluded@),
                    failing: text::slice_text(failing),
                    now,
                }),
                all == text::strings(order@).take(n as int),
                first_in_order(self@, scored(list@), all, search, rested) == first_in_order(
                    self@,
                    scored(list@),
                    all.skip(i as int),
                    search,
                    rested,
                ),
            decreases n - i,
        {
            let region = order[i].as_str();
            proof {
                assert(all.skip(i as int)[0] == region@);
                assert(all.skip(i as int).drop_first() =~= all.skip(i + 1));
            }
            if !self.is_region_cooling_down(region, now) {
                let here = self.find_suiting(list, Some(region), excluded, failing, rested, now);
                if here.len() > 0 {
                    return pick_from(self.is_enabled(), &here);
                }
            }
            i += 1;
        }
        None
    }

    /// Two-tier node selection:
    /// Tier 1: Prioritize regions according to region_priority, region cooldown, and available
    /// healthy nodes.
    /// Tier 2: Within chosen region, prioritize nodes by 24h Bayesian reliability score and node
    /// cooldown.
    pub fn select_best_node_two_tier(
        &self,
        candidates: &Vec<Scored>,
        excluded: &[String],
        failing_node: Option<&str>,
        now_sec: i64,
    ) -> (r: Option<String>)
        requires
            self.well_formed(),
        ensures
            text::text_of(r) == two_tier_choice(
                self@,
                scored(candidates@),
                (Search {
                    excluded: text::strings(excluded@),
                    failing: text::slice_text(failing_node),
                    now: now_sec,
                }),
            ),
    {
        let order = self.order_regions(candidates);
        let ghost all = text::strings(order@);
        proof {
            assert(all.take(all.len() as int) =~= all);
        }
        let anchor = self.get_consensus_anchor();
        if let Some(node) = &anchor {
            if self.does_snap_back(candidates, &order, excluded, failing_node, now_sec, node) {
                return Some(node.clone());
            }
        }
        let n: usize = order.len();
        if let Some(name) = self.take_in_order(
            candidates,
            &order,
            n,
            excluded,
            failing_node,
            true,
            now_sec,
        ) {
            return Some(name);
        }
        if let Some(name) = self.take_in_order(
            candidates,
            &order,
            n,
            excluded,
            failing_node,
            false,
            now_sec,
        ) {
            return Some(name);
        }
        let eligible = self.find_suiting(candidates, None, excluded, failing_node, false, now_sec);
        if eligible.len() > 0 {
            return pick_from(self.is_enabled(), &eligible);
        }
        if let Some(node) = &anchor {
            if is_candidate(candidates, node.as_str()) && !is_it(failing_node, node.as_str()) {
                return Some(node.clone());
            }
        }
        let nobody: Vec<String> = Vec::new();
        proof {
            assert(text::strings(nobody@) =~= Seq::<Seq<char>>::empty());
        }
        let healthy = self.find_suiting(candidates, None, &nobody, failing_node, false, now_sec);
        if healthy.len() > 0 {
            return pick_from(self.is_enabled(), &healthy);
        }
        pick_from(self.is_enabled(), candidates)
    }

    /// Whether the consensus anchor is the node to go back to.
    fn does_snap_back(
        &self,
        candidates: &Vec<Scored>,
        order: &Vec<String>,
        excluded: &[String],
        failing: Option<&str>,
        now: i64,
        anchor: &String,
    ) -> (r: bool)
        requires
            self.well_formed(),
            text::strings(order@) == region_order(scored(candidates@), self@.region_priority),
        ensures
            r == snaps_back(
                self@,
                scored(candidates@),
                (Search {
                    excluded: text::strings(excluded@),
                    failing: text::slice_text(failing),
                    now,
                }),
                anchor@,
            ),
    {
        let region = regions::extract_region(anchor.as_str(), self.region_priority());
        let ghost all = text::strings(order@);
        proof {
            listed_is_contained(anchor@, excluded@);
        }
        if is_listed(anchor.as_str(), excluded) || self.is_region_cooling_down(
            region.as_str(),
            now,
        ) || self.is_cooling_down(anchor.as_str(), now) || self.is_quarantined(
            anchor.as_str(),
            now,
        ) || is_it(failing, anchor.as_str()) || !is_candidate(candidates, anchor.as_str()) {
            return false;
        }
        let mut n: usize = 0;
        proof {
            assert(all.skip(0) =~= all);
        }
        while n < order.len() && !same_str(order[n].as_str(), region.as_str())
            invariant
                n <= order@.len(),
                all == text::strings(order@),
                place_in(all, region@) == n + place_in(all.skip(n as int), region@),
            decreases order@.len() - n,
        {
            proof {
                assert(all.skip(n as int)[0] == order@[n as int]@);
                assert(all.skip(n as int).drop_first() =~= all.skip(n + 1));
            }
            n += 1;
        }
        proof {
            if n < order@.len() {
                assert(all.skip(n as int)[0] == order@[n as int]@);
            }
        }
        self.take_in_order(candidates, order, n, excluded, failing, true, now).is_none()
    }

    /// Flat single-tier node selection fallback when no_region_priority is true.
    pub fn select_best_node_flat(
        &self,
        candidates: &Vec<Scored>,
        excluded: &[String],
        failing_node: Option<&str>,
        now_sec: i64,
    ) -> (r: Option<String>)
        requires
            self.well_formed(),
        ensures
            text::text_of(r) == flat_choice(
                self@,
                scored(candidates@),
                (Search {
                    excluded: text::strings(excluded@),
                    failing: text::slice_text(failing_node),
                    now: now_sec,
                }),
            ),
    {
        let fit = self.find_suiting(candidates, None, excluded, failing_node, true, now_sec);
        if fit.len() > 0 {
            return pick_from(self.is_enabled(), &fit);
        }
        let eligible = self.find_suiting(candidates, None, excluded, failing_node, false, now_sec);
        if eligible.len() > 0 {
            return pick_from(self.is_enabled(), &eligible);
        }
        let nobody: Vec<String> = Vec::new();
        proof {
            assert(text::strings(nobody@) =~= Seq::<Seq<char>>::empty());
        }
        let rested = self.find_suiting(candidates, None, &nobody, None, true, now_sec);
        let pool: &Vec<Scored> = if rested.len() > 0 {
            &rested
        } else {
            candidates
        };
        if let Some(node) = self.get_consensus_anchor() {
            if is_candidate(pool, node.as_str()) && !is_it(failing_node, node.as_str())
                && !self.is_cooling_down(node.as_str(), now_sec) {
                return Some(node);
            }
        }
        let avoided: Option<&str> = if failing_node.is_none() && excluded.len() > 0 {
            Some(excluded[excluded.len() - 1].as_str())
        } else {
            failing_node
        };
        let others = self.find_suiting(pool, None, &nobody, avoided, false, now_sec);
        if others.len() > 0 {
            return pick_from(self.is_enabled(), &others);
        }
        pick_from(self.is_enabled(), pool)
    }

    /// Selects the best candidate node at `now_sec`, excluding any nodes in `excluded`.
    /// Excludes invalid/informational nodes and unsupported regions (such as Hong Kong).
    /// Uses two-tier priority (Region -> Node) unless disabled via config.
    pub fn select_best_node_at(
        &self,
        candidates: &[Scored],
        excluded: &[String],
        failing_node: Option<&str>,
        now_sec: i64,
    ) -> (r: Option<String>)
        requires
            self.well_formed(),
        ensures
            text::text_of(r) == choice(
                self@,
                scored(candidates@),
                (Search {
                    excluded: text::strings(excluded@),
                    failing: text::slice_text(failing_node),
                    now: now_sec,
                }),
            ),
    {
        if candidates.len() == 0 {
            return None;
        }
        let valid = StatsManager::find_usable(candidates);
        let pool = if valid.len() > 0 {
            valid
        } else {
            copy_all(candidates)
        };
        let unquarantined = self.find_free(&pool, now_sec);
        let active = if unquarantined.len() > 0 {
            unquarantined
        } else {
            pool
        };
        if self.is_region_priority_enabled() {
            self.select_best_node_two_tier(&active, excluded, failing_node, now_sec)
        } else {
            self.select_best_node_flat(&active, excluded, failing_node, now_sec)
        }
    }

    /// Selects the best candidate node at the present moment, excluding any nodes in `excluded`.
    pub fn select_best_node(
        &self,
        candidates: &[Scored],
        excluded: &[String],
        failing_node: Option<&str>,
    ) -> (r: Option<String>)
        requires
            self.well_formed(),
        ensures
            exists|search: Search|
                search.excluded == text::strings(excluded@) && search.failing == text::slice_text(
                    failing_node,
                ) && stats::on_the_clock(search.now) && text::text_of(r) == #[trigger] choice(
                    self@,
                    scored(candidates@),
                    search,
                ),
    {
        let now = StatsManager::now_sec();
        self.select_best_node_at(candidates, excluded, failing_node, now)
    }
}

/// What is picked is one of the list, and something is where there is anything.
proof fn picks_from(by_score: bool, list: Seq<(Seq<char>, u64)>)
    ensures
        pick(by_score, list) is Some <==> list.len() > 0,
        pick(by_score, list) matches Some(name) ==> names(list).contains(name),
{
    if list.len() > 0 {
        leader_leads(list);
        let all = names(list);
        if by_score {
            let k = choose|k: int| 0 <= k < list.len() && list[k] == leader(list);
            assert(all[k] == leader(list).0);
        } else {
            assert(all[0] == list[0].0);
        }
    }
}

/// A node that suits is one of the list, and suits.
proof fn suiting_suits(v: StatsView, list: Seq<(Seq<char>, u64)>, ask: Ask, name: Seq<char>)
    requires
        names(suiting(v, list, ask)).contains(name),
    ensures
        names(list).contains(name),
        suits(v, ask, name),
{
    let p = |c: (Seq<char>, u64)| suits(v, ask, c.0);
    let kept = list.filter(p);
    let k = choose|k: int| 0 <= k < names(kept).len() && names(kept)[k] == name;
    assert(p(kept[k]));
    assert(kept.contains(kept[k]));
    list.lemma_filter_contains_rev(p, kept[k]);
    let m = choose|m: int| 0 <= m < list.len() && list[m] == kept[k];
    assert(names(list)[m] == name);
}

/// Where one of the list suits, there are nodes that suit.
proof fn suiting_is_found(v: StatsView, list: Seq<(Seq<char>, u64)>, ask: Ask, name: Seq<char>)
    requires
        names(list).contains(name),
        suits(v, ask, name),
    ensures
        suiting(v, list, ask).len() > 0,
{
    let p = |c: (Seq<char>, u64)| suits(v, ask, c.0);
    let m = choose|m: int| 0 <= m < names(list).len() && names(list)[m] == name;
    assert(p(list[m]));
    list.lemma_filter_contains(p, m);
}

/// What is found in the order of regions is one of the list, is in one of these regions, which is
/// not cooling down, and is what is asked for there.
proof fn found_in_order(
    v: StatsView,
    list: Seq<(Seq<char>, u64)>,
    order: Seq<Seq<char>>,
    search: Search,
    rested: bool,
)
    ensures
        first_in_order(v, list, order, search, rested) matches Some(name) ==> {
            let region = regions::region_of(name, v.region_priority);
            &&& names(list).contains(name)
            &&& order.contains(region)
            &&& !v.region_cooling(region, search.now)
            &&& suits(v, search.within(region, rested), name)
        },
    decreases order.len(),
{
    if order.len() > 0 {
        let here = suiting(v, list, search.within(order[0], rested));
        if !v.region_cooling(order[0], search.now) && here.len() > 0 {
            picks_from(v.enabled, here);
            let name = pick(v.enabled, here)->0;
            suiting_suits(v, list, search.within(order[0], rested), name);
            assert(order.contains(order[0]));
        } else {
            found_in_order(v, list, order.drop_first(), search, rested);
            if let Some(name) = first_in_order(v, list, order.drop_first(), search, rested) {
                let region = regions::region_of(name, v.region_priority);
                let k = choose|k: int|
                    0 <= k < order.drop_first().len() && order.drop_first()[k] == region;
                assert(order[k + 1] == region);
            }
        }
    }
}

/// The two-tier choice is one of the list, and something where there is anything; and it is not
/// the failing node unless there is no other.
proof fn two_tier_is_sound(v: StatsView, list: Seq<(Seq<char>, u64)>, search: Search)
    requires
        list.len() > 0,
    ensures
        two_tier_choice(v, list, search) matches Some(name) && names(list).contains(name),
        forall|other: Seq<char>|
            names(list).contains(other) && search.failing != Some(other) ==> two_tier_choice(
                v,
                list,
                search,
            ) != search.failing,
{
    let order = region_order(list, v.region_priority);
    found_in_order(v, list, order, search, true);
    found_in_order(v, list, order, search, false);
    last_resort_is_sound(v, list, search);
}

/// The last resort is one of the list, and something where there is anything; and it is not the
/// failing node unless there is no other.
proof fn last_resort_is_sound(v: StatsView, list: Seq<(Seq<char>, u64)>, search: Search)
    requires
        list.len() > 0,
    ensures
        last_resort(v, list, search) matches Some(name) && names(list).contains(name),
        forall|other: Seq<char>|
            names(list).contains(other) && search.failing != Some(other) ==> last_resort(
                v,
                list,
                search,
            ) != search.failing,
{
    let eligible = suiting(v, list, search.anywhere(false));
    let healthy = suiting(v, list, search.but(search.failing));
    picks_from(v.enabled, list);
    picks_from(v.enabled, eligible);
    picks_from(v.enabled, healthy);
    if eligible.len() > 0 {
        suiting_suits(v, list, search.anywhere(false), pick(v.enabled, eligible)->0);
    }
    if healthy.len() > 0 {
        suiting_suits(v, list, search.but(search.failing), pick(v.enabled, healthy)->0);
    }
    assert forall|other: Seq<char>|
        names(list).contains(other) && search.failing != Some(other) implies last_resort(
        v,
        list,
        search,
    ) != search.failing by {
        suiting_is_found(v, list, search.but(search.failing), other);
    }
}

/// The flat choice is one of the list, and something where there is anything; and it is not the
/// failing node unless there is no other that is not cooling down or, where all are, no other.
proof fn flat_is_sound(v: StatsView, list: Seq<(Seq<char>, u64)>, search: Search)
    requires
        list.len() > 0,
    ensures
        flat_choice(v, list, search) matches Some(name) && names(list).contains(name),
        forall|other: Seq<char>| search.failing is Some && search.failing != Some(other)
            && #[trigger] names(some_or_all(awake(v, list, search.now), list)).contains(other)
            ==> flat_choice(v, list, search) != search.failing,
{
    let ask = Ask {
        region: None,
        excluded: Seq::empty(),
        failing: None,
        rested: true,
        now: search.now,
    };
    let fit = suiting(v, list, search.anywhere(true));
    let eligible = suiting(v, list, search.anywhere(false));
    let rested = awake(v, list, search.now);
    let pool = some_or_all(rested, list);
    let avoided = if search.failing is None && search.excluded.len() > 0 {
        Some(search.excluded.last())
    } else {
        search.failing
    };
    let others = suiting(v, pool, search.but(avoided));
    picks_from(v.enabled, fit);
    picks_from(v.enabled, eligible);
    picks_from(v.enabled, pool);
    picks_from(v.enabled, others);
    if fit.len() > 0 {
        suiting_suits(v, list, search.anywhere(true), pick(v.enabled, fit)->0);
    } else if eligible.len() > 0 {
        suiting_suits(v, list, search.anywhere(false), pick(v.enabled, eligible)->0);
    } else {
        if others.len() > 0 {
            suiting_suits(v, pool, search.but(avoided), pick(v.enabled, others)->0);
        }
        let name = flat_choice(v, list, search)->0;
        assert(names(pool).contains(name));
        if rested.len() > 0 {
            suiting_suits(v, list, ask, name);
        }
    }
    assert forall|other: Seq<char>|
        search.failing is Some && search.failing != Some(other) && #[trigger] names(
            pool,
        ).contains(other) implies flat_choice(v, list, search) != search.failing by {
        suiting_is_found(v, pool, search.but(avoided), other);
    }
}

/// The names of what a filter leaves are names of the list of which it holds; and where one of
/// the list has such a name, it leaves something.
proof fn filtered_names(list: Seq<(Seq<char>, u64)>, p: spec_fn((Seq<char>, u64)) -> bool)
    ensures
        forall|name: Seq<char>| #[trigger]
            names(list.filter(p)).contains(name) ==> names(list).contains(name) && exists|k: int|
                0 <= k < list.len() && #[trigger] list[k].0 == name && p(list[k]),
        forall|k: int| 0 <= k < list.len() && p(#[trigger] list[k]) ==> list.filter(p).len() > 0,
{
    let kept = list.filter(p);
    assert forall|name: Seq<char>| #[trigger] names(kept).contains(name) implies names(
        list,
    ).contains(name) && exists|k: int|
        0 <= k < list.len() && #[trigger] list[k].0 == name && p(list[k]) by {
        let k = choose|k: int| 0 <= k < names(kept).len() && names(kept)[k] == name;
        assert(p(kept[k]));
        assert(kept.contains(kept[k]));
        list.lemma_filter_contains_rev(p, kept[k]);
        let m = choose|m: int| 0 <= m < list.len() && list[m] == kept[k];
        assert(names(list)[m] == name);
        assert(list[m].0 == name && p(list[m]));
    }
    assert forall|k: int| 0 <= k < list.len() && p(#[trigger] list[k]) implies kept.len() > 0 by {
        list.lemma_filter_contains(p, k);
    }
}

/// A node is chosen wherever there is a candidate, and it is one of the candidates.
pub proof fn choice_is_a_candidate(v: StatsView, list: Seq<(Seq<char>, u64)>, search: Search)
    ensures
        choice(v, list, search) is Some <==> list.len() > 0,
        choice(v, list, search) matches Some(name) ==> names(list).contains(name) && names(
            active_pool(v, list, search.now),
        ).contains(name),
{
    if list.len() > 0 {
        let p = |c: (Seq<char>, u64)| !regions::info_node(c.0) && !regions::unsupported(c.0);
        let q = |c: (Seq<char>, u64)| !v.in_quarantine(c.0, search.now);
        let pool = some_or_all(usable(list), list);
        let active = active_pool(v, list, search.now);
        filtered_names(list, p);
        filtered_names(pool, q);
        two_tier_is_sound(v, active, search);
        flat_is_sound(v, active, search);
    }
}

/// A candidate that is an announcement, a policy, in Hong Kong or in mainland China is chosen only
/// where there is no other.
pub proof fn choice_is_usable(v: StatsView, list: Seq<(Seq<char>, u64)>, search: Search, k: int)
    requires
        0 <= k < list.len(),
        !regions::info_node(list[k].0),
        !regions::unsupported(list[k].0),
    ensures
        choice(v, list, search) matches Some(name) && !regions::info_node(name)
            && !regions::unsupported(name),
{
    let p = |c: (Seq<char>, u64)| !regions::info_node(c.0) && !regions::unsupported(c.0);
    let q = |c: (Seq<char>, u64)| !v.in_quarantine(c.0, search.now);
    filtered_names(list, p);
    assert(p(list[k]));
    filtered_names(usable(list), q);
    choice_is_a_candidate(v, list, search);
    let name = choice(v, list, search)->0;
    assert(names(usable(list)).contains(name));
    let m = choose|m: int| 0 <= m < list.len() && list[m].0 == name && p(list[m]);
    assert(p(list[m]));
}

/// A usable candidate that is in quarantine is chosen only where all usable candidates are.
pub proof fn choice_is_not_in_quarantine(
    v: StatsView,
    list: Seq<(Seq<char>, u64)>,
    search: Search,
    k: int,
)
    requires
        0 <= k < list.len(),
        !regions::info_node(list[k].0),
        !regions::unsupported(list[k].0),
        !v.in_quarantine(list[k].0, search.now),
    ensures
        choice(v, list, search) matches Some(name) && !v.in_quarantine(name, search.now),
{
    let p = |c: (Seq<char>, u64)| !regions::info_node(c.0) && !regions::unsupported(c.0);
    let q = |c: (Seq<char>, u64)| !v.in_quarantine(c.0, search.now);
    assert(p(list[k]));
    list.lemma_filter_contains(p, k);
    let pool = usable(list);
    let j = choose|j: int| 0 <= j < pool.len() && pool[j] == list[k];
    assert(q(pool[j]));
    filtered_names(pool, q);
    choice_is_a_candidate(v, list, search);
    let name = choice(v, list, search)->0;
    assert(names(free(v, pool, search.now)).contains(name));
    let m = choose|m: int| 0 <= m < pool.len() && pool[m].0 == name && q(pool[m]);
    assert(q(pool[m]));
}

/// The nodes among which the choice is made once nodes that cool down are left, as they are where
/// regions do not matter.
pub open spec fn contenders(v: StatsView, list: Seq<(Seq<char>, u64)>, now: i64) -> Seq<
    (Seq<char>, u64),
> {
    let active = active_pool(v, list, now);
    if v.by_region {
        active
    } else {
        some_or_all(awake(v, active, now), active)
    }
}

/// The failing node is not chosen again if there is another contender.
pub proof fn failing_node_is_avoided(
    v: StatsView,
    list: Seq<(Seq<char>, u64)>,
    search: Search,
    other: Seq<char>,
)
    requires
        names(contenders(v, list, search.now)).contains(other),
        search.failing is Some,
        search.failing != Some(other),
    ensures
        choice(v, list, search) != search.failing,
{
    let active = active_pool(v, list, search.now);
    if list.len() > 0 {
        two_tier_is_sound(v, active, search);
        flat_is_sound(v, active, search);
    }
}

/// The choice is neither excluded, failing nor cooling down, and where regions matter its region is
/// not cooling down either, as long as there is a node like that among those between which the
/// choice is made. The same holds if a node that cools down itself counts too.
pub proof fn choice_is_suitable(
    v: StatsView,
    list: Seq<(Seq<char>, u64)>,
    search: Search,
    rested: bool,
    other: Seq<char>,
)
    requires
        names(active_pool(v, list, search.now)).contains(other),
        suits(v, search.anywhere(rested), other),
        v.by_region ==> !v.region_cooling(
            regions::region_of(other, v.region_priority),
            search.now,
        ),
    ensures
        choice(v, list, search) matches Some(name) && suits(v, search.anywhere(rested), name) && (
        v.by_region ==> !v.region_cooling(
            regions::region_of(name, v.region_priority),
            search.now,
        )),
{
    let active = active_pool(v, list, search.now);
    let at = choose|at: int| 0 <= at < names(active).len() && names(active)[at] == other;
    nothing_is_active(v, list, search.now);
    if v.by_region {
        let order = region_order(active, v.region_priority);
        let region = regions::region_of(other, v.region_priority);
        order_has_every_region(active, v.region_priority, at);
        let k = choose|k: int| 0 <= k < order.len() && order[k] == region;
        suiting_is_found(v, active, search.within(region, rested), other);
        open_region_is_found(v, active, order, search, rested, k);
        found_in_order(v, active, order, search, true);
        found_in_order(v, active, order, search, false);
    } else {
        let fit = suiting(v, active, search.anywhere(true));
        let eligible = suiting(v, active, search.anywhere(false));
        suiting_is_found(v, active, search.anywhere(rested), other);
        picks_from(v.enabled, fit);
        picks_from(v.enabled, eligible);
        if fit.len() > 0 {
            suiting_suits(v, active, search.anywhere(true), pick(v.enabled, fit)->0);
        } else {
            suiting_suits(v, active, search.anywhere(false), pick(v.enabled, eligible)->0);
        }
    }
}

/// The choice is neither excluded nor failing as long as there is a node like that among those
/// between which the choice is made, whether or not it or its region is cooling down.
pub proof fn excluded_node_is_avoided(
    v: StatsView,
    list: Seq<(Seq<char>, u64)>,
    search: Search,
    other: Seq<char>,
)
    requires
        names(active_pool(v, list, search.now)).contains(other),
        !search.excluded.contains(other),
        search.failing != Some(other),
    ensures
        choice(v, list, search) matches Some(name) && !search.excluded.contains(name)
            && search.failing != Some(name),
{
    let active = active_pool(v, list, search.now);
    nothing_is_active(v, list, search.now);
    if v.by_region {
        let order = region_order(active, v.region_priority);
        let eligible = suiting(v, active, search.anywhere(false));
        found_in_order(v, active, order, search, true);
        found_in_order(v, active, order, search, false);
        suiting_is_found(v, active, search.anywhere(false), other);
        picks_from(v.enabled, eligible);
        suiting_suits(v, active, search.anywhere(false), pick(v.enabled, eligible)->0);
    } else {
        choice_is_suitable(v, list, search, false, other);
    }
}

/// An excluded candidate is chosen only where no candidate is left that is usable and neither in
/// quarantine, excluded nor failing.
pub proof fn excluded_only_where_none_is_left(
    v: StatsView,
    list: Seq<(Seq<char>, u64)>,
    search: Search,
    k: int,
)
    requires
        0 <= k < list.len(),
        !regions::info_node(list[k].0),
        !regions::unsupported(list[k].0),
        !v.in_quarantine(list[k].0, search.now),
        !search.excluded.contains(list[k].0),
        search.failing != Some(list[k].0),
    ensures
        choice(v, list, search) matches Some(name) && !search.excluded.contains(name),
{
    let p = |c: (Seq<char>, u64)| !regions::info_node(c.0) && !regions::unsupported(c.0);
    let q = |c: (Seq<char>, u64)| !v.in_quarantine(c.0, search.now);
    assert(p(list[k]));
    list.lemma_filter_contains(p, k);
    let pool = usable(list);
    let j = choose|j: int| 0 <= j < pool.len() && pool[j] == list[k];
    assert(q(pool[j]));
    pool.lemma_filter_contains(q, j);
    let active = free(v, pool, search.now);
    let m = choose|m: int| 0 <= m < active.len() && active[m] == list[k];
    assert(names(active)[m] == list[k].0);
    excluded_node_is_avoided(v, list, search, list[k].0);
}

/// Without candidates there is no node among which the choice is made.
proof fn nothing_is_active(v: StatsView, list: Seq<(Seq<char>, u64)>, now: i64)
    ensures
        list.len() == 0 ==> active_pool(v, list, now).len() == 0,
{
    if list.len() == 0 {
        assert(usable(list).len() == 0);
    }
}

/// Where a region that is not cooling down has a node to take, one is found.
proof fn open_region_is_found(
    v: StatsView,
    list: Seq<(Seq<char>, u64)>,
    order: Seq<Seq<char>>,
    search: Search,
    rested: bool,
    k: int,
)
    requires
        0 <= k < order.len(),
        !v.region_cooling(order[k], search.now),
        suiting(v, list, search.within(order[k], rested)).len() > 0,
    ensures
        first_in_order(v, list, order, search, rested) is Some,
    decreases k,
{
    let here = suiting(v, list, search.within(order[0], rested));
    if k > 0 && (v.region_cooling(order[0], search.now) || here.len() == 0) {
        assert(order.drop_first()[k - 1] == order[k]);
        open_region_is_found(v, list, order.drop_first(), search, rested, k - 1);
    }
}

/// Where regions matter and the consensus anchor does not snap back, the choice is a node of the
/// first region in order that is not cooling down and has a node that is not cooling down, failing
/// or excluded; and no node of that kind in that region ranks ahead of it.
pub proof fn region_priority_decides(
    v: StatsView,
    list: Seq<(Seq<char>, u64)>,
    search: Search,
    k: int,
)
    requires
        v.enabled,
        v.consensus() matches Some(anchor) ==> !snaps_back(v, list, search, anchor),
        0 <= k < region_order(list, v.region_priority).len(),
        !v.region_cooling(region_order(list, v.region_priority)[k], search.now),
        suiting(
            v,
            list,
            search.within(region_order(list, v.region_priority)[k], true),
        ).len() > 0,
        forall|j: int|
            0 <= j < k ==> v.region_cooling(
                #[trigger] region_order(list, v.region_priority)[j],
                search.now,
            ) || suiting(
                v,
                list,
                search.within(region_order(list, v.region_priority)[j], true),
            ).len() == 0,
    ensures
        two_tier_choice(v, list, search) == Some(
            leader(
                suiting(
                    v,
                    list,
                    search.within(region_order(list, v.region_priority)[k], true),
                ),
            ).0,
        ),
{
    first_open_region(v, list, region_order(list, v.region_priority), search, k);
}

/// The first region that has a node to take is the one from which it is taken.
proof fn first_open_region(
    v: StatsView,
    list: Seq<(Seq<char>, u64)>,
    order: Seq<Seq<char>>,
    search: Search,
    k: int,
)
    requires
        0 <= k < order.len(),
        !v.region_cooling(order[k], search.now),
        suiting(v, list, search.within(order[k], true)).len() > 0,
        forall|j: int|
            0 <= j < k ==> v.region_cooling(#[trigger] order[j], search.now) || suiting(
                v,
                list,
                search.within(order[j], true),
            ).len() == 0,
    ensures
        first_in_order(v, list, order, search, true) == pick(
            v.enabled,
            suiting(v, list, search.within(order[k], true)),
        ),
    decreases k,
{
    if k > 0 {
        assert(v.region_cooling(order[0], search.now) || suiting(
            v,
            list,
            search.within(order[0], true),
        ).len() == 0);
        let rest = order.drop_first();
        assert forall|j: int| 0 <= j < k - 1 implies v.region_cooling(
            #[trigger] rest[j],
            search.now,
        ) || suiting(v, list, search.within(rest[j], true)).len() == 0 by {
            assert(rest[j] == order[j + 1]);
        }
        first_open_region(v, list, rest, search, k - 1);
    }
}

/// The order of regions has each region of a node of the list, and none twice.
pub proof fn order_has_every_region(list: Seq<(Seq<char>, u64)>, priority: Seq<Seq<char>>, k: int)
    requires
        0 <= k < list.len(),
    ensures
        region_order(list, priority).contains(regions::region_of(list[k].0, priority)),
        region_order(list, priority).no_duplicates(),
{
    let seen = regions_seen(list, priority);
    let region = regions::region_of(list[k].0, priority);
    seen_has_region(list, priority, k);
    preferred_is_distinct(seen, priority);
    let order = preferred(seen, priority);
    others_are_added(order, seen);
    let all = and_the_others(order, seen);
    if region_order(list, priority).len() > all.len() {
        let whole = region_order(list, priority);
        assert(whole[all.len() as int] == "其他"@);
        if all.contains(region) {
            let m = choose|m: int| 0 <= m < all.len() && all[m] == region;
            assert(whole[m] == region);
        }
    }
}

proof fn seen_has_region(list: Seq<(Seq<char>, u64)>, priority: Seq<Seq<char>>, k: int)
    requires
        0 <= k < list.len(),
    ensures
        regions_seen(list, priority).contains(regions::region_of(list[k].0, priority)),
    decreases list.len(),
{
    let region = regions::region_of(list[k].0, priority);
    let before = regions_seen(list.drop_last(), priority);
    let seen = regions_seen(list, priority);
    if k < list.len() - 1 {
        assert(list.drop_last()[k] == list[k]);
        seen_has_region(list.drop_last(), priority, k);
        let m = choose|m: int| 0 <= m < before.len() && before[m] == region;
        assert(seen[m] == region);
    } else if !before.contains(region) {
        assert(seen[before.len() as int] == region);
    }
}

proof fn followers_are_distinct(order: Seq<Seq<char>>, seen: Seq<Seq<char>>, target: Seq<char>)
    requires
        order.no_duplicates(),
    ensures
        followed_by(order, seen, target).no_duplicates(),
        followed_by(order, seen, target).len() >= order.len(),
        followed_by(order, seen, target).take(order.len() as int) == order,
    decreases seen.len(),
{
    if seen.len() > 0 {
        followers_are_distinct(order, seen.drop_last(), target);
        let before = followed_by(order, seen.drop_last(), target);
        let after = followed_by(order, seen, target);
        assert(after.take(order.len() as int) =~= before.take(order.len() as int));
    } else {
        assert(order.take(order.len() as int) =~= order);
    }
}

proof fn preferred_is_distinct(seen: Seq<Seq<char>>, priority: Seq<Seq<char>>)
    ensures
        preferred(seen, priority).no_duplicates(),
    decreases priority.len(),
{
    if priority.len() > 0 {
        preferred_is_distinct(seen, priority.drop_last());
        followers_are_distinct(preferred(seen, priority.drop_last()), seen, priority.last());
    }
}

proof fn others_are_added(order: Seq<Seq<char>>, seen: Seq<Seq<char>>)
    requires
        order.no_duplicates(),
    ensures
        and_the_others(order, seen).no_duplicates(),
        and_the_others(order, seen).len() >= order.len(),
        and_the_others(order, seen).take(order.len() as int) == order,
        forall|region: Seq<char>| #[trigger]
            seen.contains(region) && region != "其他"@ ==> and_the_others(order, seen).contains(
                region,
            ),
    decreases seen.len(),
{
    let after = and_the_others(order, seen);
    if seen.len() > 0 {
        let front = seen.drop_last();
        others_are_added(order, front);
        let before = and_the_others(order, front);
        assert(after.take(order.len() as int) =~= before.take(order.len() as int));
        assert forall|region: Seq<char>| #[trigger]
            seen.contains(region) && region != "其他"@ implies after.contains(region) by {
            let k = choose|k: int| 0 <= k < seen.len() && seen[k] == region;
            if k < front.len() {
                assert(front[k] == region);
                assert(front.contains(region));
                let m = choose|m: int| 0 <= m < before.len() && before[m] == region;
                assert(after[m] == region);
            } else if !before.contains(region) {
                assert(after[before.len() as int] == region);
            } else {
                let m = choose|m: int| 0 <= m < before.len() && before[m] == region;
                assert(after[m] == region);
            }
        }
    } else {
        assert(order.take(order.len() as int) =~= order);
    }
}

/// The regions that are on the list of priorities are tried before all others, and those that
/// are its first entry before those that come on it later.
pub proof fn priority_comes_first(list: Seq<(Seq<char>, u64)>, priority: Seq<Seq<char>>)
    ensures
        ({
            let first = preferred(regions_seen(list, priority), priority);
            region_order(list, priority).take(first.len() as int) == first
        }),
        forall|k: int|
            0 <= k <= priority.len() ==> {
                let earlier = preferred(
                    regions_seen(list, priority),
                    #[trigger] priority.take(k),
                );
                preferred(regions_seen(list, priority), priority).take(earlier.len() as int)
                    == earlier
            },
{
    let seen = regions_seen(list, priority);
    let first = preferred(seen, priority);
    preferred_is_distinct(seen, priority);
    others_are_added(first, seen);
    let all = and_the_others(first, seen);
    assert(region_order(list, priority).take(first.len() as int) =~= all.take(first.len() as int));
    assert forall|k: int| 0 <= k <= priority.len() implies {
        let earlier = preferred(seen, #[trigger] priority.take(k));
        preferred(seen, priority).take(earlier.len() as int) == earlier
    } by {
        preferred_grows(seen, priority, k);
    }
}

proof fn preferred_grows(seen: Seq<Seq<char>>, priority: Seq<Seq<char>>, k: int)
    requires
        0 <= k <= priority.len(),
    ensures
        preferred(seen, priority).len() >= preferred(seen, priority.take(k)).len(),
        preferred(seen, priority).take(preferred(seen, priority.take(k)).len() as int)
            == preferred(seen, priority.take(k)),
    decreases priority.len(),
{
    let earlier = preferred(seen, priority.take(k));
    if k == priority.len() {
        assert(priority.take(k) =~= priority);
        assert(earlier.take(earlier.len() as int) =~= earlier);
    } else {
        let front = priority.drop_last();
        assert(front.take(k) =~= priority.take(k));
        preferred_grows(seen, front, k);
        preferred_is_distinct(seen, front);
        followers_are_distinct(preferred(seen, front), seen, priority.last());
        let all = preferred(seen, priority);
        let most = preferred(seen, front);
        assert(all.take(earlier.len() as int) =~= all.take(most.len() as int).take(
            earlier.len() as int,
        ));
    }
}

/// Where the list of priorities first has a region; behind its end where it does not.
pub open spec fn precedence(region: Seq<char>, priority: Seq<Seq<char>>) -> int
    decreases priority.len(),
{
    if priority.len() == 0 || regions::same_region(region, priority[0]) {
        0
    } else {
        1 + precedence(region, priority.drop_first())
    }
}

/// Where a list of priorities has a region is where the list without its last entry has it; where
/// that does not, it is the last entry or none.
proof fn precedence_by_front(region: Seq<char>, priority: Seq<Seq<char>>)
    requires
        priority.len() > 0,
    ensures
        ({
            let front = priority.drop_last();
            let before = precedence(region, front);
            &&& 0 <= before <= front.len()
            &&& precedence(region, priority) == (if before < front.len() {
                before
            } else if regions::same_region(region, priority.last()) {
                front.len() as int
            } else {
                priority.len() as int
            })
        }),
    decreases priority.len(),
{
    if priority.len() > 1 {
        let rest = priority.drop_first();
        assert(rest.drop_last() =~= priority.drop_last().drop_first());
        assert(rest.last() == priority.last());
        assert(priority.drop_last()[0] == priority[0]);
        precedence_by_front(region, rest);
    } else {
        reveal_with_fuel(precedence, 2);
        assert(priority.last() == priority[0]);
    }
}

/// What follows is on the list of regions seen, is the target and was not there before; and every
/// region seen that is the target is there.
proof fn followers_match(order: Seq<Seq<char>>, seen: Seq<Seq<char>>, target: Seq<char>)
    ensures
        ({
            let after = followed_by(order, seen, target);
            &&& after.len() >= order.len()
            &&& forall|i: int| 0 <= i < order.len() ==> #[trigger] after[i] == order[i]
            &&& forall|i: int|
                order.len() <= i < after.len() ==> seen.contains(#[trigger] after[i])
                    && !order.contains(after[i]) && regions::same_region(after[i], target)
            &&& forall|region: Seq<char>| #[trigger]
                seen.contains(region) && regions::same_region(region, target) ==> after.contains(
                    region,
                )
        }),
    decreases seen.len(),
{
    let after = followed_by(order, seen, target);
    if seen.len() > 0 {
        let front = seen.drop_last();
        let before = followed_by(order, front, target);
        followers_match(order, front, target);
        assert forall|i: int| order.len() <= i < after.len() implies seen.contains(
            #[trigger] after[i],
        ) && !order.contains(after[i]) && regions::same_region(after[i], target) by {
            if i < before.len() {
                assert(after[i] == before[i]);
                let k = choose|k: int| 0 <= k < front.len() && front[k] == before[i];
                assert(seen[k] == after[i]);
            } else {
                assert(seen[seen.len() - 1] == after[i]);
                if order.contains(after[i]) {
                    let k = choose|k: int| 0 <= k < order.len() && order[k] == after[i];
                    assert(before[k] == after[i]);
                }
            }
        }
        assert forall|region: Seq<char>| #[trigger]
            seen.contains(region) && regions::same_region(
                region,
                target,
            ) implies after.contains(region) by {
            let k = choose|k: int| 0 <= k < seen.len() && seen[k] == region;
            if k < front.len() {
                assert(front[k] == region);
                assert(front.contains(region));
            }
            if before.contains(region) {
                let m = choose|m: int| 0 <= m < before.len() && before[m] == region;
                assert(after[m] == region);
            } else {
                assert(after[before.len() as int] == region);
            }
        }
    }
}

/// The regions of `order` stand in the order in which the list of priorities first has them.
spec fn by_precedence(order: Seq<Seq<char>>, priority: Seq<Seq<char>>) -> bool {
    forall|i: int, j: int|
        0 <= i < j < order.len() ==> precedence(#[trigger] order[i], priority) <= precedence(
            #[trigger] order[j],
            priority,
        )
}

/// The preferred regions are those seen that the list of priorities has, in its order.
proof fn preferred_by_precedence(seen: Seq<Seq<char>>, priority: Seq<Seq<char>>)
    ensures
        ({
            let order = preferred(seen, priority);
            &&& by_precedence(order, priority)
            &&& forall|i: int|
                0 <= i < order.len() ==> 0 <= precedence(#[trigger] order[i], priority)
                    < priority.len()
            &&& forall|region: Seq<char>| #[trigger]
                seen.contains(region) && precedence(region, priority) < priority.len()
                    ==> order.contains(region)
        }),
    decreases priority.len(),
{
    if priority.len() > 0 {
        let front = priority.drop_last();
        let before = preferred(seen, front);
        let order = preferred(seen, priority);
        preferred_by_precedence(seen, front);
        followers_match(before, seen, priority.last());
        assert forall|i: int| 0 <= i < order.len() implies 0 <= precedence(
            #[trigger] order[i],
            priority,
        ) < priority.len() && (if i < before.len() {
            order[i] == before[i] && precedence(order[i], priority) == precedence(before[i], front)
        } else {
            precedence(order[i], priority) == front.len()
        }) by {
            precedence_by_front(order[i], priority);
            if i < before.len() {
                assert(order[i] == before[i]);
            } else {
                assert(seen.contains(order[i]) && !before.contains(order[i]));
            }
        }
        assert forall|i: int, j: int| 0 <= i < j < order.len() implies precedence(
            #[trigger] order[i],
            priority,
        ) <= precedence(#[trigger] order[j], priority) by {
            if j < before.len() {
                assert(precedence(before[i], front) <= precedence(before[j], front));
            }
        }
        assert forall|region: Seq<char>| #[trigger]
            seen.contains(region) && precedence(region, priority)
                < priority.len() implies order.contains(region) by {
            precedence_by_front(region, priority);
            if precedence(region, front) < front.len() {
                let m = choose|m: int| 0 <= m < before.len() && before[m] == region;
                assert(order[m] == region);
            }
        }
    }
}

/// The others are on the list of regions seen and were not there before.
proof fn others_are_new(order: Seq<Seq<char>>, seen: Seq<Seq<char>>)
    ensures
        ({
            let after = and_the_others(order, seen);
            &&& after.len() >= order.len()
            &&& forall|i: int| 0 <= i < order.len() ==> #[trigger] after[i] == order[i]
            &&& forall|i: int|
                order.len() <= i < after.len() ==> seen.contains(#[trigger] after[i])
                    && !order.contains(after[i])
        }),
    decreases seen.len(),
{
    if seen.len() > 0 {
        let front = seen.drop_last();
        let before = and_the_others(order, front);
        let after = and_the_others(order, seen);
        others_are_new(order, front);
        assert forall|i: int| order.len() <= i < after.len() implies seen.contains(
            #[trigger] after[i],
        ) && !order.contains(after[i]) by {
            if i < before.len() {
                assert(after[i] == before[i]);
                let k = choose|k: int| 0 <= k < front.len() && front[k] == before[i];
                assert(seen[k] == after[i]);
            } else {
                assert(seen[seen.len() - 1] == after[i]);
                if order.contains(after[i]) {
                    let k = choose|k: int| 0 <= k < order.len() && order[k] == after[i];
                    assert(before[k] == after[i]);
                }
            }
        }
    }
}

/// Regions are tried in the order in which the list of priorities first has them, and those that it
/// does not have after all that it has.
pub proof fn order_is_by_precedence(
    list: Seq<(Seq<char>, u64)>,
    priority: Seq<Seq<char>>,
    i: int,
    j: int,
)
    requires
        0 <= i < j < region_order(list, priority).len(),
    ensures
        precedence(region_order(list, priority)[i], priority) <= precedence(
            region_order(list, priority)[j],
            priority,
        ),
{
    let seen = regions_seen(list, priority);
    let first = preferred(seen, priority);
    let all = and_the_others(first, seen);
    let order = region_order(list, priority);
    preferred_by_precedence(seen, priority);
    others_are_new(first, seen);
    precedence_is_bounded(order[i], priority);
    if j < first.len() {
        assert(order[i] == first[i] && order[j] == first[j]);
    } else {
        if j < all.len() {
            assert(order[j] == all[j]);
        } else if first.contains(order[j]) {
            let m = choose|m: int| 0 <= m < first.len() && first[m] == order[j];
            assert(all[m] == order[j]);
        }
        assert(seen.contains(order[j]) && !first.contains(order[j]));
    }
}

/// A region is on the list of priorities or behind its end.
proof fn precedence_is_bounded(region: Seq<char>, priority: Seq<Seq<char>>)
    ensures
        0 <= precedence(region, priority) <= priority.len(),
    decreases priority.len(),
{
    if priority.len() > 0 {
        precedence_is_bounded(region, priority.drop_first());
    }
}

/// A node can be taken at once: it is a candidate and neither excluded, failing nor cooling down, and
/// its region is not cooling down.
pub open spec fn available(
    v: StatsView,
    list: Seq<(Seq<char>, u64)>,
    search: Search,
    name: Seq<char>,
) -> bool {
    &&& names(list).contains(name)
    &&& suits(v, search.anywhere(true), name)
    &&& !v.region_cooling(regions::region_of(name, v.region_priority), search.now)
}

/// Without a consensus anchor, and where a node is available, the choice is an available node; no
/// available node is in a region that the list of priorities has earlier, where regions that it does
/// not have come after all that it has; and among the available nodes of its region the choice is
/// the one that leads.
pub proof fn first_region_and_best_node(
    v: StatsView,
    list: Seq<(Seq<char>, u64)>,
    search: Search,
    other: Seq<char>,
)
    requires
        v.consensus() is None,
        available(v, list, search, other),
    ensures
        ({
            let chosen = two_tier_choice(v, list, search);
            let region = regions::region_of(chosen->0, v.region_priority);
            &&& chosen is Some
            &&& available(v, list, search, chosen->0)
            &&& precedence(region, v.region_priority) <= precedence(
                regions::region_of(other, v.region_priority),
                v.region_priority,
            )
            &&& chosen == pick(v.enabled, suiting(v, list, search.within(region, true)))
        }),
{
    let order = region_order(list, v.region_priority);
    let there = regions::region_of(other, v.region_priority);
    let at = choose|at: int| 0 <= at < names(list).len() && names(list)[at] == other;
    order_has_every_region(list, v.region_priority, at);
    let m = choose|m: int| 0 <= m < order.len() && order[m] == there;
    suiting_is_found(v, list, search.within(there, true), other);
    let k = first_with_node(v, list, order, search, m);
    first_open_region(v, list, order, search, k);
    let here = suiting(v, list, search.within(order[k], true));
    picks_from(v.enabled, here);
    suiting_suits(v, list, search.within(order[k], true), pick(v.enabled, here)->0);
    if k < m {
        order_is_by_precedence(list, v.region_priority, k, m);
    }
}

/// Where a region has a node to take, there is a first that has one.
proof fn first_with_node(
    v: StatsView,
    list: Seq<(Seq<char>, u64)>,
    order: Seq<Seq<char>>,
    search: Search,
    m: int,
) -> (k: int)
    requires
        0 <= m < order.len(),
        !v.region_cooling(order[m], search.now),
        suiting(v, list, search.within(order[m], true)).len() > 0,
    ensures
        0 <= k <= m,
        !v.region_cooling(order[k], search.now),
        suiting(v, list, search.within(order[k], true)).len() > 0,
        forall|j: int|
            0 <= j < k ==> v.region_cooling(#[trigger] order[j], search.now) || suiting(
                v,
                list,
                search.within(order[j], true),
            ).len() == 0,
    decreases m,
{
    if exists|j: int|
        0 <= j < m && !v.region_cooling(#[trigger] order[j], search.now) && suiting(
            v,
            list,
            search.within(order[j], true),
        ).len() > 0 {
        let j = choose|j: int|
            0 <= j < m && !v.region_cooling(#[trigger] order[j], search.now) && suiting(
                v,
                list,
                search.within(order[j], true),
            ).len() > 0;
        first_with_node(v, list, order, search, j)
    } else {
        m
    }
}

/// A ranked list begins with the node that leads, in whatever order the same nodes stood before.
pub proof fn ranking_begins_with_leader(
    list: Seq<(Seq<char>, u64)>,
    sorted: Seq<(Seq<char>, u64)>,
)
    requires
        list.len() > 0,
        sorted.to_multiset() == list.to_multiset(),
        ranked(sorted),
    ensures
        sorted.len() > 0 && sorted[0] == leader(list),
{
    let best = leader(list);
    leader_leads(list);
    list.to_multiset_ensures();
    sorted.to_multiset_ensures();
    assert(sorted.len() == sorted.to_multiset().len());
    assert(list.to_multiset().count(best) > 0);
    assert(sorted.contains(best));
    let k = choose|k: int| 0 <= k < sorted.len() && sorted[k] == best;
    assert(sorted.contains(sorted[0]));
    assert(sorted.to_multiset().count(sorted[0]) > 0);
    assert(list.contains(sorted[0]));
    let m = choose|m: int| 0 <= m < list.len() && list[m] == sorted[0];
    assert(!ahead(list[m], best));
    if k > 0 {
        assert(!ahead(sorted[k], sorted[0]));
    }
    ranking_is_an_order(sorted[0], best, best);
}

/// Nothing speaks against the node called `name`: it is no announcement or policy, it is in a place
/// that is served, and it is neither in quarantine, excluded, failing nor cooling down.
pub open spec fn fit(v: StatsView, search: Search, name: Seq<char>) -> bool {
    &&& !regions::info_node(name)
    &&& !regions::unsupported(name)
    &&& !v.in_quarantine(name, search.now)
    &&& !search.excluded.contains(name)
    &&& search.failing != Some(name)
    &&& !v.cooling(name, search.now)
}

/// The region of the node called `name` is cooling down.
pub open spec fn region_rests(v: StatsView, search: Search, name: Seq<char>) -> bool {
    v.region_cooling(regions::region_of(name, v.region_priority), search.now)
}

/// Wherever the list of priorities has the region of `other`, it has that of `name` there or
/// earlier.
pub open spec fn no_later(v: StatsView, name: Seq<char>, other: Seq<char>) -> bool {
    forall|j: int|
        0 <= j < v.region_priority.len() && regions::same_region(
            regions::region_of(other, v.region_priority),
            #[trigger] v.region_priority[j],
        ) ==> exists|i: int|
            0 <= i <= j && regions::same_region(
                regions::region_of(name, v.region_priority),
                #[trigger] v.region_priority[i],
            )
}

/// With or without a consensus anchor, as long as there is a candidate against which nothing speaks
/// in a region that is not cooling down, such a one is chosen; and no other such candidate is in a
/// region that the list of priorities has earlier. So the anchor is never taken past one.
pub proof fn no_earlier_region_is_passed_over(
    v: StatsView,
    list: Seq<(Seq<char>, u64)>,
    search: Search,
    k: int,
)
    requires
        v.by_region,
        0 <= k < list.len(),
        fit(v, search, list[k].0),
        !region_rests(v, search, list[k].0),
    ensures
        choice(v, list, search) matches Some(name) && names(list).contains(name) && fit(
            v,
            search,
            name,
        ) && !region_rests(v, search, name) && no_later(v, name, list[k].0),
{
    let other = list[k].0;
    let active = active_pool(v, list, search.now);
    fit_is_active(v, list, search, k);
    first_region_with_a_node(v, active, search, other);
    choice_is_usable(v, list, search, k);
    choice_is_not_in_quarantine(v, list, search, k);
    choice_is_a_candidate(v, list, search);
    let name = choice(v, list, search)->0;
    earlier_is_no_later(v, name, other);
}

/// What has no higher precedence is on the list of priorities at the same place or earlier.
proof fn earlier_is_no_later(v: StatsView, name: Seq<char>, other: Seq<char>)
    requires
        precedence(regions::region_of(name, v.region_priority), v.region_priority) <= precedence(
            regions::region_of(other, v.region_priority),
            v.region_priority,
        ),
    ensures
        no_later(v, name, other),
{
    let a = regions::region_of(name, v.region_priority);
    let b = regions::region_of(other, v.region_priority);
    precedence_is_first(a, v.region_priority);
    precedence_is_first(b, v.region_priority);
    assert forall|j: int|
        0 <= j < v.region_priority.len() && regions::same_region(
            b,
            #[trigger] v.region_priority[j],
        ) implies exists|i: int|
        0 <= i <= j && regions::same_region(a, #[trigger] v.region_priority[i]) by {
        let i = precedence(a, v.region_priority);
        assert(i <= precedence(b, v.region_priority) <= j);
        assert(regions::same_region(a, v.region_priority[i]));
    }
}

/// The precedence of a region is the first place at which the list of priorities has it.
pub proof fn precedence_is_first(region: Seq<char>, priority: Seq<Seq<char>>)
    ensures
        0 <= precedence(region, priority) <= priority.len(),
        precedence(region, priority) < priority.len() ==> regions::same_region(
            region,
            priority[precedence(region, priority)],
        ),
        forall|j: int|
            0 <= j < precedence(region, priority) ==> !regions::same_region(
                region,
                #[trigger] priority[j],
            ),
    decreases priority.len(),
{
    if priority.len() > 0 && !regions::same_region(region, priority[0]) {
        let rest = priority.drop_first();
        precedence_is_first(region, rest);
        assert forall|j: int| 0 <= j < precedence(region, priority) implies !regions::same_region(
            region,
            #[trigger] priority[j],
        ) by {
            if j > 0 {
                assert(!regions::same_region(region, rest[j - 1]));
            }
        }
    }
}

/// A candidate against which nothing speaks is among those between which the choice is made, and
/// so is every candidate with the same name.
proof fn fit_is_active(v: StatsView, list: Seq<(Seq<char>, u64)>, search: Search, k: int)
    requires
        0 <= k < list.len(),
        !regions::info_node(list[k].0),
        !regions::unsupported(list[k].0),
        !v.in_quarantine(list[k].0, search.now),
    ensures
        active_pool(v, list, search.now).contains(list[k]),
        names(active_pool(v, list, search.now)).contains(list[k].0),
        forall|c: (Seq<char>, u64)| #[trigger]
            active_pool(v, list, search.now).contains(c) ==> list.contains(c)
                && !regions::info_node(c.0) && !regions::unsupported(c.0) && !v.in_quarantine(
                c.0,
                search.now,
            ),
{
    let p = |c: (Seq<char>, u64)| !regions::info_node(c.0) && !regions::unsupported(c.0);
    let q = |c: (Seq<char>, u64)| !v.in_quarantine(c.0, search.now);
    assert(p(list[k]));
    list.lemma_filter_contains(p, k);
    let pool = usable(list);
    let j = choose|j: int| 0 <= j < pool.len() && pool[j] == list[k];
    assert(q(pool[j]));
    pool.lemma_filter_contains(q, j);
    let active = free(v, pool, search.now);
    assert(active == active_pool(v, list, search.now));
    let m = choose|m: int| 0 <= m < active.len() && active[m] == list[k];
    assert(names(active)[m] == list[k].0);
    assert forall|c: (Seq<char>, u64)| #[trigger] active.contains(c) implies list.contains(c)
        && !regions::info_node(c.0) && !regions::unsupported(c.0) && !v.in_quarantine(
        c.0,
        search.now,
    ) by {
        let i = choose|i: int| 0 <= i < active.len() && active[i] == c;
        assert(q(active[i]));
        pool.lemma_filter_contains_rev(q, c);
        let n = choose|n: int| 0 <= n < pool.len() && pool[n] == c;
        assert(p(pool[n]));
        list.lemma_filter_contains_rev(p, c);
    }
}

/// A region that an order has stands at its place in it, and not earlier.
proof fn place_is_found(order: Seq<Seq<char>>, region: Seq<char>)
    ensures
        0 <= place_in(order, region) <= order.len(),
        place_in(order, region) < order.len() ==> order[place_in(order, region)] == region,
        order.contains(region) ==> place_in(order, region) < order.len(),
        forall|j: int| 0 <= j < place_in(order, region) ==> #[trigger] order[j] != region,
    decreases order.len(),
{
    if order.len() > 0 && order[0] != region {
        let rest = order.drop_first();
        place_is_found(rest, region);
        if order.contains(region) {
            let k = choose|k: int| 0 <= k < order.len() && order[k] == region;
            assert(rest[k - 1] == region);
        }
        assert forall|j: int| 0 <= j < place_in(order, region) implies #[trigger] order[j]
            != region by {
            if j > 0 {
                assert(rest[j - 1] != region);
            }
        }
    }
}

/// Where a node is available, the two-tier choice is one, and no available node is in a region of
/// a higher precedence; it is the anchor or the one to pick from its region.
proof fn first_region_with_a_node(
    v: StatsView,
    list: Seq<(Seq<char>, u64)>,
    search: Search,
    other: Seq<char>,
)
    requires
        available(v, list, search, other),
    ensures
        ({
            let chosen = two_tier_choice(v, list, search);
            let region = regions::region_of(chosen->0, v.region_priority);
            &&& chosen is Some
            &&& available(v, list, search, chosen->0)
            &&& precedence(region, v.region_priority) <= precedence(
                regions::region_of(other, v.region_priority),
                v.region_priority,
            )
            &&& chosen == v.consensus() || chosen == pick(
                v.enabled,
                suiting(v, list, search.within(region, true)),
            )
        }),
{
    let order = region_order(list, v.region_priority);
    let there = regions::region_of(other, v.region_priority);
    let at = choose|at: int| 0 <= at < names(list).len() && names(list)[at] == other;
    order_has_every_region(list, v.region_priority, at);
    let m = choose|m: int| 0 <= m < order.len() && order[m] == there;
    suiting_is_found(v, list, search.within(there, true), other);
    let back = match v.consensus() {
        Some(anchor) => snaps_back(v, list, search, anchor),
        None => false,
    };
    if back {
        let anchor = v.consensus()->0;
        let region = regions::region_of(anchor, v.region_priority);
        let n = place_in(order, region);
        let i = choose|i: int| 0 <= i < names(list).len() && names(list)[i] == anchor;
        order_has_every_region(list, v.region_priority, i);
        place_is_found(order, region);
        if m < n {
            let before = order.take(n);
            assert(before[m] == order[m]);
            open_region_is_found(v, list, before, search, true, m);
        }
        if n < m {
            order_is_by_precedence(list, v.region_priority, n, m);
        }
    } else {
        let k = first_with_node(v, list, order, search, m);
        first_open_region(v, list, order, search, k);
        let here = suiting(v, list, search.within(order[k], true));
        picks_from(v.enabled, here);
        suiting_suits(v, list, search.within(order[k], true), pick(v.enabled, here)->0);
        if k < m {
            order_is_by_precedence(list, v.region_priority, k, m);
        }
    }
}

/// The consensus anchor is gone back to where nothing speaks against it and every candidate against
/// which nothing speaks, in a region that is not cooling down, is in the same region or in one that
/// the list of priorities has later or not at all.
pub proof fn the_anchor_is_gone_back_to(
    v: StatsView,
    list: Seq<(Seq<char>, u64)>,
    search: Search,
    anchor: Seq<char>,
    place: int,
)
    requires
        v.by_region,
        v.consensus() == Some(anchor),
        names(list).contains(anchor),
        fit(v, search, anchor),
        !region_rests(v, search, anchor),
        0 <= place < v.region_priority.len(),
        regions::same_region(
            regions::region_of(anchor, v.region_priority),
            v.region_priority[place],
        ),
        forall|k: int|
            0 <= k < list.len() && fit(v, search, (#[trigger] list[k]).0) && !region_rests(
                v,
                search,
                list[k].0,
            ) ==> regions::region_of(list[k].0, v.region_priority) == regions::region_of(
                anchor,
                v.region_priority,
            ) || forall|j: int|
                0 <= j <= place ==> !regions::same_region(
                    regions::region_of(list[k].0, v.region_priority),
                    #[trigger] v.region_priority[j],
                ),
    ensures
        choice(v, list, search) == Some(anchor),
{
    let at = choose|at: int| 0 <= at < names(list).len() && names(list)[at] == anchor;
    assert(list[at].0 == anchor);
    fit_is_active(v, list, search, at);
    let active = active_pool(v, list, search.now);
    let order = region_order(active, v.region_priority);
    let region = regions::region_of(anchor, v.region_priority);
    let n = place_in(order, region);
    let i = choose|i: int| 0 <= i < names(active).len() && names(active)[i] == anchor;
    order_has_every_region(active, v.region_priority, i);
    place_is_found(order, region);
    let before = order.take(n);
    if higher_available(v, active, order, search, region) {
        found_in_order(v, active, before, search, true);
        let name = first_in_order(v, active, before, search, true)->0;
        let there = regions::region_of(name, v.region_priority);
        let m = choose|m: int| 0 <= m < before.len() && before[m] == there;
        assert(order[m] == there);
        order_is_by_precedence(active, v.region_priority, m, n);
        let c = choose|c: int| 0 <= c < names(active).len() && names(active)[c] == name;
        assert(active.contains(active[c]));
        let k = choose|k: int| 0 <= k < list.len() && list[k] == active[c];
        assert(fit(v, search, list[k].0));
        precedence_is_first(region, v.region_priority);
        precedence_is_first(there, v.region_priority);
        let p = precedence(there, v.region_priority);
        assert(p <= precedence(region, v.region_priority) <= place);
        assert(regions::same_region(there, v.region_priority[p]));
    }
}

/// Within its region the choice, unless it is the consensus anchor, is a candidate with the highest
/// score of all those of that region against which nothing speaks; of several with the same score,
/// the one whose name comes first.
pub proof fn the_best_of_a_region_is_chosen(
    v: StatsView,
    list: Seq<(Seq<char>, u64)>,
    search: Search,
    k: int,
)
    requires
        v.enabled,
        v.by_region,
        0 <= k < list.len(),
        fit(v, search, list[k].0),
        !region_rests(v, search, list[k].0),
        choice(v, list, search) matches Some(name) && Some(name) != v.consensus()
            && regions::region_of(name, v.region_priority) == regions::region_of(
            list[k].0,
            v.region_priority,
        ),
    ensures
        exists|i: int|
            0 <= i < list.len() && choice(v, list, search) == Some((#[trigger] list[i]).0) && (
            list[i].1 > list[k].1 || list[i].1 == list[k].1 && !text::precedes(
                list[k].0,
                list[i].0,
            )),
{
    let active = active_pool(v, list, search.now);
    fit_is_active(v, list, search, k);
    first_region_with_a_node(v, active, search, list[k].0);
    let region = regions::region_of(list[k].0, v.region_priority);
    best_is_picked(v, list, active, search.within(region, true), k);
}

/// Of nodes that suit, the one that is picked by score is not behind any.
proof fn best_is_picked(
    v: StatsView,
    list: Seq<(Seq<char>, u64)>,
    active: Seq<(Seq<char>, u64)>,
    ask: Ask,
    k: int,
)
    requires
        0 <= k < list.len(),
        active.contains(list[k]),
        suits(v, ask, list[k].0),
        forall|c: (Seq<char>, u64)| #[trigger] active.contains(c) ==> list.contains(c),
    ensures
        exists|i: int|
            0 <= i < list.len() && pick(true, suiting(v, active, ask)) == Some(
                (#[trigger] list[i]).0,
            ) && (list[i].1 > list[k].1 || list[i].1 == list[k].1 && !text::precedes(
                list[k].0,
                list[i].0,
            )),
{
    let p = |c: (Seq<char>, u64)| suits(v, ask, c.0);
    let here = suiting(v, active, ask);
    let m = choose|m: int| 0 <= m < active.len() && active[m] == list[k];
    assert(p(active[m]));
    active.lemma_filter_contains(p, m);
    leader_leads(here);
    let best = leader(here);
    active.lemma_filter_contains_rev(p, best);
    assert(active.contains(best));
    let i = choose|i: int| 0 <= i < list.len() && list[i] == best;
    let n = choose|n: int| 0 <= n < here.len() && here[n] == list[k];
    assert(!ahead(here[n], best));
    assert(pick(true, here) == Some(list[i].0));
}

/// Where regions do not matter, as long as there is a candidate against which nothing speaks, the
/// choice is one with the highest score of all such; of several with the same score, the one whose
/// name comes first.
pub proof fn the_best_of_all_is_chosen(
    v: StatsView,
    list: Seq<(Seq<char>, u64)>,
    search: Search,
    k: int,
)
    requires
        v.enabled,
        !v.by_region,
        0 <= k < list.len(),
        fit(v, search, list[k].0),
    ensures
        choice(v, list, search) matches Some(name) && fit(v, search, name),
        exists|i: int|
            0 <= i < list.len() && choice(v, list, search) == Some((#[trigger] list[i]).0) && (
            list[i].1 > list[k].1 || list[i].1 == list[k].1 && !text::precedes(
                list[k].0,
                list[i].0,
            )),
{
    let active = active_pool(v, list, search.now);
    fit_is_active(v, list, search, k);
    suiting_is_found(v, active, search.anywhere(true), list[k].0);
    best_is_picked(v, list, active, search.anywhere(true), k);
    choice_is_suitable(v, list, search, true, list[k].0);
    choice_is_usable(v, list, search, k);
    choice_is_not_in_quarantine(v, list, search, k);
}

/// Without statistics, and where regions do not matter, the first candidate is chosen that is
/// usable and neither excluded nor failing.
pub proof fn without_statistics_the_first_is_chosen(
    v: StatsView,
    list: Seq<(Seq<char>, u64)>,
    search: Search,
    k: int,
)
    requires
        !v.enabled,
        !v.by_region,
        0 <= k < list.len(),
        fit(v, search, list[k].0),
        forall|j: int|
            0 <= j < k ==> regions::info_node((#[trigger] list[j]).0) || regions::unsupported(
                list[j].0,
            ) || search.excluded.contains(list[j].0) || search.failing == Some(list[j].0),
    ensures
        choice(v, list, search) == Some(list[k].0),
{
    let p = |c: (Seq<char>, u64)| !regions::info_node(c.0) && !regions::unsupported(c.0);
    let q = |c: (Seq<char>, u64)| !v.in_quarantine(c.0, search.now);
    let r = |c: (Seq<char>, u64)| suits(v, search.anywhere(true), c.0);
    fit_is_active(v, list, search, k);
    let pool = usable(list);
    let active = free(v, pool, search.now);
    all_pass(pool, q);
    let both = |c: (Seq<char>, u64)| p(c) && r(c);
    filter_twice(list, p, r);
    first_passes(list, both, k);
    suiting_is_found(v, active, search.anywhere(true), list[k].0);
}

proof fn all_pass(list: Seq<(Seq<char>, u64)>, p: spec_fn((Seq<char>, u64)) -> bool)
    requires
        forall|c: (Seq<char>, u64)| #[trigger] p(c),
    ensures
        list.filter(p) == list,
    decreases list.len(),
{
    reveal(Seq::filter);
    if list.len() > 0 {
        all_pass(list.drop_last(), p);
        assert(p(list.last()));
        assert(list.drop_last().push(list.last()) =~= list);
    } else {
        assert(list.filter(p) =~= list);
    }
}

proof fn filter_twice(
    list: Seq<(Seq<char>, u64)>,
    p: spec_fn((Seq<char>, u64)) -> bool,
    r: spec_fn((Seq<char>, u64)) -> bool,
)
    ensures
        list.filter(p).filter(r) == list.filter(|c: (Seq<char>, u64)| p(c) && r(c)),
    decreases list.len(),
{
    reveal(Seq::filter);
    let both = |c: (Seq<char>, u64)| p(c) && r(c);
    if list.len() > 0 {
        let front = list.drop_last();
        filter_twice(front, p, r);
        if p(list.last()) {
            let kept = front.filter(p).push(list.last());
            assert(kept.drop_last() =~= front.filter(p));
        }
    } else {
        assert(list.filter(p) =~= Seq::empty());
    }
}

proof fn first_passes(
    list: Seq<(Seq<char>, u64)>,
    p: spec_fn((Seq<char>, u64)) -> bool,
    k: int,
)
    requires
        0 <= k < list.len(),
        p(list[k]),
        forall|j: int| 0 <= j < k ==> !p(#[trigger] list[j]),
    ensures
        list.filter(p).len() > 0,
        list.filter(p)[0] == list[k],
    decreases list.len(),
{
    reveal(Seq::filter);
    let front = list.drop_last();
    if k < front.len() {
        assert(front[k] == list[k]);
        assert forall|j: int| 0 <= j < k implies !p(#[trigger] front[j]) by {
            assert(!p(list[j]));
        }
        first_passes(front, p, k);
    } else {
        none_pass(front, p);
    }
}

proof fn none_pass(list: Seq<(Seq<char>, u64)>, p: spec_fn((Seq<char>, u64)) -> bool)
    requires
        forall|j: int| 0 <= j < list.len() ==> !p(#[trigger] list[j]),
    ensures
        list.filter(p).len() == 0,
    decreases list.len(),
{
    reveal(Seq::filter);
    if list.len() > 0 {
        let front = list.drop_last();
        assert forall|j: int| 0 <= j < front.len() implies !p(#[trigger] front[j]) by {
            assert(!p(list[j]));
        }
        assert(!p(list[list.len() - 1]));
        none_pass(front, p);
    }
}

/// Where every usable candidate outside quarantine is excluded or failing and regions matter, the
/// consensus anchor is chosen though it is excluded, if it is one of them and not the failing one.
pub proof fn the_anchor_is_the_last_resort(
    v: StatsView,
    list: Seq<(Seq<char>, u64)>,
    search: Search,
    anchor: Seq<char>,
)
    requires
        v.by_region,
        v.consensus() == Some(anchor),
        names(list).contains(anchor),
        !regions::info_node(anchor),
        !regions::unsupported(anchor),
        !v.in_quarantine(anchor, search.now),
        search.failing != Some(anchor),
        forall|k: int|
            0 <= k < list.len() ==> regions::info_node((#[trigger] list[k]).0)
                || regions::unsupported(list[k].0) || v.in_quarantine(list[k].0, search.now)
                || search.excluded.contains(list[k].0) || search.failing == Some(list[k].0),
    ensures
        choice(v, list, search) == Some(anchor),
{
    let at = choose|at: int| 0 <= at < names(list).len() && names(list)[at] == anchor;
    assert(list[at].0 == anchor);
    fit_is_active(v, list, search, at);
    let active = active_pool(v, list, search.now);
    let order = region_order(active, v.region_priority);
    assert forall|name: Seq<char>| names(active).contains(name) implies search.excluded.contains(
        name,
    ) || search.failing == Some(name) by {
        let c = choose|c: int| 0 <= c < names(active).len() && names(active)[c] == name;
        assert(active.contains(active[c]));
        let k = choose|k: int| 0 <= k < list.len() && list[k] == active[c];
        assert(list[k].0 == name);
    }
    found_in_order(v, active, order, search, true);
    found_in_order(v, active, order, search, false);
    let eligible = suiting(v, active, search.anywhere(false));
    picks_from(v.enabled, eligible);
    if eligible.len() > 0 {
        suiting_suits(v, active, search.anywhere(false), pick(v.enabled, eligible)->0);
    }
}

/// Nodes are ranked by score, the highest first, and where scores are the same by name.
pub proof fn higher_scores_rank_first(list: Seq<(Seq<char>, u64)>, i: int, j: int)
    requires
        ranked(list),
        0 <= i < j < list.len(),
    ensures
        list[i].1 >= list[j].1,
        list[i].1 == list[j].1 ==> !text::precedes(list[j].0, list[i].0),
{
    assert(!ahead(list[j], list[i]));
}

/// The choice is neither excluded nor failing as long as there is a usable candidate outside
/// quarantine that is neither, whether or not it is cooling down.
pub proof fn choice_is_neither_excluded_nor_failing(
    v: StatsView,
    list: Seq<(Seq<char>, u64)>,
    search: Search,
    k: int,
)
    requires
        0 <= k < list.len(),
        !regions::info_node(list[k].0),
        !regions::unsupported(list[k].0),
        !v.in_quarantine(list[k].0, search.now),
        !search.excluded.contains(list[k].0),
        search.failing != Some(list[k].0),
    ensures
        choice(v, list, search) matches Some(name) && !search.excluded.contains(name)
            && search.failing != Some(name),
{
    fit_is_active(v, list, search, k);
    excluded_node_is_avoided(v, list, search, list[k].0);
}

/// The rest, which the list of priorities does not have, comes after every other region: no node of
/// it is chosen as long as there is a candidate of another region against which nothing speaks.
pub proof fn the_rest_comes_last(
    v: StatsView,
    list: Seq<(Seq<char>, u64)>,
    search: Search,
    k: int,
)
    requires
        v.by_region,
        0 <= k < list.len(),
        fit(v, search, list[k].0),
        !region_rests(v, search, list[k].0),
        regions::region_of(list[k].0, v.region_priority) != "其他"@,
        forall|j: int|
            0 <= j < v.region_priority.len() ==> !regions::same_region(
                "其他"@,
                #[trigger] v.region_priority[j],
            ),
    ensures
        choice(v, list, search) matches Some(name) && regions::region_of(name, v.region_priority)
            != "其他"@,
{
    let rest = "其他"@;
    let other = list[k].0;
    let active = active_pool(v, list, search.now);
    fit_is_active(v, list, search, k);
    let order = region_order(active, v.region_priority);
    let there = regions::region_of(other, v.region_priority);
    let at = choose|at: int| 0 <= at < names(active).len() && names(active)[at] == other;
    order_has_every_region(active, v.region_priority, at);
    let m = choose|m: int| 0 <= m < order.len() && order[m] == there;
    suiting_is_found(v, active, search.within(there, true), other);
    rest_is_last(active, v.region_priority);
    precedence_is_first(rest, v.region_priority);
    let back = match v.consensus() {
        Some(anchor) => snaps_back(v, active, search, anchor),
        None => false,
    };
    if back {
        let anchor = v.consensus()->0;
        let region = regions::region_of(anchor, v.region_priority);
        let n = place_in(order, region);
        let i = choose|i: int| 0 <= i < names(active).len() && names(active)[i] == anchor;
        order_has_every_region(active, v.region_priority, i);
        place_is_found(order, region);
        if m < n {
            let before = order.take(n);
            assert(before[m] == order[m]);
            open_region_is_found(v, active, before, search, true, m);
        }
        if region == rest {
            assert(order[n] == rest);
        }
    } else {
        let first = first_with_node(v, active, order, search, m);
        first_open_region(v, active, order, search, first);
        let here = suiting(v, active, search.within(order[first], true));
        picks_from(v.enabled, here);
        suiting_suits(v, active, search.within(order[first], true), pick(v.enabled, here)->0);
    }
}

/// Where the list of priorities does not have the rest, it is nowhere but at the end of the order.
proof fn rest_is_last(list: Seq<(Seq<char>, u64)>, priority: Seq<Seq<char>>)
    requires
        forall|j: int|
            0 <= j < priority.len() ==> !regions::same_region("其他"@, #[trigger] priority[j]),
    ensures
        forall|i: int|
            0 <= i < region_order(list, priority).len() && #[trigger] region_order(list, priority)[i]
                == "其他"@ ==> i == region_order(list, priority).len() - 1,
{
    let rest = "其他"@;
    let seen = regions_seen(list, priority);
    let first = preferred(seen, priority);
    let all = and_the_others(first, seen);
    preferred_by_precedence(seen, priority);
    precedence_is_first(rest, priority);
    assert forall|i: int| 0 <= i < first.len() implies #[trigger] first[i] != rest by {
        precedence_is_first(first[i], priority);
    }
    others_are_not_the_rest(first, seen);
    assert forall|i: int| 0 <= i < all.len() implies #[trigger] all[i] != rest by {}
    let order = region_order(list, priority);
    assert forall|i: int| 0 <= i < order.len() && #[trigger] order[i] == rest implies i
        == order.len() - 1 by {
        if i < all.len() {
            assert(all[i] == order[i]);
        }
    }
}

proof fn others_are_not_the_rest(order: Seq<Seq<char>>, seen: Seq<Seq<char>>)
    requires
        forall|i: int| 0 <= i < order.len() ==> #[trigger] order[i] != "其他"@,
    ensures
        forall|i: int|
            0 <= i < and_the_others(order, seen).len() ==> #[trigger] and_the_others(order, seen)[i]
                != "其他"@,
    decreases seen.len(),
{
    if seen.len() > 0 {
        others_are_not_the_rest(order, seen.drop_last());
        let before = and_the_others(order, seen.drop_last());
        let after = and_the_others(order, seen);
        assert forall|i: int| 0 <= i < after.len() implies #[trigger] after[i] != "其他"@ by {
            if i < before.len() {
                assert(after[i] == before[i]);
            }
        }
    }
}

/// Where every candidate that could be chosen is cooling down, or in a region that is, one that is
/// itself cooling down in a region that is not is chosen before any in a region that is, and none
/// in a region that the list of priorities has earlier is passed over.
pub proof fn tired_nodes_come_before_tired_regions(
    v: StatsView,
    list: Seq<(Seq<char>, u64)>,
    search: Search,
    k: int,
)
    requires
        v.by_region,
        0 <= k < list.len(),
        !regions::info_node(list[k].0),
        !regions::unsupported(list[k].0),
        !v.in_quarantine(list[k].0, search.now),
        !search.excluded.contains(list[k].0),
        search.failing != Some(list[k].0),
        !region_rests(v, search, list[k].0),
        forall|j: int|
            0 <= j < list.len() ==> !fit(v, search, (#[trigger] list[j]).0) || region_rests(
                v,
                search,
                list[j].0,
            ),
    ensures
        choice(v, list, search) matches Some(name) && !search.excluded.contains(name)
            && search.failing != Some(name) && !region_rests(v, search, name) && no_later(
            v,
            name,
            list[k].0,
        ),
{
    let other = list[k].0;
    let active = active_pool(v, list, search.now);
    fit_is_active(v, list, search, k);
    let order = region_order(active, v.region_priority);
    let there = regions::region_of(other, v.region_priority);
    let at = choose|at: int| 0 <= at < names(active).len() && names(active)[at] == other;
    order_has_every_region(active, v.region_priority, at);
    let m = choose|m: int| 0 <= m < order.len() && order[m] == there;
    suiting_is_found(v, active, search.within(there, false), other);
    assert forall|name: Seq<char>| names(active).contains(name) implies !fit(v, search, name)
        || region_rests(v, search, name) by {
        let c = choose|c: int| 0 <= c < names(active).len() && names(active)[c] == name;
        assert(active.contains(active[c]));
        let j = choose|j: int| 0 <= j < list.len() && list[j] == active[c];
        assert(list[j].0 == name);
    }
    assert forall|name: Seq<char>| names(active).contains(name) implies !regions::info_node(name)
        && !regions::unsupported(name) && !v.in_quarantine(name, search.now) by {
        let c = choose|c: int| 0 <= c < names(active).len() && names(active)[c] == name;
        assert(active.contains(active[c]));
    }
    found_in_order(v, active, order, search, true);
    first_tired_region(v, active, order, search, m);
    open_region_is_found(v, active, order, search, false, m);
    found_in_order(v, active, order, search, false);
    let name = choice(v, list, search)->0;
    let region = regions::region_of(name, v.region_priority);
    let n = choose|n: int| 0 <= n <= m && order[n] == region;
    if n < m {
        order_is_by_precedence(active, v.region_priority, n, m);
    }
    earlier_is_no_later(v, name, other);
}

/// What is found among nodes that may be cooling down is in a region that stands no later than any
/// that has one.
proof fn first_tired_region(
    v: StatsView,
    list: Seq<(Seq<char>, u64)>,
    order: Seq<Seq<char>>,
    search: Search,
    m: int,
)
    requires
        0 <= m < order.len(),
        !v.region_cooling(order[m], search.now),
        suiting(v, list, search.within(order[m], false)).len() > 0,
    ensures
        first_in_order(v, list, order, search, false) matches Some(name) && exists|n: int|
            0 <= n <= m && #[trigger] order[n] == regions::region_of(name, v.region_priority),
    decreases m,
{
    let here = suiting(v, list, search.within(order[0], false));
    if !v.region_cooling(order[0], search.now) && here.len() > 0 {
        picks_from(v.enabled, here);
        suiting_suits(v, list, search.within(order[0], false), pick(v.enabled, here)->0);
    } else {
        let rest = order.drop_first();
        assert(rest[m - 1] == order[m]);
        first_tired_region(v, list, rest, search, m - 1);
        let name = first_in_order(v, list, rest, search, false)->0;
        let n = choose|n: int|
            0 <= n <= m - 1 && #[trigger] rest[n] == regions::region_of(name, v.region_priority);
        assert(order[n + 1] == rest[n]);
    }
}

/// Where regions do not matter and every candidate that could be chosen is cooling down, the choice
/// is one with the highest score of those that are neither excluded nor failing.
pub proof fn the_best_of_the_tired_is_chosen(
    v: StatsView,
    list: Seq<(Seq<char>, u64)>,
    search: Search,
    k: int,
)
    requires
        v.enabled,
        !v.by_region,
        0 <= k < list.len(),
        !regions::info_node(list[k].0),
        !regions::unsupported(list[k].0),
        !v.in_quarantine(list[k].0, search.now),
        !search.excluded.contains(list[k].0),
        search.failing != Some(list[k].0),
        forall|j: int| 0 <= j < list.len() ==> !fit(v, search, (#[trigger] list[j]).0),
    ensures
        exists|i: int|
            0 <= i < list.len() && choice(v, list, search) == Some((#[trigger] list[i]).0) && (
            list[i].1 > list[k].1 || list[i].1 == list[k].1 && !text::precedes(
                list[k].0,
                list[i].0,
            )),
{
    let active = active_pool(v, list, search.now);
    fit_is_active(v, list, search, k);
    let rested = suiting(v, active, search.anywhere(true));
    picks_from(v.enabled, rested);
    if rested.len() > 0 {
        let name = pick(v.enabled, rested)->0;
        suiting_suits(v, active, search.anywhere(true), name);
        let c = choose|c: int| 0 <= c < names(active).len() && names(active)[c] == name;
        assert(active.contains(active[c]));
        let j = choose|j: int| 0 <= j < list.len() && list[j] == active[c];
        assert(fit(v, search, list[j].0));
    }
    suiting_is_found(v, active, search.anywhere(false), list[k].0);
    best_is_picked(v, list, active, search.anywhere(false), k);
}

/// Where regions do not matter and every candidate is excluded, none fails and there is no anchor,
/// the one that was excluded last is not chosen if another usable one outside quarantine is neither
/// that nor cooling down.
pub proof fn the_one_excluded_last_is_avoided(
    v: StatsView,
    list: Seq<(Seq<char>, u64)>,
    search: Search,
    k: int,
)
    requires
        !v.by_region,
        v.consensus() is None,
        search.failing is None,
        search.excluded.len() > 0,
        forall|j: int|
            0 <= j < list.len() ==> search.excluded.contains((#[trigger] list[j]).0),
        0 <= k < list.len(),
        list[k].0 != search.excluded.last(),
        !regions::info_node(list[k].0),
        !regions::unsupported(list[k].0),
        !v.in_quarantine(list[k].0, search.now),
        !v.cooling(list[k].0, search.now),
    ensures
        choice(v, list, search) matches Some(name) && name != search.excluded.last(),
{
    let active = active_pool(v, list, search.now);
    fit_is_active(v, list, search, k);
    let ask = Ask {
        region: None,
        excluded: Seq::empty(),
        failing: None,
        rested: true,
        now: search.now,
    };
    let awake = awake(v, active, search.now);
    suiting_is_found(v, active, ask, list[k].0);
    let p = |c: (Seq<char>, u64)| suits(v, ask, c.0);
    let a = choose|a: int| 0 <= a < active.len() && active[a] == list[k];
    assert(p(active[a]));
    active.lemma_filter_contains(p, a);
    let b = choose|b: int| 0 <= b < awake.len() && awake[b] == list[k];
    assert(names(awake)[b] == list[k].0);
    assert forall|name: Seq<char>| names(active).contains(name) implies search.excluded.contains(
        name,
    ) by {
        let c = choose|c: int| 0 <= c < names(active).len() && names(active)[c] == name;
        assert(active.contains(active[c]));
        let j = choose|j: int| 0 <= j < list.len() && list[j] == active[c];
        assert(list[j].0 == name);
    }
    let rested = suiting(v, active, search.anywhere(true));
    let eligible = suiting(v, active, search.anywhere(false));
    picks_from(v.enabled, rested);
    picks_from(v.enabled, eligible);
    if rested.len() > 0 {
        suiting_suits(v, active, search.anywhere(true), pick(v.enabled, rested)->0);
    }
    if eligible.len() > 0 {
        suiting_suits(v, active, search.anywhere(false), pick(v.enabled, eligible)->0);
    }
    let but = search.but(Some(search.excluded.last()));
    suiting_is_found(v, awake, but, list[k].0);
    let others = suiting(v, awake, but);
    picks_from(v.enabled, others);
    suiting_suits(v, awake, but, pick(v.enabled, others)->0);
}

/// What the consensus anchor is makes no difference to which nodes are what is asked for.
proof fn without_anchor(
    v: StatsView,
    list: Seq<(Seq<char>, u64)>,
    order: Seq<Seq<char>>,
    search: Search,
    rested: bool,
)
    ensures
        ({
            let u = StatsView { anchor: None, ..v };
            &&& free(u, list, search.now) == free(v, list, search.now)
            &&& active_pool(u, list, search.now) == active_pool(v, list, search.now)
            &&& forall|some: Seq<(Seq<char>, u64)>, ask: Ask| #[trigger]
                suiting(u, some, ask) == suiting(v, some, ask)
            &&& first_in_order(u, list, order, search, rested) == first_in_order(
                v,
                list,
                order,
                search,
                rested,
            )
        }),
    decreases order.len(),
{
    let u = StatsView { anchor: None, ..v };
    assert forall|some: Seq<(Seq<char>, u64)>, ask: Ask| #[trigger]
        suiting(u, some, ask) == suiting(v, some, ask) by {
        assert((|c: (Seq<char>, u64)| suits(u, ask, c.0)) =~= (|c: (Seq<char>, u64)|
            suits(v, ask, c.0)));
    }
    assert((|c: (Seq<char>, u64)| !u.in_quarantine(c.0, search.now)) =~= (|c: (Seq<char>, u64)|
        !v.in_quarantine(c.0, search.now)));
    if order.len() > 0 {
        without_anchor(v, list, order.drop_first(), search, rested);
    }
}

/// Where regions matter, an anchor that something speaks against, or whose region is cooling down,
/// counts for nothing as long as a usable candidate is neither excluded nor failing: the choice is
/// the one that is made without an anchor. For an anchor in quarantine this is so even where every
/// candidate is in quarantine.
pub proof fn a_bad_anchor_counts_for_nothing(
    v: StatsView,
    list: Seq<(Seq<char>, u64)>,
    search: Search,
    anchor: Seq<char>,
    k: int,
)
    requires
        v.by_region,
        v.consensus() == Some(anchor),
        !fit(v, search, anchor) || region_rests(v, search, anchor),
        0 <= k < list.len(),
        !regions::info_node(list[k].0),
        !regions::unsupported(list[k].0),
        !search.excluded.contains(list[k].0),
        search.failing != Some(list[k].0),
        !v.in_quarantine(list[k].0, search.now) || v.in_quarantine(anchor, search.now),
    ensures
        choice(v, list, search) == choice((StatsView { anchor: None, ..v }), list, search),
{
    let u = StatsView { anchor: None, ..v };
    let active = active_pool(v, list, search.now);
    let order = region_order(active, v.region_priority);
    without_anchor(v, list, order, search, true);
    without_anchor(v, active, order, search, true);
    without_anchor(v, active, order, search, false);
    let open = |c: (Seq<char>, u64)| !regions::info_node(c.0) && !regions::unsupported(c.0);
    let loose = |c: (Seq<char>, u64)| !v.in_quarantine(c.0, search.now);
    let pool = list.filter(open);
    assert(open(list[k]));
    list.lemma_filter_contains(open, k);
    let at = choose|at: int| 0 <= at < pool.len() && pool[at] == list[k];
    if !v.in_quarantine(list[k].0, search.now) {
        fit_is_active(v, list, search, k);
        if names(active).contains(anchor) {
            let a = choose|a: int| 0 <= a < names(active).len() && names(active)[a] == anchor;
            assert(active.contains(active[a]));
        }
        suiting_is_found(v, active, search.anywhere(false), list[k].0);
    } else if pool.filter(loose).len() > 0 {
        if names(active).contains(anchor) {
            let a = choose|a: int| 0 <= a < names(active).len() && names(active)[a] == anchor;
            assert(pool.filter(loose).contains(active[a]));
            pool.lemma_filter_contains_rev(loose, active[a]);
            assert(loose(active[a]));
        }
    } else {
        assert(names(active)[at] == list[k].0);
        suiting_is_found(v, active, search.anywhere(false), list[k].0);
    }
}

/// Where regions do not matter, an anchor that is cooling down counts for nothing: the choice is
/// the one that is made without an anchor.
pub proof fn a_tired_anchor_counts_for_nothing(
    v: StatsView,
    list: Seq<(Seq<char>, u64)>,
    search: Search,
    anchor: Seq<char>,
)
    requires
        !v.by_region,
        v.consensus() == Some(anchor),
        v.cooling(anchor, search.now),
    ensures
        choice(v, list, search) == choice((StatsView { anchor: None, ..v }), list, search),
{
    without_anchor(v, list, Seq::empty(), search, true);
}

/// Where regions do not matter and every usable candidate outside quarantine is excluded or
/// failing, the anchor is chosen if it is one of them and neither failing nor cooling down.
pub proof fn the_anchor_is_the_last_resort_of_all(
    v: StatsView,
    list: Seq<(Seq<char>, u64)>,
    search: Search,
    anchor: Seq<char>,
)
    requires
        !v.by_region,
        v.consensus() == Some(anchor),
        names(list).contains(anchor),
        !regions::info_node(anchor),
        !regions::unsupported(anchor),
        !v.in_quarantine(anchor, search.now),
        !v.cooling(anchor, search.now),
        search.failing != Some(anchor),
        forall|k: int|
            0 <= k < list.len() ==> regions::info_node((#[trigger] list[k]).0)
                || regions::unsupported(list[k].0) || v.in_quarantine(list[k].0, search.now)
                || search.excluded.contains(list[k].0) || search.failing == Some(list[k].0),
    ensures
        choice(v, list, search) == Some(anchor),
{
    let at = choose|at: int| 0 <= at < names(list).len() && names(list)[at] == anchor;
    assert(list[at].0 == anchor);
    fit_is_active(v, list, search, at);
    let active = active_pool(v, list, search.now);
    assert forall|name: Seq<char>| names(active).contains(name) implies search.excluded.contains(
        name,
    ) || search.failing == Some(name) by {
        let c = choose|c: int| 0 <= c < names(active).len() && names(active)[c] == name;
        assert(active.contains(active[c]));
        let k = choose|k: int| 0 <= k < list.len() && list[k] == active[c];
        assert(list[k].0 == name);
    }
    let rested = suiting(v, active, search.anywhere(true));
    let eligible = suiting(v, active, search.anywhere(false));
    picks_from(v.enabled, rested);
    picks_from(v.enabled, eligible);
    if rested.len() > 0 {
        suiting_suits(v, active, search.anywhere(true), pick(v.enabled, rested)->0);
    }
    if eligible.len() > 0 {
        suiting_suits(v, active, search.anywhere(false), pick(v.enabled, eligible)->0);
    }
    let ask = Ask {
        region: None,
        excluded: Seq::empty(),
        failing: None,
        rested: true,
        now: search.now,
    };
    let p = |c: (Seq<char>, u64)| suits(v, ask, c.0);
    let a = choose|a: int| 0 <= a < active.len() && active[a] == list[at];
    assert(p(active[a]));
    active.lemma_filter_contains(p, a);
    let awake = awake(v, active, search.now);
    let b = choose|b: int| 0 <= b < awake.len() && awake[b] == list[at];
    assert(names(awake)[b] == anchor);
}

} // verus!
