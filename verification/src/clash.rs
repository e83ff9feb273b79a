//! Proxy groups of Clash: which group is meant, and which nodes it offers.

use crate::json;
use crate::json::{Json, JsonView};
use crate::proxy::encode_uri_component;
use crate::regions;
use crate::text;
use crate::text::{chars_of, is_one_of, same_ignoring_ascii_case, same_str};
use vstd::prelude::*;

verus! {

/// A proxy group: its name, the node that it uses now, and the nodes that it offers.
#[derive(Debug, Clone)]
pub struct ClashGroupInfo {
    pub real_group: String,
    pub now: String,
    pub candidates: Vec<String>,
}

/// The texts among `items`.
pub open spec fn texts_among(items: Seq<JsonView>) -> Seq<Seq<char>>
    decreases items.len(),
{
    if items.len() == 0 {
        Seq::empty()
    } else {
        let before = texts_among(items.drop_last());
        match items.last() {
            JsonView::Text(t) => before.push(t),
            _ => before,
        }
    }
}

/// The members of a group.
pub open spec fn members(group: JsonView) -> Seq<Seq<char>> {
    match group.field("all"@) {
        Some(JsonView::Array(items)) => texts_among(items),
        _ => Seq::empty(),
    }
}

/// The node that a group uses now; empty where it says none.
pub open spec fn current(group: JsonView) -> Seq<char> {
    match group.text_field("now"@) {
        Some(t) => t,
        None => ""@,
    }
}

/// `name` names a usable node.
pub open spec fn usable_name(name: Seq<char>) -> bool {
    !regions::info_node(name) && !regions::unsupported(name)
}

/// The types of the entries that are not nodes.
pub open spec fn group_types() -> Seq<Seq<char>> {
    seq![
        "Selector"@,
        "URLTest"@,
        "Fallback"@,
        "LoadBalance"@,
        "Direct"@,
        "Reject"@,
        "Compatible"@,
    ]
}

/// An entry is not a node.
pub open spec fn is_group_entry(value: JsonView) -> bool {
    value.text_field("type"@) matches Some(t) && text::one_of(t, group_types())
}

/// One of the entries called `name` is not a node.
pub open spec fn names_group(fields: Seq<(Seq<char>, JsonView)>, name: Seq<char>) -> bool {
    exists|i: int|
        0 <= i < fields.len() && (#[trigger] fields[i]).0 == name && is_group_entry(fields[i].1)
}

/// The first entry whose name is `name` but for the case of ASCII letters.
pub open spec fn similar_name(fields: Seq<(Seq<char>, JsonView)>, name: Seq<char>) -> Option<
    Seq<char>,
>
    decreases fields.len(),
{
    if fields.len() == 0 {
        None
    } else if text::same_but_ascii_case(fields[0].0, name) {
        Some(fields[0].0)
    } else {
        similar_name(fields.drop_first(), name)
    }
}

/// How many usable nodes a group has for members.
pub open spec fn offer(group: JsonView) -> nat {
    members(group).filter(|name: Seq<char>| usable_name(name)).len()
}

/// The selector that offers the most usable nodes, and how many; the last of several.
pub open spec fn richest(fields: Seq<(Seq<char>, JsonView)>) -> Option<(Seq<char>, nat)>
    decreases fields.len(),
{
    if fields.len() == 0 {
        None
    } else {
        let before = richest(fields.drop_last());
        let (name, value) = fields.last();
        if value.text_field("type"@) == Some("Selector"@) {
            match before {
                Some((_, most)) if most > offer(value) => before,
                _ => Some((name, offer(value))),
            }
        } else {
            before
        }
    }
}

/// The group that is meant: the one found before, if it is still there; else the preferred one,
/// if need be in another case; else, where that is `proxy`, the selector with the largest offer.
pub open spec fn meant_group(
    fields: Seq<(Seq<char>, JsonView)>,
    preferred: Seq<char>,
    cached: Option<Seq<char>>,
) -> Option<Seq<char>> {
    match cached {
        Some(name) if json::lookup(fields, name) is Some => Some(name),
        _ => if json::lookup(fields, preferred) is Some {
            Some(preferred)
        } else {
            match similar_name(fields, preferred) {
                Some(name) => Some(name),
                None => if text::same_but_ascii_case(preferred, "proxy"@) {
                    match richest(fields) {
                        Some((name, _)) => Some(name),
                        None => None,
                    }
                } else {
                    None
                },
            }
        },
    }
}

/// What is known of a group: its name, the node that it uses now, and the nodes that it offers.
pub open spec fn group_view(info: ClashGroupInfo) -> (Seq<char>, Seq<char>, Seq<Seq<char>>) {
    (info.real_group@, info.now@, text::strings(info.candidates@))
}

/// What a listing of all entries tells of the group that is meant. The nodes that it offers are
/// its members, but for other groups and for names that are not those of usable nodes.
pub open spec fn listed_group(
    listing: JsonView,
    preferred: Seq<char>,
    cached: Option<Seq<char>>,
) -> Option<(Seq<char>, Seq<char>, Seq<Seq<char>>)> {
    match listing.field("proxies"@) {
        Some(JsonView::Object(fields)) => match meant_group(fields, preferred, cached) {
            Some(name) => match json::lookup(fields, name) {
                Some(group) => Some(
                    (
                        name,
                        current(group),
                        members(group).filter(
                            |m: Seq<char>| !names_group(fields, m) && usable_name(m),
                        ),
                    ),
                ),
                None => None,
            },
            None => None,
        },
        _ => None,
    }
}

/// What the entry of a group by itself tells of it.
pub open spec fn single_group(group: JsonView, name: Seq<char>) -> (
    Seq<char>,
    Seq<char>,
    Seq<Seq<char>>,
) {
    (name, current(group), members(group).filter(|m: Seq<char>| usable_name(m)))
}

/// The members of a group.
fn read_members(group: &Json) -> (r: Vec<&str>)
    ensures
        text::texts(r@) == members(group@),
{
    let mut out: Vec<&str> = Vec::new();
    proof {
        assert(text::texts(out@) =~= Seq::<Seq<char>>::empty());
    }
    match group.get("all") {
        Some(list) => match list {
            Json::Array(items) => {
                let ghost all = list@->Array_0;
                proof {
                    json::array_parts(*list);
                    assert(all.take(0) =~= Seq::<JsonView>::empty());
                }
                let mut i: usize = 0;
                while i < items.len()
                    invariant
                        i <= items@.len(),
                        all.len() == items@.len(),
                        forall|k: int| 0 <= k < items@.len() ==> #[trigger] all[k] == items@[k]@,
                        text::texts(out@) == texts_among(all.take(i as int)),
                    decreases items@.len() - i,
                {
                    let ghost before = out@;
                    proof {
                        assert(all.take(i + 1).drop_last() =~= all.take(i as int));
                        assert(all.take(i + 1).last() == items@[i as int]@);
                    }
                    match &items[i] {
                        Json::Text(t) => {
                            out.push(t.as_str());
                            proof {
                                assert(text::texts(out@) =~= text::texts(before).push(t@));
                            }
                        },
                        _ => {},
                    }
                    i += 1;
                }
                proof {
                    assert(all.take(all.len() as int) =~= all);
                }
            },
            _ => {},
        },
        None => {},
    }
    out
}

/// The node that a group uses now; empty where it says none.
pub fn current_node(group: &Json) -> (r: String)
    ensures
        r@ == current(group@),
{
    match group.get_text("now") {
        Some(t) => t.clone(),
        None => "".to_owned(),
    }
}

/// Whether an entry is not a node.
fn is_group(value: &Json) -> (r: bool)
    ensures
        r == is_group_entry(value@),
{
    let types = vec![
        "Selector",
        "URLTest",
        "Fallback",
        "LoadBalance",
        "Direct",
        "Reject",
        "Compatible",
    ];
    proof {
        assert(text::texts(types@) =~= group_types());
    }
    match value.get_text("type") {
        Some(t) => is_one_of(&chars_of(t.as_str()), &types),
        None => false,
    }
}

/// How many usable nodes a group has for members.
fn count_offer(group: &Json) -> (r: usize)
    ensures
        r == offer(group@),
{
    let list = read_members(group);
    let ghost all = members(group@);
    let ghost p = |name: Seq<char>| usable_name(name);
    let mut n: usize = 0;
    let mut i: usize = 0;
    proof {
        reveal(Seq::filter);
        assert(all.take(0) =~= Seq::<Seq<char>>::empty());
    }
    while i < list.len()
        invariant
            i <= list@.len(),
            n <= i,
            all == text::texts(list@),
            p == (|name: Seq<char>| usable_name(name)),
            n == all.take(i as int).filter(p).len(),
        decreases list@.len() - i,
    {
        proof {
            reveal(Seq::filter);
            assert(all.take(i + 1).drop_last() =~= all.take(i as int));
            assert(all.take(i + 1).last() == list@[i as int]@);
        }
        if regions::is_valid_candidate_node(list[i]) {
            n += 1;
        }
        i += 1;
    }
    proof {
        assert(all.take(all.len() as int) =~= all);
    }
    n
}

/// `views` are the views of `fields`.
spec fn shows(views: Seq<(Seq<char>, JsonView)>, fields: Seq<(String, Json)>) -> bool {
    &&& views.len() == fields.len()
    &&& forall|k: int|
        0 <= k < fields.len() ==> #[trigger] views[k] == (fields[k].0@, fields[k].1@)
}

/// Whether one of the entries called `name` is not a node.
fn is_name_of_group(
    fields: &Vec<(String, Json)>,
    Ghost(views): Ghost<Seq<(Seq<char>, JsonView)>>,
    name: &str,
) -> (r: bool)
    requires
        shows(views, fields@),
    ensures
        r == names_group(views, name@),
{
    let mut i: usize = 0;
    while i < fields.len()
        invariant
            i <= fields@.len(),
            shows(views, fields@),
            forall|k: int|
                0 <= k < i ==> !((#[trigger] views[k]).0 == name@ && is_group_entry(views[k].1)),
        decreases fields@.len() - i,
    {
        proof {
            assert(views[i as int] == (fields@[i as int].0@, fields@[i as int].1@));
        }
        if same_str(fields[i].0.as_str(), name) && is_group(&fields[i].1) {
            return true;
        }
        i += 1;
    }
    false
}

/// The first entry whose name is `name` but for the case of ASCII letters.
fn find_similar(
    fields: &Vec<(String, Json)>,
    Ghost(views): Ghost<Seq<(Seq<char>, JsonView)>>,
    name: &str,
) -> (r: Option<String>)
    requires
        shows(views, fields@),
    ensures
        match r {
            Some(s) => similar_name(views, name@) == Some(s@),
            None => similar_name(views, name@) is None,
        },
{
    let mut i: usize = 0;
    proof {
        assert(views.skip(0) =~= views);
    }
    while i < fields.len()
        invariant
            i <= fields@.len(),
            shows(views, fields@),
            similar_name(views, name@) == similar_name(views.skip(i as int), name@),
        decreases fields@.len() - i,
    {
        proof {
            assert(views.skip(i as int)[0] == views[i as int]);
            assert(views.skip(i as int).drop_first() =~= views.skip(i + 1));
        }
        if same_ignoring_ascii_case(fields[i].0.as_str(), name) {
            return Some(fields[i].0.clone());
        }
        i += 1;
    }
    None
}

/// The selector that offers the most usable nodes; the last of several.
fn find_richest(
    fields: &Vec<(String, Json)>,
    Ghost(views): Ghost<Seq<(Seq<char>, JsonView)>>,
) -> (r: Option<String>)
    requires
        shows(views, fields@),
    ensures
        match r {
            Some(s) => richest(views) matches Some((name, _)) && name == s@,
            None => richest(views) is None,
        },
{
    let mut best: Option<(usize, usize)> = None;
    let mut i: usize = 0;
    proof {
        assert(views.take(0) =~= Seq::<(Seq<char>, JsonView)>::empty());
    }
    while i < fields.len()
        invariant
            i <= fields@.len(),
            shows(views, fields@),
            match best {
                Some((at, most)) => at < i && richest(views.take(i as int)) == Some(
                    (views[at as int].0, most as nat),
                ),
                None => richest(views.take(i as int)) is None,
            },
        decreases fields@.len() - i,
    {
        proof {
            assert(views.take(i + 1).drop_last() =~= views.take(i as int));
            assert(views.take(i + 1).last() == views[i as int]);
        }
        let selector = match fields[i].1.get_text("type") {
            Some(t) => same_str(t.as_str(), "Selector"),
            None => false,
        };
        if selector {
            let n = count_offer(&fields[i].1);
            let keep = match best {
                Some((_, most)) => most > n,
                None => false,
            };
            if !keep {
                best = Some((i, n));
            }
        }
        i += 1;
    }
    proof {
        assert(views.take(views.len() as int) =~= views);
    }
    match best {
        Some((at, _)) => Some(fields[at].0.clone()),
        None => None,
    }
}

/// The group that is meant.
fn find_group(
    proxies: &Json,
    preferred_group: &str,
    cached_group: Option<&str>,
) -> (r: Option<String>)
    requires
        proxies@ is Object,
    ensures
        match r {
            Some(s) => meant_group(
                proxies@->Object_0,
                preferred_group@,
                text::slice_text(cached_group),
            ) == Some(s@),
            None => meant_group(
                proxies@->Object_0,
                preferred_group@,
                text::slice_text(cached_group),
            ) is None,
        },
{
    if let Some(name) = cached_group {
        if proxies.get(name).is_some() {
            return Some(name.to_owned());
        }
    }
    if proxies.get(preferred_group).is_some() {
        return Some(preferred_group.to_owned());
    }
    match proxies {
        Json::Object(fields) => {
            let ghost views = proxies@->Object_0;
            proof {
                json::object_parts(*proxies);
            }
            if let Some(name) = find_similar(fields, Ghost(views), preferred_group) {
                return Some(name);
            }
            if same_ignoring_ascii_case(preferred_group, "proxy") {
                find_richest(fields, Ghost(views))
            } else {
                None
            }
        },
        _ => None,
    }
}

/// Those of `list` that name usable nodes, and are not groups among `fields`.
fn usable_members(
    list: &Vec<&str>,
    fields: &Vec<(String, Json)>,
    Ghost(views): Ghost<Seq<(Seq<char>, JsonView)>>,
) -> (r: Vec<String>)
    requires
        shows(views, fields@),
    ensures
        text::strings(r@) == text::texts(list@).filter(
            |m: Seq<char>| !names_group(views, m) && usable_name(m),
        ),
{
    let ghost all = text::texts(list@);
    let ghost p = |m: Seq<char>| !names_group(views, m) && usable_name(m);
    let mut out: Vec<String> = Vec::new();
    let mut i: usize = 0;
    proof {
        reveal(Seq::filter);
        assert(all.take(0) =~= Seq::<Seq<char>>::empty());
        assert(text::strings(out@) =~= all.take(0).filter(p));
    }
    while i < list.len()
        invariant
            i <= list@.len(),
            shows(views, fields@),
            all == text::texts(list@),
            p == (|m: Seq<char>| !names_group(views, m) && usable_name(m)),
            text::strings(out@) == all.take(i as int).filter(p),
        decreases list@.len() - i,
    {
        let name = list[i];
        let ghost before = out@;
        proof {
            reveal(Seq::filter);
            assert(all.take(i + 1).drop_last() =~= all.take(i as int));
            assert(all.take(i + 1).last() == name@);
        }
        if !is_name_of_group(fields, Ghost(views), name) && regions::is_valid_candidate_node(
            name,
        ) {
            out.push(name.to_owned());
            proof {
                assert(text::strings(out@) =~= text::strings(before).push(name@));
            }
        }
        i += 1;
    }
    proof {
        assert(all.take(all.len() as int) =~= all);
    }
    out
}

/// What a listing of all entries tells of the group that is meant: auto-resolves case differences
/// (e.g. PROXY -> Proxy) and filters out sub-groups (Selector/URLTest/etc.) so only real leaf
/// nodes remain.
pub fn group_in_listing(
    listing: &Json,
    preferred_group: &str,
    cached_group: Option<&str>,
) -> (r: Option<ClashGroupInfo>)
    ensures
        match r {
            Some(info) => listed_group(
                listing@,
                preferred_group@,
                text::slice_text(cached_group),
            ) == Some(group_view(info)),
            None => listed_group(
                listing@,
                preferred_group@,
                text::slice_text(cached_group),
            ) is None,
        },
{
    let proxies = match listing.get("proxies") {
        Some(p) => p,
        None => {
            return None;
        },
    };
    match proxies {
        Json::Object(fields) => {
            let ghost views = proxies@->Object_0;
            proof {
                json::object_parts(*proxies);
            }
            match find_group(proxies, preferred_group, cached_group) {
                Some(real_group) => match proxies.get(real_group.as_str()) {
                    Some(group) => {
                        let now = current_node(group);
                        let all = read_members(group);
                        let candidates = usable_members(&all, fields, Ghost(views));
                        Some(ClashGroupInfo { real_group, now, candidates })
                    },
                    None => None,
                },
                None => None,
            }
        },
        _ => None,
    }
}

/// What the entry of a group by itself tells of it.
pub fn group_in_entry(group: &Json, name: &str) -> (r: ClashGroupInfo)
    ensures
        group_view(r) == single_group(group@, name@),
{
    let all = read_members(group);
    let nothing: Vec<(String, Json)> = Vec::new();
    let candidates = usable_members(&all, &nothing, Ghost(Seq::empty()));
    proof {
        let m = members(group@);
        let p = |m: Seq<char>| !names_group(Seq::empty(), m) && usable_name(m);
        let q = |m: Seq<char>| usable_name(m);
        assert(p =~= q);
    }
    ClashGroupInfo { real_group: name.to_owned(), now: current_node(group), candidates }
}

/// The group to ask for by itself: the one found before, else the preferred one.
pub fn group_to_query<'a>(preferred_group: &'a str, cached_group: Option<&'a str>) -> (r: &'a str)
    ensures
        r@ == (match cached_group {
            Some(name) => name@,
            None => preferred_group@,
        }),
{
    match cached_group {
        Some(name) => name,
        None => preferred_group,
    }
}

/// The address of the listing of all entries.
pub fn listing_url(api: &str) -> (r: String)
    ensures
        r@ == api@ + "/proxies"@,
{
    api.to_owned().concat("/proxies")
}

/// The address of the entry of a group.
pub fn group_url(api: &str, group: &str) -> (r: String)
    ensures
        r@ == api@ + "/proxies/"@ + crate::proxy::percent_encoded(
            vstd::utf8::encode_utf8(group@),
        ),
{
    api.to_owned().concat("/proxies/").concat(encode_uri_component(group).as_str())
}

/// The credentials with which the API is asked, where a secret is set.
pub fn authorization(secret: &str) -> (r: Option<String>)
    ensures
        match r {
            Some(token) => secret@.len() > 0 && token@ == "Bearer "@ + secret@,
            None => secret@.len() == 0,
        },
{
    if chars_of(secret).is_empty() {
        None
    } else {
        Some("Bearer ".to_owned().concat(secret))
    }
}

/// No candidate of a group that was found in a listing is blank, an announcement, a policy, in
/// Hong Kong or in mainland China, or itself a group.
pub proof fn candidates_are_usable_leaves(
    listing: JsonView,
    preferred: Seq<char>,
    cached: Option<Seq<char>>,
    found: (Seq<char>, Seq<char>, Seq<Seq<char>>),
    name: Seq<char>,
)
    requires
        listed_group(listing, preferred, cached) == Some(found),
        found.2.contains(name),
    ensures
        usable_name(name),
        !names_group(listing.field("proxies"@)->0->Object_0, name),
{
    let fields = listing.field("proxies"@)->0->Object_0;
    let group = json::lookup(fields, meant_group(fields, preferred, cached)->0)->0;
    let p = |m: Seq<char>| !names_group(fields, m) && usable_name(m);
    let kept = members(group).filter(p);
    let k = choose|k: int| 0 <= k < kept.len() && kept[k] == name;
    assert(p(kept[k]));
}

/// Nothing among the candidates is a group: no entry that is called like a candidate has one of the
/// types of groups and policies.
pub proof fn no_candidate_is_a_group(
    listing: JsonView,
    preferred: Seq<char>,
    cached: Option<Seq<char>>,
    found: (Seq<char>, Seq<char>, Seq<Seq<char>>),
    fields: Seq<(Seq<char>, JsonView)>,
    i: int,
)
    requires
        listed_group(listing, preferred, cached) == Some(found),
        listing.field("proxies"@) == Some(JsonView::Object(fields)),
        0 <= i < fields.len(),
        found.2.contains(fields[i].0),
    ensures
        fields[i].1.field("type"@) != Some(JsonView::Text("Selector"@)),
        fields[i].1.field("type"@) != Some(JsonView::Text("URLTest"@)),
        fields[i].1.field("type"@) != Some(JsonView::Text("Fallback"@)),
        fields[i].1.field("type"@) != Some(JsonView::Text("LoadBalance"@)),
        fields[i].1.field("type"@) != Some(JsonView::Text("Direct"@)),
        fields[i].1.field("type"@) != Some(JsonView::Text("Reject"@)),
        fields[i].1.field("type"@) != Some(JsonView::Text("Compatible"@)),
{
    candidates_are_usable_leaves(listing, preferred, cached, found, fields[i].0);
    types_of_groups(fields[i].1);
    assert(!(fields[i].0 == fields[i].0 && is_group_entry(fields[i].1)));
}

/// An entry is not a node just where it has one of the types of groups and policies.
pub proof fn types_of_groups(value: JsonView)
    ensures
        is_group_entry(value) <==> {
            let t = value.field("type"@);
            ||| t == Some(JsonView::Text("Selector"@))
            ||| t == Some(JsonView::Text("URLTest"@))
            ||| t == Some(JsonView::Text("Fallback"@))
            ||| t == Some(JsonView::Text("LoadBalance"@))
            ||| t == Some(JsonView::Text("Direct"@))
            ||| t == Some(JsonView::Text("Reject"@))
            ||| t == Some(JsonView::Text("Compatible"@))
        },
{
    let all = group_types();
    assert(all[0] == "Selector"@ && all[1] == "URLTest"@ && all[2] == "Fallback"@ && all[3]
        == "LoadBalance"@ && all[4] == "Direct"@ && all[5] == "Reject"@ && all[6]
        == "Compatible"@);
}

/// The candidates are the members that the group lists, but for groups, policies, announcements and
/// nodes in Hong Kong or mainland China: every other member is one, and nothing else is.
pub proof fn candidates_are_the_members(
    listing: JsonView,
    preferred: Seq<char>,
    cached: Option<Seq<char>>,
    found: (Seq<char>, Seq<char>, Seq<Seq<char>>),
    fields: Seq<(Seq<char>, JsonView)>,
    items: Seq<JsonView>,
    name: Seq<char>,
)
    requires
        listed_group(listing, preferred, cached) == Some(found),
        listing.field("proxies"@) == Some(JsonView::Object(fields)),
        json::lookup(fields, found.0) matches Some(group) && group.field("all"@) == Some(
            JsonView::Array(items),
        ),
    ensures
        found.2.contains(name) <==> items.contains(JsonView::Text(name)) && !regions::info_node(
            name,
        ) && !regions::unsupported(name) && forall|i: int|
            0 <= i < fields.len() && (#[trigger] fields[i]).0 == name ==> {
                let t = fields[i].1.field("type"@);
                &&& t != Some(JsonView::Text("Selector"@))
                &&& t != Some(JsonView::Text("URLTest"@))
                &&& t != Some(JsonView::Text("Fallback"@))
                &&& t != Some(JsonView::Text("LoadBalance"@))
                &&& t != Some(JsonView::Text("Direct"@))
                &&& t != Some(JsonView::Text("Reject"@))
                &&& t != Some(JsonView::Text("Compatible"@))
            },
{
    let p = |m: Seq<char>| !names_group(fields, m) && usable_name(m);
    let all = texts_among(items);
    let kept = all.filter(p);
    assert(found.2 == kept);
    texts_are_the_texts(items, name);
    assert forall|i: int| 0 <= i < fields.len() implies is_group_entry(
        (#[trigger] fields[i]).1,
    ) == {
        let t = fields[i].1.field("type"@);
        ||| t == Some(JsonView::Text("Selector"@))
        ||| t == Some(JsonView::Text("URLTest"@))
        ||| t == Some(JsonView::Text("Fallback"@))
        ||| t == Some(JsonView::Text("LoadBalance"@))
        ||| t == Some(JsonView::Text("Direct"@))
        ||| t == Some(JsonView::Text("Reject"@))
        ||| t == Some(JsonView::Text("Compatible"@))
    } by {
        types_of_groups(fields[i].1);
    }
    if kept.contains(name) {
        let k = choose|k: int| 0 <= k < kept.len() && kept[k] == name;
        assert(p(kept[k]));
        all.lemma_filter_contains_rev(p, name);
        assert forall|i: int| 0 <= i < fields.len() && (#[trigger] fields[i]).0
            == name implies !is_group_entry(fields[i].1) by {}
    }
    if all.contains(name) && p(name) {
        let k = choose|k: int| 0 <= k < all.len() && all[k] == name;
        all.lemma_filter_contains(p, k);
    }
}

/// The texts among items are those of the items that are texts.
proof fn texts_are_the_texts(items: Seq<JsonView>, name: Seq<char>)
    ensures
        texts_among(items).contains(name) <==> items.contains(JsonView::Text(name)),
    decreases items.len(),
{
    if items.len() > 0 {
        let front = items.drop_last();
        let before = texts_among(front);
        let all = texts_among(items);
        texts_are_the_texts(front, name);
        if all.contains(name) {
            let k = choose|k: int| 0 <= k < all.len() && all[k] == name;
            if k < before.len() {
                assert(before[k] == name);
                let m = choose|m: int| 0 <= m < front.len() && front[m] == JsonView::Text(name);
                assert(items[m] == JsonView::Text(name));
            } else {
                assert(items[items.len() - 1] == JsonView::Text(name));
            }
        }
        if items.contains(JsonView::Text(name)) {
            let m = choose|m: int| 0 <= m < items.len() && items[m] == JsonView::Text(name);
            if m < front.len() {
                assert(front[m] == JsonView::Text(name));
                let k = choose|k: int| 0 <= k < before.len() && before[k] == name;
                assert(all[k] == name);
            } else {
                assert(all[before.len() as int] == name);
            }
        }
    }
}

/// Members come in the order in which the group lists them, and what is not a text is no member.
pub proof fn members_keep_their_order(a: Seq<JsonView>, b: Seq<JsonView>, item: JsonView)
    ensures
        texts_among(a + b) == texts_among(a) + texts_among(b),
        texts_among(seq![item]) == (match item {
            JsonView::Text(t) => seq![t],
            _ => Seq::empty(),
        }),
    decreases b.len(),
{
    reveal_with_fuel(texts_among, 2);
    assert(seq![item].drop_last() =~= Seq::<JsonView>::empty());
    assert(seq![item].last() == item);
    assert(texts_among(seq![item]) =~= (match item {
        JsonView::Text(t) => seq![t],
        _ => Seq::empty(),
    }));
    if b.len() == 0 {
        assert(a + b =~= a);
        assert(texts_among(a) + texts_among(b) =~= texts_among(a));
    } else {
        members_keep_their_order(a, b.drop_last(), item);
        assert((a + b).drop_last() =~= a + b.drop_last());
        assert((a + b).last() == b.last());
        assert(texts_among(a + b) =~= texts_among(a) + texts_among(b));
    }
}

/// The group that was found before is taken if there is an entry called so; else an entry called
/// like the preferred one; and what is told as the node in use is what the entry tells.
pub proof fn the_group_is_found_by_name(
    listing: JsonView,
    preferred: Seq<char>,
    cached: Option<Seq<char>>,
    fields: Seq<(Seq<char>, JsonView)>,
    k: int,
)
    requires
        listing.field("proxies"@) == Some(JsonView::Object(fields)),
        0 <= k < fields.len(),
    ensures
        cached == Some(fields[k].0) ==> (listed_group(listing, preferred, cached) matches Some(
            found,
        ) && found.0 == fields[k].0),
        preferred == fields[k].0 && (cached matches Some(name) ==> forall|i: int|
            0 <= i < fields.len() ==> (#[trigger] fields[i]).0 != name) ==> (listed_group(
            listing,
            preferred,
            cached,
        ) matches Some(found) && found.0 == preferred),
        listed_group(listing, preferred, cached) matches Some(found) ==> exists|i: int|
            0 <= i < fields.len() && (#[trigger] fields[i]).0 == found.0 && found.1 == (
            match fields[i].1.field("now"@) {
                Some(JsonView::Text(t)) => t,
                _ => Seq::empty(),
            }),
{
    json::fields_are_found_by_name(fields, fields[k].0);
    if let Some(name) = cached {
        json::fields_are_found_by_name(fields, name);
    }
    if let Some(found) = listed_group(listing, preferred, cached) {
        json::fields_are_found_by_name(fields, found.0);
        reveal_strlit("");
        assert(""@ =~= Seq::<char>::empty());
    }
}

/// Where an entry is called like the preferred group but for the case of ASCII letters, such an
/// entry is taken; where none is called just like it, the first such.
pub proof fn the_case_of_a_group_is_resolved(
    listing: JsonView,
    preferred: Seq<char>,
    fields: Seq<(Seq<char>, JsonView)>,
    k: int,
)
    requires
        listing.field("proxies"@) == Some(JsonView::Object(fields)),
        0 <= k < fields.len(),
        text::ascii_lowered(fields[k].0) == text::ascii_lowered(preferred),
    ensures
        listed_group(listing, preferred, None) matches Some(found) && text::ascii_lowered(found.0)
            == text::ascii_lowered(preferred),
        (forall|i: int| 0 <= i < fields.len() ==> (#[trigger] fields[i]).0 != preferred) && (forall|
            i: int,
        |
            0 <= i < k ==> text::ascii_lowered((#[trigger] fields[i]).0) != text::ascii_lowered(
                preferred,
            )) ==> (listed_group(listing, preferred, None) matches Some(found) && found.0
            == fields[k].0),
{
    similar_is_found(fields, preferred, k);
    json::fields_are_found_by_name(fields, preferred);
    if json::lookup(fields, preferred) is None {
        let name = similar_name(fields, preferred)->0;
        json::fields_are_found_by_name(fields, name);
    }
}

proof fn similar_is_found(fields: Seq<(Seq<char>, JsonView)>, name: Seq<char>, k: int)
    requires
        0 <= k < fields.len(),
        text::ascii_lowered(fields[k].0) == text::ascii_lowered(name),
    ensures
        similar_name(fields, name) matches Some(found) && text::ascii_lowered(found)
            == text::ascii_lowered(name) && exists|i: int|
            0 <= i < fields.len() && (#[trigger] fields[i]).0 == found,
        (forall|i: int|
            0 <= i < k ==> text::ascii_lowered((#[trigger] fields[i]).0) != text::ascii_lowered(
                name,
            )) ==> similar_name(fields, name) == Some(fields[k].0),
    decreases fields.len(),
{
    if !text::same_but_ascii_case(fields[0].0, name) {
        let rest = fields.drop_first();
        if forall|i: int|
            0 <= i < k ==> text::ascii_lowered((#[trigger] fields[i]).0) != text::ascii_lowered(
                name,
            ) {
            assert forall|i: int| 0 <= i < k - 1 implies text::ascii_lowered(
                (#[trigger] rest[i]).0,
            ) != text::ascii_lowered(name) by {
                assert(rest[i] == fields[i + 1]);
            }
        }
        assert(rest[k - 1] == fields[k]);
        similar_is_found(rest, name, k - 1);
        let found = similar_name(rest, name)->0;
        let i = choose|i: int| 0 <= i < rest.len() && (#[trigger] rest[i]).0 == found;
        assert(fields[i + 1].0 == found);
    } else {
        assert(text::ascii_lowered(fields[0].0) == text::ascii_lowered(name));
    }
}

/// A group that no entry is called like, in whatever case, is not found, unless it is `proxy`: then
/// it is a selector than which no other offers more usable nodes, and none after it as many.
pub proof fn an_unknown_group_is_not_found(
    listing: JsonView,
    preferred: Seq<char>,
    fields: Seq<(Seq<char>, JsonView)>,
)
    requires
        listing.field("proxies"@) == Some(JsonView::Object(fields)),
        forall|i: int|
            0 <= i < fields.len() ==> text::ascii_lowered((#[trigger] fields[i]).0)
                != text::ascii_lowered(preferred),
    ensures
        text::ascii_lowered(preferred) != "proxy"@ ==> listed_group(listing, preferred, None)
            is None,
        text::ascii_lowered(preferred) == "proxy"@ ==> match listed_group(listing, preferred, None) {
            Some(found) => exists|k: int|
                0 <= k < fields.len() && (#[trigger] fields[k]).0 == found.0
                    && fields[k].1.field("type"@) == Some(JsonView::Text("Selector"@)) && forall|
                    i: int,
                |
                    0 <= i < fields.len() && (#[trigger] fields[i]).1.field("type"@) == Some(
                        JsonView::Text("Selector"@),
                    ) ==> offer(fields[i].1) <= offer(fields[k].1) && (i > k ==> offer(fields[i].1)
                        < offer(fields[k].1)),
            None => forall|i: int|
                0 <= i < fields.len() ==> (#[trigger] fields[i]).1.field("type"@) != Some(
                    JsonView::Text("Selector"@),
                ),
        },
{
    reveal_strlit("proxy");
    assert(text::ascii_lowered("proxy"@) =~= "proxy"@);
    nothing_similar(fields, preferred);
    json::fields_are_found_by_name(fields, preferred);
    richest_offers_most(fields);
    if let Some((name, _)) = richest(fields) {
        json::fields_are_found_by_name(fields, name);
    }
}

proof fn nothing_similar(fields: Seq<(Seq<char>, JsonView)>, name: Seq<char>)
    requires
        forall|i: int|
            0 <= i < fields.len() ==> text::ascii_lowered((#[trigger] fields[i]).0)
                != text::ascii_lowered(name),
    ensures
        similar_name(fields, name) is None,
    decreases fields.len(),
{
    if fields.len() > 0 {
        let rest = fields.drop_first();
        assert forall|i: int| 0 <= i < rest.len() implies text::ascii_lowered(
            (#[trigger] rest[i]).0,
        ) != text::ascii_lowered(name) by {
            assert(rest[i] == fields[i + 1]);
        }
        assert(text::ascii_lowered(fields[0].0) != text::ascii_lowered(name));
        nothing_similar(rest, name);
    }
}

/// The richest is a selector than which none offers more; there is one where there is a selector.
proof fn richest_offers_most(fields: Seq<(Seq<char>, JsonView)>)
    ensures
        match richest(fields) {
            Some((name, most)) => exists|k: int|
                0 <= k < fields.len() && (#[trigger] fields[k]).0 == name
                    && fields[k].1.field("type"@) == Some(JsonView::Text("Selector"@)) && offer(
                    fields[k].1,
                ) == most && forall|i: int|
                    0 <= i < fields.len() && (#[trigger] fields[i]).1.field("type"@) == Some(
                        JsonView::Text("Selector"@),
                    ) ==> offer(fields[i].1) <= most && (i > k ==> offer(fields[i].1) < most),
            None => forall|i: int|
                0 <= i < fields.len() ==> (#[trigger] fields[i]).1.field("type"@) != Some(
                    JsonView::Text("Selector"@),
                ),
        },
    decreases fields.len(),
{
    if fields.len() > 0 {
        let front = fields.drop_last();
        let last = fields.len() - 1;
        richest_offers_most(front);
        assert forall|i: int| 0 <= i < last implies #[trigger] fields[i] == front[i] by {}
        assert(fields[last] == fields.last());
        if let Some((name, most)) = richest(fields) {
            let kept = fields.last().1.text_field("type"@) != Some("Selector"@) || match richest(
                front,
            ) {
                Some((_, before)) => before > offer(fields.last().1),
                None => false,
            };
            if kept {
                let k = choose|k: int|
                    0 <= k < front.len() && (#[trigger] front[k]).0 == name
                        && front[k].1.field("type"@) == Some(JsonView::Text("Selector"@)) && offer(
                        front[k].1,
                    ) == most && forall|i: int|
                        0 <= i < front.len() && (#[trigger] front[i]).1.field("type"@) == Some(
                            JsonView::Text("Selector"@),
                        ) ==> offer(front[i].1) <= most && (i > k ==> offer(front[i].1) < most);
                assert(fields[k].0 == name);
            } else {
                assert(fields[last].0 == name);
            }
        }
    }
}

/// What the entry of a group by itself tells: its name, the node that it uses now, and for
/// candidates its members, but for policies, announcements and nodes in Hong Kong or mainland
/// China.
pub proof fn an_entry_tells_its_members(
    group: JsonView,
    name: Seq<char>,
    items: Seq<JsonView>,
    member: Seq<char>,
)
    requires
        group.field("all"@) == Some(JsonView::Array(items)),
    ensures
        single_group(group, name).0 == name,
        group.field("now"@) == Some(JsonView::Text(member)) ==> single_group(group, name).1
            == member,
        single_group(group, name).2.contains(member) <==> items.contains(JsonView::Text(member))
            && !regions::info_node(member) && !regions::unsupported(member),
{
    let p = |m: Seq<char>| usable_name(m);
    let all = texts_among(items);
    let kept = all.filter(p);
    texts_are_the_texts(items, member);
    if kept.contains(member) {
        let k = choose|k: int| 0 <= k < kept.len() && kept[k] == member;
        assert(p(kept[k]));
        all.lemma_filter_contains_rev(p, member);
    }
    if all.contains(member) && p(member) {
        let k = choose|k: int| 0 <= k < all.len() && all[k] == member;
        all.lemma_filter_contains(p, k);
    }
}

/// A group offers as many nodes as it lists usable ones: another usable member makes it one more,
/// and any other item changes nothing.
pub proof fn an_offer_counts_usable_members(
    group: JsonView,
    larger: JsonView,
    items: Seq<JsonView>,
    item: JsonView,
)
    requires
        group.field("all"@) == Some(JsonView::Array(items)),
        larger.field("all"@) == Some(JsonView::Array(items.push(item))),
    ensures
        items.len() == 0 ==> offer(group) == 0,
        offer(larger) == offer(group) + (match item {
            JsonView::Text(t) => if regions::info_node(t) || regions::unsupported(t) {
                0int
            } else {
                1
            },
            _ => 0,
        }),
{
    reveal(Seq::filter);
    let p = |name: Seq<char>| usable_name(name);
    let before = texts_among(items);
    let after = texts_among(items.push(item));
    assert(items.push(item).drop_last() =~= items);
    if let JsonView::Text(t) = item {
        assert(after == before.push(t));
        assert(after.drop_last() =~= before);
    }
}

} // verus!
