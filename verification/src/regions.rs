//! What a node's name tells about it: whether it names a usable proxy, and where that proxy is.

use crate::text;
use crate::text::{
    chars_of, contains, contains_any, contains_any_word, is_chinese, is_one_of, lower_of, same,
    same_ignoring_ascii_case, string_of, to_ascii_lower, trim,
};
use vstd::prelude::*;

verus! {

/// Names under which Clash lists its own policies.
pub open spec fn control_names() -> Seq<Seq<char>> {
    seq![
        "direct"@,
        "reject"@,
        "compatible"@,
        "pass"@,
        "global"@,
        "proxy"@,
        "auto"@,
        "fallback"@,
    ]
}

/// Chinese words by which a subscription's announcements are told from its nodes.
pub open spec fn chinese_info_words() -> Seq<Seq<char>> {
    seq![
        "剩余流量"@,
        "到期时间"@,
        "官网"@,
        "重置"@,
        "通知"@,
        "套餐"@,
        "维护"@,
        "客服"@,
        "发布"@,
        "频道"@,
        "群组"@,
        "公告"@,
        "说明"@,
        "导航"@,
        "备用"@,
        "测速"@,
        "故障转移"@,
        "负载均衡"@,
        "自动选择"@,
        "更新订阅"@,
        "订阅信息"@,
    ]
}

/// English words by which a subscription's announcements are told from its nodes.
pub open spec fn english_info_words() -> Seq<Seq<char>> {
    seq![
        "expire"@,
        "traffic"@,
        "reset"@,
        "website"@,
        "notice"@,
        "channel"@,
        "group"@,
        "telegram"@,
        "update"@,
        "load-balance"@,
    ]
}

/// `name`, of which `lower` is the lower-case form, is empty, a policy of Clash, or an announcement.
pub open spec fn info_name(name: Seq<char>, lower: Seq<char>) -> bool {
    ||| name.len() == 0
    ||| text::one_of(lower, control_names())
    ||| text::occurs_any(name, chinese_info_words())
    ||| text::occurs_any(lower, english_info_words())
}

/// `node` is blank, a policy of Clash, or an announcement.
pub open spec fn info_node(node: Seq<char>) -> bool {
    info_name(text::trimmed(node), text::lowered(text::trimmed(node)))
}

/// Returns true if a node is an informational, placeholder, or control entry in Clash rather than
/// a usable proxy.
pub fn is_invalid_or_info_node(node: &str) -> (r: bool)
    ensures
        r == info_node(node@),
{
    let name = string_of(trim(&chars_of(node)));
    is_info_name(name.as_str(), lower_of(name.as_str()).as_str())
}

/// Whether a name without white space at its ends, of which `lower` is the lower-case form, is that
/// of an informational, placeholder, or control entry.
pub fn is_info_name(name: &str, lower: &str) -> (r: bool)
    ensures
        r == info_name(name@, lower@),
{
    let name = chars_of(name);
    let lower = chars_of(lower);
    if name.len() == 0 {
        return true;
    }
    let control = vec![
        "direct",
        "reject",
        "compatible",
        "pass",
        "global",
        "proxy",
        "auto",
        "fallback",
    ];
    let zh = vec![
        "剩余流量",
        "到期时间",
        "官网",
        "重置",
        "通知",
        "套餐",
        "维护",
        "客服",
        "发布",
        "频道",
        "群组",
        "公告",
        "说明",
        "导航",
        "备用",
        "测速",
        "故障转移",
        "负载均衡",
        "自动选择",
        "更新订阅",
        "订阅信息",
    ];
    let en = vec![
        "expire",
        "traffic",
        "reset",
        "website",
        "notice",
        "channel",
        "group",
        "telegram",
        "update",
        "load-balance",
    ];
    proof {
        assert(text::texts(control@) =~= control_names());
        assert(text::texts(zh@) =~= chinese_info_words());
        assert(text::texts(en@) =~= english_info_words());
    }
    is_one_of(&lower, &control) || contains_any(&name, &zh) || contains_any(&lower, &en)
}

/// `name`, of which `lower` is the lower-case form, names Hong Kong, in Chinese, by flag, in
/// English, or by the word `hk`.
pub open spec fn names_hong_kong(name: Seq<char>, lower: Seq<char>) -> bool {
    ||| text::occurs_any(name, seq!["香港"@, "🇭🇰"@])
    ||| text::occurs_any(lower, seq!["hong kong"@, "hongkong"@])
    ||| text::has_any_word(lower, seq!["hk"@])
}

/// Whether `name`, of which `lower` is the lower-case form, names Hong Kong.
fn is_hong_kong(name: &[char], lower: &[char]) -> (r: bool)
    ensures
        r == names_hong_kong(name@, lower@),
{
    let here = vec!["香港", "🇭🇰"];
    let english = vec!["hong kong", "hongkong"];
    let words = vec!["hk"];
    proof {
        assert(text::texts(here@) =~= seq!["香港"@, "🇭🇰"@]);
        assert(text::texts(english@) =~= seq!["hong kong"@, "hongkong"@]);
        assert(text::texts(words@) =~= seq!["hk"@]);
    }
    contains_any(name, &here) || contains_any(lower, &english) || contains_any_word(lower, &words)
}

/// `name`, of which `lower` is the lower-case form, names Hong Kong or mainland China, from where
/// the Gemini API is not served.
pub open spec fn unsupported_name(name: Seq<char>, lower: Seq<char>) -> bool {
    ||| names_hong_kong(name, lower)
    ||| text::occurs_any(name, seq!["中国"@, "国内"@, "🇨🇳"@])
    ||| text::occurs(lower, "china"@)
}

/// `node` names Hong Kong or mainland China, from where the Gemini API is not served.
pub open spec fn unsupported(node: Seq<char>) -> bool {
    unsupported_name(text::trimmed(node), text::lowered(text::trimmed(node)))
}

/// Returns true if a node belongs to a region unsupported by Gemini API (e.g. Hong Kong, China).
pub fn is_unsupported_region(node: &str) -> (r: bool)
    ensures
        r == unsupported(node@),
{
    let name = string_of(trim(&chars_of(node)));
    is_unsupported_name(name.as_str(), lower_of(name.as_str()).as_str())
}

/// Whether a name without white space at its ends, of which `lower` is the lower-case form, names a
/// region unsupported by Gemini API.
pub fn is_unsupported_name(name: &str, lower: &str) -> (r: bool)
    ensures
        r == unsupported_name(name@, lower@),
{
    let name = chars_of(name);
    let lower = chars_of(lower);
    let mainland = vec!["中国", "国内", "🇨🇳"];
    proof {
        assert(text::texts(mainland@) =~= seq!["中国"@, "国内"@, "🇨🇳"@]);
    }
    is_hong_kong(&name, &lower) || contains_any(&name, &mainland) || contains(&lower, "china")
}

/// Checks whether a candidate node is valid for routing Gemini API traffic.
/// Excludes dummy/informational nodes and unsupported regions like Hong Kong.
pub fn is_valid_candidate_node(node: &str) -> (r: bool)
    ensures
        r == (!info_node(node@) && !unsupported(node@)),
{
    !is_invalid_or_info_node(node) && !is_unsupported_region(node)
}

/// The form in which a region's identifier is looked up among the names of the known regions:
/// without surrounding white space and in lower case, the ASCII letters first.
pub open spec fn folded(region: Seq<char>) -> Seq<char> {
    text::lowered(text::ascii_lowered(text::trimmed(region)))
}

/// The form in which a region's identifier is looked up among the names of the known regions.
fn fold(region: &str) -> (r: String)
    ensures
        r@ == folded(region@),
{
    lower_of(string_of(&to_ascii_lower(trim(&chars_of(region)))).as_str())
}

/// Both of `a` and `b` are in `group`.
pub open spec fn both_in(a: Seq<char>, b: Seq<char>, group: Seq<Seq<char>>) -> bool {
    text::one_of(a, group) && text::one_of(b, group)
}

/// Whether both of `a` and `b` are in `group`.
fn are_both_in(a: &[char], b: &[char], group: &[&str]) -> (r: bool)
    ensures
        r == both_in(a@, b@, text::texts(group@)),
{
    is_one_of(a, group) && is_one_of(b, group)
}

/// What the United States is called.
pub open spec fn us_names() -> Seq<Seq<char>> {
    seq!["美国"@, "美"@, "us"@, "usa"@, "united states"@, "america"@, "🇺🇸"@]
}

/// What Japan is called.
pub open spec fn jp_names() -> Seq<Seq<char>> {
    seq!["日本"@, "日"@, "jp"@, "japan"@, "🇯🇵"@]
}

/// What Taiwan is called.
pub open spec fn tw_names() -> Seq<Seq<char>> {
    seq!["台湾"@, "台"@, "tw"@, "taiwan"@, "🇹🇼"@]
}

/// What Singapore is called.
pub open spec fn sg_names() -> Seq<Seq<char>> {
    seq!["新加坡"@, "新"@, "sg"@, "singapore"@, "🇸🇬"@, "狮城"@]
}

/// What Hong Kong is called.
pub open spec fn hk_names() -> Seq<Seq<char>> {
    seq!["香港"@, "港"@, "hk"@, "hong kong"@, "🇭🇰"@]
}

/// What South Korea is called.
pub open spec fn kr_names() -> Seq<Seq<char>> {
    seq!["韩国"@, "韩"@, "kr"@, "korea"@, "🇰🇷"@]
}

/// What the United Kingdom is called.
pub open spec fn uk_names() -> Seq<Seq<char>> {
    seq!["英国"@, "英"@, "uk"@, "gb"@, "united kingdom"@, "🇬🇧"@]
}

/// What Germany is called.
pub open spec fn de_names() -> Seq<Seq<char>> {
    seq!["德国"@, "德"@, "de"@, "germany"@, "🇩🇪"@]
}

/// `region` and `target`, which are looked up as `a` and `b`, name the same region: they differ at
/// most in the case of ASCII letters or in surrounding white space, or they are two names of one of
/// the known regions.
pub open spec fn same_names(
    region: Seq<char>,
    target: Seq<char>,
    a: Seq<char>,
    b: Seq<char>,
) -> bool {
    ||| text::same_but_ascii_case(region, target)
    ||| text::trimmed(region) == text::trimmed(target)
    ||| both_in(a, b, us_names())
    ||| both_in(a, b, jp_names())
    ||| both_in(a, b, tw_names())
    ||| both_in(a, b, sg_names())
    ||| both_in(a, b, hk_names())
    ||| both_in(a, b, kr_names())
    ||| both_in(a, b, uk_names())
    ||| both_in(a, b, de_names())
}

/// `region` and `target` name the same region.
pub open spec fn same_region(region: Seq<char>, target: Seq<char>) -> bool {
    same_names(region, target, folded(region), folded(target))
}

/// Compares two region identifiers, matching canonical aliases (e.g. "美国" == "US",
/// "日本" == "JP").
pub fn canonical_region_matches(region: &str, target: &str) -> (r: bool)
    ensures
        r == same_region(region@, target@),
{
    names_match(region, target, fold(region).as_str(), fold(target).as_str())
}

/// Compares two region identifiers, which are looked up among the names of the known regions as
/// `a` and `b`.
pub fn names_match(region: &str, target: &str, a: &str, b: &str) -> (r: bool)
    ensures
        r == same_names(region@, target@, a@, b@),
{
    if same_ignoring_ascii_case(region, target) {
        return true;
    }
    let region_chars = chars_of(region);
    let target_chars = chars_of(target);
    if same(trim(&region_chars), trim(&target_chars)) {
        return true;
    }
    let x = chars_of(a);
    let y = chars_of(b);
    let us = vec!["美国", "美", "us", "usa", "united states", "america", "🇺🇸"];
    let jp = vec!["日本", "日", "jp", "japan", "🇯🇵"];
    let tw = vec!["台湾", "台", "tw", "taiwan", "🇹🇼"];
    let sg = vec!["新加坡", "新", "sg", "singapore", "🇸🇬", "狮城"];
    let hk = vec!["香港", "港", "hk", "hong kong", "🇭🇰"];
    let kr = vec!["韩国", "韩", "kr", "korea", "🇰🇷"];
    let uk = vec!["英国", "英", "uk", "gb", "united kingdom", "🇬🇧"];
    let de = vec!["德国", "德", "de", "germany", "🇩🇪"];
    proof {
        assert(text::texts(us@) =~= us_names());
        assert(text::texts(jp@) =~= jp_names());
        assert(text::texts(tw@) =~= tw_names());
        assert(text::texts(sg@) =~= sg_names());
        assert(text::texts(hk@) =~= hk_names());
        assert(text::texts(kr@) =~= kr_names());
        assert(text::texts(uk@) =~= uk_names());
        assert(text::texts(de@) =~= de_names());
    }
    are_both_in(&x, &y, &us)
        || are_both_in(&x, &y, &jp)
        || are_both_in(&x, &y, &tw)
        || are_both_in(&x, &y, &sg)
        || are_both_in(&x, &y, &hk)
        || are_both_in(&x, &y, &kr)
        || are_both_in(&x, &y, &uk)
        || are_both_in(&x, &y, &de)
}

/// Any region's identifier matches itself.
pub proof fn region_matches_itself(region: Seq<char>)
    ensures
        same_region(region, region),
{
}

/// Which of two region identifiers is given first makes no difference to whether they match.
pub proof fn region_match_is_symmetric(a: Seq<char>, b: Seq<char>)
    ensures
        same_region(a, b) == same_region(b, a),
{
}

/// `name` is one of the names of a known region.
pub open spec fn is_alias(name: Seq<char>) -> bool {
    ||| text::one_of(name, us_names())
    ||| text::one_of(name, jp_names())
    ||| text::one_of(name, tw_names())
    ||| text::one_of(name, sg_names())
    ||| text::one_of(name, hk_names())
    ||| text::one_of(name, kr_names())
    ||| text::one_of(name, uk_names())
    ||| text::one_of(name, de_names())
}

/// Two identifiers that both match a name of a known region match each other.
pub proof fn region_match_is_transitive(a: Seq<char>, b: Seq<char>, c: Seq<char>)
    requires
        is_alias(folded(b)),
        same_region(a, b),
        same_region(b, c),
    ensures
        same_region(a, c),
{
    if text::same_but_ascii_case(a, b) {
        folding_ignores_ascii_case(a, b);
    }
    if text::same_but_ascii_case(b, c) {
        folding_ignores_ascii_case(b, c);
    }
    names_tell_regions_apart(folded(b));
}

/// Identifiers that differ at most in the case of ASCII letters are looked up in the same form.
proof fn folding_ignores_ascii_case(a: Seq<char>, b: Seq<char>)
    requires
        text::same_but_ascii_case(a, b),
    ensures
        folded(a) == folded(b),
{
    text::trimming_keeps_ascii_lower(a);
    text::trimming_keeps_ascii_lower(b);
}

/// By how it begins, the only known region that `name` may be a name of.
spec fn region_number(name: Seq<char>) -> int {
    let c = name[0];
    if c == 'u' && (name[1] == 's' || name.len() == 13) {
        0
    } else if c == '美' || c == 'a' || c == '\u{1f1fa}' {
        0
    } else if c == '日' || c == 'j' || c == '\u{1f1ef}' {
        1
    } else if c == '台' || c == 't' || c == '\u{1f1f9}' {
        2
    } else if c == '新' || c == 's' || c == '\u{1f1f8}' || c == '狮' {
        3
    } else if c == '香' || c == '港' || c == 'h' || c == '\u{1f1ed}' {
        4
    } else if c == '韩' || c == 'k' || c == '\u{1f1f0}' {
        5
    } else if c == 'g' && name[1] == 'e' {
        7
    } else if c == '德' || c == 'd' || c == '\u{1f1e9}' {
        7
    } else {
        6
    }
}

/// No name is one of two regions.
proof fn names_tell_regions_apart(name: Seq<char>)
    ensures
        text::one_of(name, us_names()) ==> region_number(name) == 0,
        text::one_of(name, jp_names()) ==> region_number(name) == 1,
        text::one_of(name, tw_names()) ==> region_number(name) == 2,
        text::one_of(name, sg_names()) ==> region_number(name) == 3,
        text::one_of(name, hk_names()) ==> region_number(name) == 4,
        text::one_of(name, kr_names()) ==> region_number(name) == 5,
        text::one_of(name, uk_names()) ==> region_number(name) == 6,
        text::one_of(name, de_names()) ==> region_number(name) == 7,
{
    if text::one_of(name, us_names()) {
        reveal_strlit("美国");
        reveal_strlit("美");
        reveal_strlit("us");
        reveal_strlit("usa");
        reveal_strlit("united states");
        reveal_strlit("america");
        reveal_strlit("🇺🇸");
        assert(name == "美国"@
            || name == "美"@
            || name == "us"@
            || name == "usa"@
            || name == "united states"@
            || name == "america"@
            || name == "🇺🇸"@);
    }
    if text::one_of(name, jp_names()) {
        reveal_strlit("日本");
        reveal_strlit("日");
        reveal_strlit("jp");
        reveal_strlit("japan");
        reveal_strlit("🇯🇵");
        assert(name == "日本"@
            || name == "日"@
            || name == "jp"@
            || name == "japan"@
            || name == "🇯🇵"@);
    }
    if text::one_of(name, tw_names()) {
        reveal_strlit("台湾");
        reveal_strlit("台");
        reveal_strlit("tw");
        reveal_strlit("taiwan");
        reveal_strlit("🇹🇼");
        assert(name == "台湾"@
            || name == "台"@
            || name == "tw"@
            || name == "taiwan"@
            || name == "🇹🇼"@);
    }
    if text::one_of(name, sg_names()) {
        reveal_strlit("新加坡");
        reveal_strlit("新");
        reveal_strlit("sg");
        reveal_strlit("singapore");
        reveal_strlit("🇸🇬");
        reveal_strlit("狮城");
        assert(name == "新加坡"@
            || name == "新"@
            || name == "sg"@
            || name == "singapore"@
            || name == "🇸🇬"@
            || name == "狮城"@);
    }
    if text::one_of(name, hk_names()) {
        reveal_strlit("香港");
        reveal_strlit("港");
        reveal_strlit("hk");
        reveal_strlit("hong kong");
        reveal_strlit("🇭🇰");
        assert(name == "香港"@
            || name == "港"@
            || name == "hk"@
            || name == "hong kong"@
            || name == "🇭🇰"@);
    }
    if text::one_of(name, kr_names()) {
        reveal_strlit("韩国");
        reveal_strlit("韩");
        reveal_strlit("kr");
        reveal_strlit("korea");
        reveal_strlit("🇰🇷");
        assert(name == "韩国"@
            || name == "韩"@
            || name == "kr"@
            || name == "korea"@
            || name == "🇰🇷"@);
    }
    if text::one_of(name, uk_names()) {
        reveal_strlit("英国");
        reveal_strlit("英");
        reveal_strlit("uk");
        reveal_strlit("gb");
        reveal_strlit("united kingdom");
        reveal_strlit("🇬🇧");
        assert(name == "英国"@
            || name == "英"@
            || name == "uk"@
            || name == "gb"@
            || name == "united kingdom"@
            || name == "🇬🇧"@);
    }
    if text::one_of(name, de_names()) {
        reveal_strlit("德国");
        reveal_strlit("德");
        reveal_strlit("de");
        reveal_strlit("germany");
        reveal_strlit("🇩🇪");
        assert(name == "德国"@
            || name == "德"@
            || name == "de"@
            || name == "germany"@
            || name == "🇩🇪"@);
    }
}

/// `name` holds one of `here`, or its lower-case form holds one of `english` or, as a word by
/// itself, one of `words`.
pub open spec fn marked(
    name: Seq<char>,
    lower: Seq<char>,
    here: Seq<Seq<char>>,
    english: Seq<Seq<char>>,
    words: Seq<Seq<char>>,
) -> bool {
    ||| text::occurs_any(name, here)
    ||| text::occurs_any(lower, english)
    ||| text::has_any_word(lower, words)
}

/// Whether `name` is marked; `lower` is its lower-case form.
fn is_marked(
    name: &[char],
    lower: &[char],
    here: &[&str],
    english: &[&str],
    words: &[&str],
) -> (r: bool)
    ensures
        r == marked(name@, lower@, text::texts(here@), text::texts(english@), text::texts(words@)),
{
    contains_any(name, here) || contains_any(lower, english) || contains_any_word(lower, words)
}

/// `name`, of which `lower` is the lower-case form, names the United States or one of its cities.
pub open spec fn names_us(name: Seq<char>, lower: Seq<char>) -> bool {
    marked(
        name,
        lower,
        seq![
            "美国"@, "🇺🇸"@, "洛杉矶"@, "硅谷"@, "西雅图"@, "芝加哥"@, "纽约"@, "凤凰城"@, "波特兰"@, "圣何塞"@, "达拉斯"@,
            "迈阿密"@,
        ],
        seq![
            "united states"@, "los angeles"@, "silicon valley"@, "seattle"@, "chicago"@,
            "new york"@, "phoenix"@, "portland"@,
        ],
        seq!["us"@, "usa"@],
    )
}

/// Whether `name`, of which `lower` is the lower-case form, names the United States or one of its
/// cities.
fn is_us(name: &[char], lower: &[char]) -> (r: bool)
    ensures
        r == names_us(name@, lower@),
{
    let here = vec!["美国", "🇺🇸", "洛杉矶", "硅谷", "西雅图", "芝加哥", "纽约", "凤凰城", "波特兰", "圣何塞", "达拉斯", "迈阿密"];
    let english = vec![
        "united states", "los angeles", "silicon valley", "seattle", "chicago", "new york",
        "phoenix", "portland",
    ];
    let words = vec!["us", "usa"];
    proof {
        assert(text::texts(here@) =~= seq![
            "美国"@, "🇺🇸"@, "洛杉矶"@, "硅谷"@, "西雅图"@, "芝加哥"@, "纽约"@, "凤凰城"@, "波特兰"@, "圣何塞"@, "达拉斯"@,
            "迈阿密"@,
        ]);
        assert(text::texts(english@) =~= seq![
            "united states"@, "los angeles"@, "silicon valley"@, "seattle"@, "chicago"@,
            "new york"@, "phoenix"@, "portland"@,
        ]);
        assert(text::texts(words@) =~= seq!["us"@, "usa"@]);
    }
    is_marked(name, lower, &here, &english, &words)
}

/// `name`, of which `lower` is the lower-case form, names Japan or one of its cities.
pub open spec fn names_jp(name: Seq<char>, lower: Seq<char>) -> bool {
    marked(
        name,
        lower,
        seq!["日本"@, "🇯🇵"@, "东京"@, "大阪"@],
        seq!["japan"@, "tokyo"@, "osaka"@],
        seq!["jp"@],
    )
}

/// Whether `name`, of which `lower` is the lower-case form, names Japan or one of its cities.
fn is_jp(name: &[char], lower: &[char]) -> (r: bool)
    ensures
        r == names_jp(name@, lower@),
{
    let here = vec!["日本", "🇯🇵", "东京", "大阪"];
    let english = vec!["japan", "tokyo", "osaka"];
    let words = vec!["jp"];
    proof {
        assert(text::texts(here@) =~= seq!["日本"@, "🇯🇵"@, "东京"@, "大阪"@]);
        assert(text::texts(english@) =~= seq!["japan"@, "tokyo"@, "osaka"@]);
        assert(text::texts(words@) =~= seq!["jp"@]);
    }
    is_marked(name, lower, &here, &english, &words)
}

/// `name`, of which `lower` is the lower-case form, names Taiwan or one of its cities.
pub open spec fn names_tw(name: Seq<char>, lower: Seq<char>) -> bool {
    marked(
        name,
        lower,
        seq!["台湾"@, "🇹🇼"@, "台北"@, "台中"@, "新北"@],
        seq!["taiwan"@, "taipei"@],
        seq!["tw"@],
    )
}

/// Whether `name`, of which `lower` is the lower-case form, names Taiwan or one of its cities.
fn is_tw(name: &[char], lower: &[char]) -> (r: bool)
    ensures
        r == names_tw(name@, lower@),
{
    let here = vec!["台湾", "🇹🇼", "台北", "台中", "新北"];
    let english = vec!["taiwan", "taipei"];
    let words = vec!["tw"];
    proof {
        assert(text::texts(here@) =~= seq!["台湾"@, "🇹🇼"@, "台北"@, "台中"@, "新北"@]);
        assert(text::texts(english@) =~= seq!["taiwan"@, "taipei"@]);
        assert(text::texts(words@) =~= seq!["tw"@]);
    }
    is_marked(name, lower, &here, &english, &words)
}

/// `name`, of which `lower` is the lower-case form, names Singapore or one of its cities.
pub open spec fn names_sg(name: Seq<char>, lower: Seq<char>) -> bool {
    marked(
        name,
        lower,
        seq!["新加坡"@, "🇸🇬"@, "狮城"@],
        seq!["singapore"@],
        seq!["sg"@],
    )
}

/// Whether `name`, of which `lower` is the lower-case form, names Singapore or one of its cities.
fn is_sg(name: &[char], lower: &[char]) -> (r: bool)
    ensures
        r == names_sg(name@, lower@),
{
    let here = vec!["新加坡", "🇸🇬", "狮城"];
    let english = vec!["singapore"];
    let words = vec!["sg"];
    proof {
        assert(text::texts(here@) =~= seq!["新加坡"@, "🇸🇬"@, "狮城"@]);
        assert(text::texts(english@) =~= seq!["singapore"@]);
        assert(text::texts(words@) =~= seq!["sg"@]);
    }
    is_marked(name, lower, &here, &english, &words)
}

/// `name`, of which `lower` is the lower-case form, names South Korea or one of its cities.
pub open spec fn names_kr(name: Seq<char>, lower: Seq<char>) -> bool {
    marked(
        name,
        lower,
        seq!["韩国"@, "🇰🇷"@, "首尔"@],
        seq!["korea"@, "seoul"@],
        seq!["kr"@],
    )
}

/// Whether `name`, of which `lower` is the lower-case form, names South Korea or one of its cities.
fn is_kr(name: &[char], lower: &[char]) -> (r: bool)
    ensures
        r == names_kr(name@, lower@),
{
    let here = vec!["韩国", "🇰🇷", "首尔"];
    let english = vec!["korea", "seoul"];
    let words = vec!["kr"];
    proof {
        assert(text::texts(here@) =~= seq!["韩国"@, "🇰🇷"@, "首尔"@]);
        assert(text::texts(english@) =~= seq!["korea"@, "seoul"@]);
        assert(text::texts(words@) =~= seq!["kr"@]);
    }
    is_marked(name, lower, &here, &english, &words)
}

/// `name`, of which `lower` is the lower-case form, names the United Kingdom or one of its cities.
pub open spec fn names_uk(name: Seq<char>, lower: Seq<char>) -> bool {
    marked(
        name,
        lower,
        seq!["英国"@, "🇬🇧"@, "伦敦"@],
        seq!["united kingdom"@, "london"@],
        seq!["uk"@, "gb"@],
    )
}

/// Whether `name`, of which `lower` is the lower-case form, names the United Kingdom or one of its
/// cities.
fn is_uk(name: &[char], lower: &[char]) -> (r: bool)
    ensures
        r == names_uk(name@, lower@),
{
    let here = vec!["英国", "🇬🇧", "伦敦"];
    let english = vec!["united kingdom", "london"];
    let words = vec!["uk", "gb"];
    proof {
        assert(text::texts(here@) =~= seq!["英国"@, "🇬🇧"@, "伦敦"@]);
        assert(text::texts(english@) =~= seq!["united kingdom"@, "london"@]);
        assert(text::texts(words@) =~= seq!["uk"@, "gb"@]);
    }
    is_marked(name, lower, &here, &english, &words)
}

/// `name`, of which `lower` is the lower-case form, names Germany or one of its cities.
pub open spec fn names_de(name: Seq<char>, lower: Seq<char>) -> bool {
    marked(
        name,
        lower,
        seq!["德国"@, "🇩🇪"@, "法兰克福"@],
        seq!["germany"@, "frankfurt"@],
        seq!["de"@],
    )
}

/// Whether `name`, of which `lower` is the lower-case form, names Germany or one of its cities.
fn is_de(name: &[char], lower: &[char]) -> (r: bool)
    ensures
        r == names_de(name@, lower@),
{
    let here = vec!["德国", "🇩🇪", "法兰克福"];
    let english = vec!["germany", "frankfurt"];
    let words = vec!["de"];
    proof {
        assert(text::texts(here@) =~= seq!["德国"@, "🇩🇪"@, "法兰克福"@]);
        assert(text::texts(english@) =~= seq!["germany"@, "frankfurt"@]);
        assert(text::texts(words@) =~= seq!["de"@]);
    }
    is_marked(name, lower, &here, &english, &words)
}

/// The first of the known regions that `name`, of which `lower` is the lower-case form, names.
pub open spec fn known_region(name: Seq<char>, lower: Seq<char>) -> Option<Seq<char>> {
    if names_us(name, lower) {
        Some("美国"@)
    } else if names_jp(name, lower) {
        Some("日本"@)
    } else if names_tw(name, lower) {
        Some("台湾"@)
    } else if names_sg(name, lower) {
        Some("新加坡"@)
    } else if names_kr(name, lower) {
        Some("韩国"@)
    } else if names_uk(name, lower) {
        Some("英国"@)
    } else if names_de(name, lower) {
        Some("德国"@)
    } else {
        None
    }
}

/// The first of the known regions that `name`, of which `lower` is the lower-case form, names.
fn detect_region(name: &[char], lower: &[char]) -> (r: Option<&'static str>)
    ensures
        match r {
            Some(region) => known_region(name@, lower@) == Some(region@),
            None => known_region(name@, lower@) is None,
        },
{
    if is_us(name, lower) {
        Some("美国")
    } else if is_jp(name, lower) {
        Some("日本")
    } else if is_tw(name, lower) {
        Some("台湾")
    } else if is_sg(name, lower) {
        Some("新加坡")
    } else if is_kr(name, lower) {
        Some("韩国")
    } else if is_uk(name, lower) {
        Some("英国")
    } else if is_de(name, lower) {
        Some("德国")
    } else {
        None
    }
}

/// The identifier of a configured region, in the forms in which it is looked for.
pub struct Spelling {
    /// The identifier itself.
    pub name: String,
    /// Its lower-case form.
    pub lower: String,
    /// The form in which it is looked up among the names of the known regions.
    pub form: String,
}

impl View for Spelling {
    type V = (Seq<char>, Seq<char>, Seq<char>);

    open spec fn view(&self) -> (Seq<char>, Seq<char>, Seq<char>) {
        (self.name@, self.lower@, self.form@)
    }
}

/// The views of spellings.
pub open spec fn spellings(list: Seq<Spelling>) -> Seq<(Seq<char>, Seq<char>, Seq<char>)> {
    Seq::new(list.len(), |i: int| list[i]@)
}

/// The identifier `region` in the forms in which it is looked for.
pub open spec fn spelled(region: Seq<char>) -> (Seq<char>, Seq<char>, Seq<char>) {
    (region, text::lowered(region), folded(region))
}

/// The identifiers `configured` in the forms in which they are looked for.
pub open spec fn all_spelled(configured: Seq<Seq<char>>) -> Seq<
    (Seq<char>, Seq<char>, Seq<char>),
> {
    Seq::new(configured.len(), |i: int| spelled(configured[i]))
}

/// The first identifier in `list` of whose forms `p` holds.
pub open spec fn first_spelled(
    list: Seq<(Seq<char>, Seq<char>, Seq<char>)>,
    p: spec_fn((Seq<char>, Seq<char>, Seq<char>)) -> bool,
) -> Option<Seq<char>>
    decreases list.len(),
{
    if list.len() == 0 {
        None
    } else if p(list[0]) {
        Some(list[0].0)
    } else {
        first_spelled(list.drop_first(), p)
    }
}

/// `node`, of which `lower` is the lower-case form, holds `region`, which is not empty, in the same
/// or in lower case. Chinese characters have no case.
pub open spec fn mentions(
    node: Seq<char>,
    lower: Seq<char>,
    region: (Seq<char>, Seq<char>, Seq<char>),
) -> bool {
    &&& region.0.len() > 0
    &&& text::occurs(node, region.0) || !text::chinese(region.0) && text::occurs(lower, region.1)
}

/// The region that `node` is counted to: Hong Kong if it names that; else the first known region
/// that it names, as the first of `configured` with that meaning spells it; else the first of
/// `configured` that it mentions; else the rest. `lower` is the lower-case form of `node`, and
/// `inner` that of `node` without white space at its ends; the name of a known region is looked up
/// as it stands.
pub open spec fn region_among(
    node: Seq<char>,
    lower: Seq<char>,
    inner: Seq<char>,
    configured: Seq<(Seq<char>, Seq<char>, Seq<char>)>,
) -> Seq<char> {
    if names_hong_kong(text::trimmed(node), inner) {
        "香港"@
    } else {
        match known_region(node, lower) {
            Some(known) => match first_spelled(
                configured,
                |c: (Seq<char>, Seq<char>, Seq<char>)| same_names(known, c.0, known, c.2),
            ) {
                Some(c) => c,
                None => known,
            },
            None => match first_spelled(
                configured,
                |c: (Seq<char>, Seq<char>, Seq<char>)| mentions(node, lower, c),
            ) {
                Some(c) => c,
                None => "其他"@,
            },
        }
    }
}

/// The region that `node` is counted to where the regions `configured` are configured.
pub open spec fn region_of(node: Seq<char>, configured: Seq<Seq<char>>) -> Seq<char> {
    region_among(
        node,
        text::lowered(node),
        text::lowered(text::trimmed(node)),
        all_spelled(configured),
    )
}

/// Extracts or canonicalizes the region of a node based on emoji flags, prefixes, country names,
/// and city keywords.
pub fn extract_region(node: &str, configured_regions: &[String]) -> (r: String)
    ensures
        r@ == region_of(node@, text::strings(configured_regions@)),
{
    let ghost all = all_spelled(text::strings(configured_regions@));
    let mut configured: Vec<Spelling> = Vec::new();
    let mut i: usize = 0;
    while i < configured_regions.len()
        invariant
            i <= configured_regions.len(),
            all == all_spelled(text::strings(configured_regions@)),
            spellings(configured@) =~= all.take(i as int),
        decreases configured_regions.len() - i,
    {
        let region = configured_regions[i].as_str();
        let spelling = Spelling {
            name: region.to_owned(),
            lower: lower_of(region),
            form: fold(region),
        };
        let ghost before = configured@;
        configured.push(spelling);
        proof {
            assert(all[i as int] == spelling@);
            assert(spellings(configured@) =~= spellings(before).push(spelling@));
            assert(all.take(i + 1) =~= all.take(i as int).push(spelling@));
        }
        i += 1;
    }
    proof {
        assert(all.take(i as int) =~= all);
    }
    let inner = string_of(trim(&chars_of(node)));
    find_region(node, lower_of(node).as_str(), lower_of(inner.as_str()).as_str(), &configured)
}

/// The region of a node; `lower` is the lower-case form of its name, and `inner` that of its name
/// without white space at its ends.
pub fn find_region(node: &str, lower: &str, inner: &str, configured: &[Spelling]) -> (r: String)
    ensures
        r@ == region_among(node@, lower@, inner@, spellings(configured@)),
{
    let name = chars_of(node);
    let small = chars_of(lower);
    if is_hong_kong(trim(&name), &chars_of(inner)) {
        return "香港".to_owned();
    }
    let ghost all = spellings(configured@);
    proof {
        assert(all.skip(0) =~= all);
    }
    let mut i: usize = 0;
    match detect_region(&name, &small) {
        Some(known) => {
            let ghost p = |c: (Seq<char>, Seq<char>, Seq<char>)|
                same_names(known@, c.0, known@, c.2);
            while i < configured.len()
                invariant
                    i <= configured.len(),
                    all == spellings(configured@),
                    p == (|c: (Seq<char>, Seq<char>, Seq<char>)|
                        same_names(known@, c.0, known@, c.2)),
                    first_spelled(all, p) == first_spelled(all.skip(i as int), p),
                    !names_hong_kong(text::trimmed(node@), inner@),
                    known_region(node@, lower@) == Some(known@),
                decreases configured.len() - i,
            {
                proof {
                    assert(all.skip(i as int)[0] == configured@[i as int]@);
                    assert(all.skip(i as int).drop_first() =~= all.skip(i + 1));
                }
                let region = &configured[i];
                if names_match(known, region.name.as_str(), known, region.form.as_str()) {
                    return region.name.clone();
                }
                i += 1;
            }
            known.to_owned()
        },
        None => {
            let ghost p = |c: (Seq<char>, Seq<char>, Seq<char>)| mentions(node@, lower@, c);
            while i < configured.len()
                invariant
                    i <= configured.len(),
                    name@ == node@,
                    small@ == lower@,
                    all == spellings(configured@),
                    p == (|c: (Seq<char>, Seq<char>, Seq<char>)| mentions(node@, lower@, c)),
                    first_spelled(all, p) == first_spelled(all.skip(i as int), p),
                    !names_hong_kong(text::trimmed(node@), inner@),
                    known_region(node@, lower@) is None,
                decreases configured.len() - i,
            {
                proof {
                    assert(all.skip(i as int)[0] == configured@[i as int]@);
                    assert(all.skip(i as int).drop_first() =~= all.skip(i + 1));
                }
                let region = &configured[i];
                let letters = chars_of(region.name.as_str());
                if !letters.is_empty() && (contains(&name, region.name.as_str()) || (!is_chinese(
                    &letters,
                ) && contains(&small, region.lower.as_str()))) {
                    return region.name.clone();
                }
                i += 1;
            }
            "其他".to_owned()
        },
    }
}

/// A node is counted to Hong Kong if and only if it names Hong Kong, whatever regions are
/// configured.
pub proof fn hong_kong_does_not_depend_on_settings(node: Seq<char>, configured: Seq<Seq<char>>)
    ensures
        (region_of(node, configured) == "香港"@) == names_hong_kong(
            text::trimmed(node),
            text::lowered(text::trimmed(node)),
        ),
{
    reveal_strlit("香港");
    reveal_strlit("其他");
    assert("其他"@[0] != "香港"@[0]);
    let lower = text::lowered(node);
    if !names_hong_kong(text::trimmed(node), text::lowered(text::trimmed(node))) {
        match known_region(node, lower) {
            Some(known) => {
                known_region_is_not_hong_kong(node, lower);
                first_spelled_holds(
                    configured,
                    |c: (Seq<char>, Seq<char>, Seq<char>)| same_names(known, c.0, known, c.2),
                );
            },
            None => {
                first_spelled_holds(
                    configured,
                    |c: (Seq<char>, Seq<char>, Seq<char>)| mentions(node, lower, c),
                );
                if mentions(node, lower, spelled("香港"@)) {
                    text::trimming_keeps_what_occurs(node, "香港"@);
                    assert(text::occurs_any(text::trimmed(node), seq!["香港"@, "🇭🇰"@])) by {
                        assert(seq!["香港"@, "🇭🇰"@][0] == "香港"@);
                    }
                }
            },
        }
    }
}

/// A node that is counted to Hong Kong is no valid candidate.
pub proof fn hong_kong_is_no_candidate(node: Seq<char>, configured: Seq<Seq<char>>)
    requires
        region_of(node, configured) == "香港"@,
    ensures
        unsupported(node),
{
    hong_kong_does_not_depend_on_settings(node, configured);
}

/// What is found among identifiers is as it was asked for.
proof fn first_spelled_holds(
    configured: Seq<Seq<char>>,
    p: spec_fn((Seq<char>, Seq<char>, Seq<char>)) -> bool,
)
    ensures
        first_spelled(all_spelled(configured), p) matches Some(found) ==> p(spelled(found)),
    decreases configured.len(),
{
    if configured.len() > 0 && !p(spelled(configured[0])) {
        assert(all_spelled(configured).drop_first() =~= all_spelled(configured.drop_first()));
        first_spelled_holds(configured.drop_first(), p);
    }
}

/// Of the regions that are told by their marks, none matches Hong Kong.
proof fn known_region_is_not_hong_kong(name: Seq<char>, lower: Seq<char>)
    ensures
        known_region(name, lower) matches Some(known) ==> known != "香港"@ && !same_names(
            known,
            "香港"@,
            known,
            folded("香港"@),
        ),
{
    if let Some(known) = known_region(name, lower) {
        reveal_strlit("香港");
        reveal_strlit("美国");
        reveal_strlit("日本");
        reveal_strlit("台湾");
        reveal_strlit("新加坡");
        reveal_strlit("韩国");
        reveal_strlit("英国");
        reveal_strlit("德国");
        let hong_kong = "香港"@;
        assert(known[0] != hong_kong[0]);
        assert(text::trimmed(known) == known);
        assert(text::trimmed(hong_kong) == hong_kong);
        assert(text::ascii_lowered(known)[0] == known[0]);
        assert(text::ascii_lowered(hong_kong)[0] == hong_kong[0]);
        assert(text::ascii_lowered(hong_kong) =~= hong_kong);
        assert(text::ascii_or_chinese(hong_kong));
        assert(folded(hong_kong) == hong_kong);
        names_tell_regions_apart(known);
        names_tell_regions_apart(hong_kong);
        assert(region_number(known) != region_number(hong_kong));
    }
}

/// A node is no proxy just where its name is blank, is that of one of Clash's policies in whatever
/// case, or holds one of the words of announcements.
pub proof fn announcements_and_policies_are_no_nodes(node: Seq<char>)
    ensures
        info_node(node) <==> {
            let name = text::trimmed(node);
            let lower = text::lowered(name);
            ||| name.len() == 0
            ||| lower == "direct"@
            ||| lower == "reject"@
            ||| lower == "compatible"@
            ||| lower == "pass"@
            ||| lower == "global"@
            ||| lower == "proxy"@
            ||| lower == "auto"@
            ||| lower == "fallback"@
            ||| text::occurs(name, "剩余流量"@)
            ||| text::occurs(name, "到期时间"@)
            ||| text::occurs(name, "官网"@)
            ||| text::occurs(name, "重置"@)
            ||| text::occurs(name, "通知"@)
            ||| text::occurs(name, "套餐"@)
            ||| text::occurs(name, "维护"@)
            ||| text::occurs(name, "客服"@)
            ||| text::occurs(name, "发布"@)
            ||| text::occurs(name, "频道"@)
            ||| text::occurs(name, "群组"@)
            ||| text::occurs(name, "公告"@)
            ||| text::occurs(name, "说明"@)
            ||| text::occurs(name, "导航"@)
            ||| text::occurs(name, "备用"@)
            ||| text::occurs(name, "测速"@)
            ||| text::occurs(name, "故障转移"@)
            ||| text::occurs(name, "负载均衡"@)
            ||| text::occurs(name, "自动选择"@)
            ||| text::occurs(name, "更新订阅"@)
            ||| text::occurs(name, "订阅信息"@)
            ||| text::occurs(lower, "expire"@)
            ||| text::occurs(lower, "traffic"@)
            ||| text::occurs(lower, "reset"@)
            ||| text::occurs(lower, "website"@)
            ||| text::occurs(lower, "notice"@)
            ||| text::occurs(lower, "channel"@)
            ||| text::occurs(lower, "group"@)
            ||| text::occurs(lower, "telegram"@)
            ||| text::occurs(lower, "update"@)
            ||| text::occurs(lower, "load-balance"@)
        },
{
    let control = control_names();
    assert(control[0] == "direct"@ && control[1] == "reject"@ && control[2] == "compatible"@
        && control[3] == "pass"@ && control[4] == "global"@ && control[5] == "proxy"@
        && control[6] == "auto"@ && control[7] == "fallback"@);
    let chinese = chinese_info_words();
    assert(chinese[0] == "剩余流量"@ && chinese[1] == "到期时间"@ && chinese[2] == "官网"@
        && chinese[3] == "重置"@ && chinese[4] == "通知"@ && chinese[5] == "套餐"@
        && chinese[6] == "维护"@ && chinese[7] == "客服"@ && chinese[8] == "发布"@
        && chinese[9] == "频道"@ && chinese[10] == "群组"@ && chinese[11] == "公告"@
        && chinese[12] == "说明"@ && chinese[13] == "导航"@ && chinese[14] == "备用"@
        && chinese[15] == "测速"@ && chinese[16] == "故障转移"@ && chinese[17] == "负载均衡"@
        && chinese[18] == "自动选择"@ && chinese[19] == "更新订阅"@ && chinese[20] == "订阅信息"@);
    let english = english_info_words();
    assert(english[0] == "expire"@ && english[1] == "traffic"@ && english[2] == "reset"@
        && english[3] == "website"@ && english[4] == "notice"@ && english[5] == "channel"@
        && english[6] == "group"@ && english[7] == "telegram"@ && english[8] == "update"@
        && english[9] == "load-balance"@);
}

/// `name`, of which `lower` is the lower-case form, has one of the marks of Hong Kong.
pub open spec fn marked_hong_kong(name: Seq<char>, lower: Seq<char>) -> bool {
    ||| text::occurs(name, "香港"@)
    ||| text::occurs(name, "🇭🇰"@)
    ||| text::occurs(lower, "hong kong"@)
    ||| text::occurs(lower, "hongkong"@)
    ||| text::has_word(lower, "hk"@)
}

proof fn hong_kong_marks(name: Seq<char>, lower: Seq<char>)
    ensures
        names_hong_kong(name, lower) == marked_hong_kong(name, lower),
{
    let here = seq!["香港"@, "🇭🇰"@];
    assert(here[0] == "香港"@ && here[1] == "🇭🇰"@);
    let english = seq!["hong kong"@, "hongkong"@];
    assert(english[0] == "hong kong"@ && english[1] == "hongkong"@);
    let words = seq!["hk"@];
    assert(words[0] == "hk"@);
}

/// A node is not served just where its name has one of the marks of Hong Kong or mainland China.
pub proof fn unserved_places_are_told_by_their_marks(node: Seq<char>)
    ensures
        unsupported(node) <==> {
            let name = text::trimmed(node);
            let lower = text::lowered(name);
            ||| marked_hong_kong(name, lower)
            ||| text::occurs(name, "中国"@)
            ||| text::occurs(name, "国内"@)
            ||| text::occurs(name, "🇨🇳"@)
            ||| text::occurs(lower, "china"@)
        },
{
    let name = text::trimmed(node);
    hong_kong_marks(name, text::lowered(name));
    let mainland = seq!["中国"@, "国内"@, "🇨🇳"@];
    assert(mainland[0] == "中国"@ && mainland[1] == "国内"@ && mainland[2] == "🇨🇳"@);
}

/// `name`, of which `lower` is the lower-case form, has one of the marks of the United States.
pub open spec fn marked_us(name: Seq<char>, lower: Seq<char>) -> bool {
    ||| text::occurs(name, "美国"@)
    ||| text::occurs(name, "🇺🇸"@)
    ||| text::occurs(name, "洛杉矶"@)
    ||| text::occurs(name, "硅谷"@)
    ||| text::occurs(name, "西雅图"@)
    ||| text::occurs(name, "芝加哥"@)
    ||| text::occurs(name, "纽约"@)
    ||| text::occurs(name, "凤凰城"@)
    ||| text::occurs(name, "波特兰"@)
    ||| text::occurs(name, "圣何塞"@)
    ||| text::occurs(name, "达拉斯"@)
    ||| text::occurs(name, "迈阿密"@)
    ||| text::occurs(lower, "united states"@)
    ||| text::occurs(lower, "los angeles"@)
    ||| text::occurs(lower, "silicon valley"@)
    ||| text::occurs(lower, "seattle"@)
    ||| text::occurs(lower, "chicago"@)
    ||| text::occurs(lower, "new york"@)
    ||| text::occurs(lower, "phoenix"@)
    ||| text::occurs(lower, "portland"@)
    ||| text::has_word(lower, "us"@)
    ||| text::has_word(lower, "usa"@)
}

proof fn us_marks(name: Seq<char>, lower: Seq<char>)
    ensures
        names_us(name, lower) == marked_us(name, lower),
{
    let here = seq![
        "美国"@, "🇺🇸"@, "洛杉矶"@, "硅谷"@, "西雅图"@, "芝加哥"@, "纽约"@, "凤凰城"@, "波特兰"@, "圣何塞"@, "达拉斯"@,
        "迈阿密"@,
    ];
    assert(here[0] == "美国"@ && here[1] == "🇺🇸"@ && here[2] == "洛杉矶"@ && here[3] == "硅谷"@
        && here[4] == "西雅图"@ && here[5] == "芝加哥"@ && here[6] == "纽约"@ && here[7] == "凤凰城"@
        && here[8] == "波特兰"@ && here[9] == "圣何塞"@ && here[10] == "达拉斯"@ && here[11] == "迈阿密"@);
    let english = seq![
        "united states"@, "los angeles"@, "silicon valley"@, "seattle"@, "chicago"@,
        "new york"@, "phoenix"@, "portland"@,
    ];
    assert(english[0] == "united states"@ && english[1] == "los angeles"@
        && english[2] == "silicon valley"@ && english[3] == "seattle"@
        && english[4] == "chicago"@ && english[5] == "new york"@ && english[6] == "phoenix"@
        && english[7] == "portland"@);
    let words = seq!["us"@, "usa"@];
    assert(words[0] == "us"@ && words[1] == "usa"@);
}

/// `name`, of which `lower` is the lower-case form, has one of the marks of Japan.
pub open spec fn marked_jp(name: Seq<char>, lower: Seq<char>) -> bool {
    ||| text::occurs(name, "日本"@)
    ||| text::occurs(name, "🇯🇵"@)
    ||| text::occurs(name, "东京"@)
    ||| text::occurs(name, "大阪"@)
    ||| text::occurs(lower, "japan"@)
    ||| text::occurs(lower, "tokyo"@)
    ||| text::occurs(lower, "osaka"@)
    ||| text::has_word(lower, "jp"@)
}

proof fn jp_marks(name: Seq<char>, lower: Seq<char>)
    ensures
        names_jp(name, lower) == marked_jp(name, lower),
{
    let here = seq!["日本"@, "🇯🇵"@, "东京"@, "大阪"@];
    assert(here[0] == "日本"@ && here[1] == "🇯🇵"@ && here[2] == "东京"@ && here[3] == "大阪"@);
    let english = seq!["japan"@, "tokyo"@, "osaka"@];
    assert(english[0] == "japan"@ && english[1] == "tokyo"@ && english[2] == "osaka"@);
    let words = seq!["jp"@];
    assert(words[0] == "jp"@);
}

/// `name`, of which `lower` is the lower-case form, has one of the marks of Taiwan.
pub open spec fn marked_tw(name: Seq<char>, lower: Seq<char>) -> bool {
    ||| text::occurs(name, "台湾"@)
    ||| text::occurs(name, "🇹🇼"@)
    ||| text::occurs(name, "台北"@)
    ||| text::occurs(name, "台中"@)
    ||| text::occurs(name, "新北"@)
    ||| text::occurs(lower, "taiwan"@)
    ||| text::occurs(lower, "taipei"@)
    ||| text::has_word(lower, "tw"@)
}

proof fn tw_marks(name: Seq<char>, lower: Seq<char>)
    ensures
        names_tw(name, lower) == marked_tw(name, lower),
{
    let here = seq!["台湾"@, "🇹🇼"@, "台北"@, "台中"@, "新北"@];
    assert(here[0] == "台湾"@ && here[1] == "🇹🇼"@ && here[2] == "台北"@ && here[3] == "台中"@
        && here[4] == "新北"@);
    let english = seq!["taiwan"@, "taipei"@];
    assert(english[0] == "taiwan"@ && english[1] == "taipei"@);
    let words = seq!["tw"@];
    assert(words[0] == "tw"@);
}

/// `name`, of which `lower` is the lower-case form, has one of the marks of Singapore.
pub open spec fn marked_sg(name: Seq<char>, lower: Seq<char>) -> bool {
    ||| text::occurs(name, "新加坡"@)
    ||| text::occurs(name, "🇸🇬"@)
    ||| text::occurs(name, "狮城"@)
    ||| text::occurs(lower, "singapore"@)
    ||| text::has_word(lower, "sg"@)
}

proof fn sg_marks(name: Seq<char>, lower: Seq<char>)
    ensures
        names_sg(name, lower) == marked_sg(name, lower),
{
    let here = seq!["新加坡"@, "🇸🇬"@, "狮城"@];
    assert(here[0] == "新加坡"@ && here[1] == "🇸🇬"@ && here[2] == "狮城"@);
    let english = seq!["singapore"@];
    assert(english[0] == "singapore"@);
    let words = seq!["sg"@];
    assert(words[0] == "sg"@);
}

/// `name`, of which `lower` is the lower-case form, has one of the marks of South Korea.
pub open spec fn marked_kr(name: Seq<char>, lower: Seq<char>) -> bool {
    ||| text::occurs(name, "韩国"@)
    ||| text::occurs(name, "🇰🇷"@)
    ||| text::occurs(name, "首尔"@)
    ||| text::occurs(lower, "korea"@)
    ||| text::occurs(lower, "seoul"@)
    ||| text::has_word(lower, "kr"@)
}

proof fn kr_marks(name: Seq<char>, lower: Seq<char>)
    ensures
        names_kr(name, lower) == marked_kr(name, lower),
{
    let here = seq!["韩国"@, "🇰🇷"@, "首尔"@];
    assert(here[0] == "韩国"@ && here[1] == "🇰🇷"@ && here[2] == "首尔"@);
    let english = seq!["korea"@, "seoul"@];
    assert(english[0] == "korea"@ && english[1] == "seoul"@);
    let words = seq!["kr"@];
    assert(words[0] == "kr"@);
}

/// `name`, of which `lower` is the lower-case form, has one of the marks of the United Kingdom.
pub open spec fn marked_uk(name: Seq<char>, lower: Seq<char>) -> bool {
    ||| text::occurs(name, "英国"@)
    ||| text::occurs(name, "🇬🇧"@)
    ||| text::occurs(name, "伦敦"@)
    ||| text::occurs(lower, "united kingdom"@)
    ||| text::occurs(lower, "london"@)
    ||| text::has_word(lower, "uk"@)
    ||| text::has_word(lower, "gb"@)
}

proof fn uk_marks(name: Seq<char>, lower: Seq<char>)
    ensures
        names_uk(name, lower) == marked_uk(name, lower),
{
    let here = seq!["英国"@, "🇬🇧"@, "伦敦"@];
    assert(here[0] == "英国"@ && here[1] == "🇬🇧"@ && here[2] == "伦敦"@);
    let english = seq!["united kingdom"@, "london"@];
    assert(english[0] == "united kingdom"@ && english[1] == "london"@);
    let words = seq!["uk"@, "gb"@];
    assert(words[0] == "uk"@ && words[1] == "gb"@);
}

/// `name`, of which `lower` is the lower-case form, has one of the marks of Germany.
pub open spec fn marked_de(name: Seq<char>, lower: Seq<char>) -> bool {
    ||| text::occurs(name, "德国"@)
    ||| text::occurs(name, "🇩🇪"@)
    ||| text::occurs(name, "法兰克福"@)
    ||| text::occurs(lower, "germany"@)
    ||| text::occurs(lower, "frankfurt"@)
    ||| text::has_word(lower, "de"@)
}

proof fn de_marks(name: Seq<char>, lower: Seq<char>)
    ensures
        names_de(name, lower) == marked_de(name, lower),
{
    let here = seq!["德国"@, "🇩🇪"@, "法兰克福"@];
    assert(here[0] == "德国"@ && here[1] == "🇩🇪"@ && here[2] == "法兰克福"@);
    let english = seq!["germany"@, "frankfurt"@];
    assert(english[0] == "germany"@ && english[1] == "frankfurt"@);
    let words = seq!["de"@];
    assert(words[0] == "de"@);
}

/// The known region whose marks a name, of which `lower` is the lower-case form, has; where it has
/// those of several, the first of the United States, Japan, Taiwan, Singapore, South Korea, the
/// United Kingdom and Germany.
pub open spec fn marked_region(node: Seq<char>, lower: Seq<char>) -> Option<Seq<char>> {
    if marked_us(node, lower) {
        Some("美国"@)
    } else if marked_jp(node, lower) {
        Some("日本"@)
    } else if marked_tw(node, lower) {
        Some("台湾"@)
    } else if marked_sg(node, lower) {
        Some("新加坡"@)
    } else if marked_kr(node, lower) {
        Some("韩国"@)
    } else if marked_uk(node, lower) {
        Some("英国"@)
    } else if marked_de(node, lower) {
        Some("德国"@)
    } else {
        None
    }
}

proof fn region_marks(node: Seq<char>, lower: Seq<char>)
    ensures
        known_region(node, lower) == marked_region(node, lower),
{
    us_marks(node, lower);
    jp_marks(node, lower);
    tw_marks(node, lower);
    sg_marks(node, lower);
    kr_marks(node, lower);
    uk_marks(node, lower);
    de_marks(node, lower);
}

/// The region of a node is told by the marks in its name: Hong Kong comes before all others, and
/// where no region is configured the region has its own name.
pub proof fn marks_tell_the_region(node: Seq<char>)
    ensures
        region_of(node, Seq::empty()) == (if marked_hong_kong(
            text::trimmed(node),
            text::lowered(text::trimmed(node)),
        ) {
            "香港"@
        } else {
            match marked_region(node, text::lowered(node)) {
                Some(known) => known,
                None => "其他"@,
            }
        }),
{
    region_marks(node, text::lowered(node));
    hong_kong_marks(text::trimmed(node), text::lowered(text::trimmed(node)));
    assert(all_spelled(Seq::empty()) =~= Seq::empty());
}

/// A node with the marks of a known region is counted to that region however regions are
/// configured: as the first configured name that matches it, or else under its own name.
pub proof fn a_marked_node_is_counted_to_its_region(
    node: Seq<char>,
    configured: Seq<Seq<char>>,
    known: Seq<char>,
)
    requires
        !marked_hong_kong(text::trimmed(node), text::lowered(text::trimmed(node))),
        marked_region(node, text::lowered(node)) == Some(known),
    ensures
        same_region(known, region_of(node, configured)),
        match first_match(configured, known) {
            Some(k) => region_of(node, configured) == configured[k],
            None => region_of(node, configured) == known,
        },
        first_match(configured, known) is None ==> forall|k: int|
            0 <= k < configured.len() ==> !same_region(known, #[trigger] configured[k]),
        first_match(configured, known) matches Some(k) ==> 0 <= k < configured.len()
            && same_region(known, configured[k]) && forall|j: int|
            0 <= j < k ==> !same_region(known, #[trigger] configured[j]),
{
    region_marks(node, text::lowered(node));
    hong_kong_marks(text::trimmed(node), text::lowered(text::trimmed(node)));
    known_region_folds_to_itself(node, text::lowered(node));
    first_match_matches(configured, known);
    region_matches_itself(known);
}

/// Which of `configured` is the first to match `known`.
pub open spec fn first_match(configured: Seq<Seq<char>>, known: Seq<char>) -> Option<int>
    decreases configured.len(),
{
    if configured.len() == 0 {
        None
    } else if same_region(known, configured[0]) {
        Some(0)
    } else {
        match first_match(configured.drop_first(), known) {
            Some(k) => Some(k + 1),
            None => None,
        }
    }
}

proof fn first_match_matches(configured: Seq<Seq<char>>, known: Seq<char>)
    requires
        folded(known) == known,
    ensures
        match first_match(configured, known) {
            Some(k) => 0 <= k < configured.len() && same_region(known, configured[k]) && (forall|
                j: int,
            |
                0 <= j < k ==> !same_region(known, #[trigger] configured[j])) && first_spelled(
                all_spelled(configured),
                |c: (Seq<char>, Seq<char>, Seq<char>)| same_names(known, c.0, known, c.2),
            ) == Some(configured[k]),
            None => (forall|j: int|
                0 <= j < configured.len() ==> !same_region(known, #[trigger] configured[j]))
                && first_spelled(
                all_spelled(configured),
                |c: (Seq<char>, Seq<char>, Seq<char>)| same_names(known, c.0, known, c.2),
            ) is None,
        },
    decreases configured.len(),
{
    if configured.len() > 0 {
        let rest = configured.drop_first();
        first_match_matches(rest, known);
        assert(all_spelled(configured).drop_first() =~= all_spelled(rest));
        assert(all_spelled(configured)[0] == spelled(configured[0]));
        if !same_region(known, configured[0]) {
            match first_match(rest, known) {
                Some(k) => {
                    assert(configured[k + 1] == rest[k]);
                    assert forall|j: int| 0 <= j < k + 1 implies !same_region(
                        known,
                        #[trigger] configured[j],
                    ) by {
                        if j > 0 {
                            assert(!same_region(known, rest[j - 1]));
                        }
                    }
                },
                None => {
                    assert forall|j: int| 0 <= j < configured.len() implies !same_region(
                        known,
                        #[trigger] configured[j],
                    ) by {
                        if j > 0 {
                            assert(!same_region(known, rest[j - 1]));
                        }
                    }
                },
            }
        }
    }
}

proof fn known_region_folds_to_itself(name: Seq<char>, lower: Seq<char>)
    ensures
        known_region(name, lower) matches Some(known) ==> folded(known) == known,
{
    if let Some(known) = known_region(name, lower) {
        reveal_strlit("美国");
        reveal_strlit("日本");
        reveal_strlit("台湾");
        reveal_strlit("新加坡");
        reveal_strlit("韩国");
        reveal_strlit("英国");
        reveal_strlit("德国");
        assert(text::trimmed(known) == known);
        assert(text::ascii_lowered(known) =~= known);
        assert(text::ascii_or_chinese(known));
    }
}

/// A node with no marks is counted to the first configured region that stands in its name, in the
/// same or in lower case, and to the rest where none does.
pub proof fn an_unmarked_node_is_counted_by_mention(node: Seq<char>, configured: Seq<Seq<char>>)
    requires
        !marked_hong_kong(text::trimmed(node), text::lowered(text::trimmed(node))),
        marked_region(node, text::lowered(node)) is None,
    ensures
        region_of(node, configured) != "其他"@ ==> configured.contains(
            region_of(node, configured),
        ) && region_of(node, configured).len() > 0 && (text::occurs(
            node,
            region_of(node, configured),
        ) || text::occurs(text::lowered(node), text::lowered(region_of(node, configured)))),
        forall|k: int|
            0 <= k < configured.len() && (#[trigger] configured[k]).len() > 0 && (text::occurs(
                node,
                configured[k],
            ) || !text::chinese(configured[k]) && text::occurs(
                text::lowered(node),
                text::lowered(configured[k]),
            )) && (forall|j: int|
                0 <= j < k ==> !text::occurs(node, #[trigger] configured[j]) && !text::occurs(
                    text::lowered(node),
                    text::lowered(configured[j]),
                )) ==> region_of(node, configured) == configured[k],
{
    region_marks(node, text::lowered(node));
    hong_kong_marks(text::trimmed(node), text::lowered(text::trimmed(node)));
    let p = |c: (Seq<char>, Seq<char>, Seq<char>)| mentions(node, text::lowered(node), c);
    first_spelled_holds(configured, p);
    first_spelled_is_listed(configured, p);
    assert forall|k: int|
        0 <= k < configured.len() && (#[trigger] configured[k]).len() > 0 && (text::occurs(
            node,
            configured[k],
        ) || !text::chinese(configured[k]) && text::occurs(
            text::lowered(node),
            text::lowered(configured[k]),
        )) && (forall|j: int|
            0 <= j < k ==> !text::occurs(node, #[trigger] configured[j]) && !text::occurs(
                text::lowered(node),
                text::lowered(configured[j]),
            )) implies region_of(node, configured) == configured[k] by {
        assert forall|j: int| 0 <= j < k implies !p(spelled(#[trigger] configured[j])) by {}
        first_spelled_is_first(configured, p, k);
    }
}

proof fn first_spelled_is_listed(
    configured: Seq<Seq<char>>,
    p: spec_fn((Seq<char>, Seq<char>, Seq<char>)) -> bool,
)
    ensures
        first_spelled(all_spelled(configured), p) matches Some(found) ==> configured.contains(
            found,
        ),
    decreases configured.len(),
{
    if configured.len() > 0 {
        let rest = configured.drop_first();
        assert(all_spelled(configured).drop_first() =~= all_spelled(rest));
        first_spelled_is_listed(rest, p);
        if p(spelled(configured[0])) {
            assert(configured.contains(configured[0]));
        } else if let Some(found) = first_spelled(all_spelled(rest), p) {
            let k = choose|k: int| 0 <= k < rest.len() && rest[k] == found;
            assert(configured[k + 1] == found);
        }
    }
}

proof fn first_spelled_is_first(
    configured: Seq<Seq<char>>,
    p: spec_fn((Seq<char>, Seq<char>, Seq<char>)) -> bool,
    k: int,
)
    requires
        0 <= k < configured.len(),
        p(spelled(configured[k])),
        forall|j: int| 0 <= j < k ==> !p(spelled(#[trigger] configured[j])),
    ensures
        first_spelled(all_spelled(configured), p) == Some(configured[k]),
    decreases k,
{
    if k > 0 {
        let rest = configured.drop_first();
        assert(all_spelled(configured).drop_first() =~= all_spelled(rest));
        assert(!p(spelled(configured[0])));
        assert forall|j: int| 0 <= j < k - 1 implies !p(spelled(#[trigger] rest[j])) by {
            assert(rest[j] == configured[j + 1]);
        }
        assert(rest[k - 1] == configured[k]);
        first_spelled_is_first(rest, p, k - 1);
    }
}

/// `name` is one of the names of the United States.
pub open spec fn called_us(name: Seq<char>) -> bool {
    ||| name == "美国"@
    ||| name == "美"@
    ||| name == "us"@
    ||| name == "usa"@
    ||| name == "united states"@
    ||| name == "america"@
    ||| name == "🇺🇸"@
}

/// `name` is one of the names of Japan.
pub open spec fn called_jp(name: Seq<char>) -> bool {
    ||| name == "日本"@
    ||| name == "日"@
    ||| name == "jp"@
    ||| name == "japan"@
    ||| name == "🇯🇵"@
}

/// `name` is one of the names of Taiwan.
pub open spec fn called_tw(name: Seq<char>) -> bool {
    ||| name == "台湾"@
    ||| name == "台"@
    ||| name == "tw"@
    ||| name == "taiwan"@
    ||| name == "🇹🇼"@
}

/// `name` is one of the names of Singapore.
pub open spec fn called_sg(name: Seq<char>) -> bool {
    ||| name == "新加坡"@
    ||| name == "新"@
    ||| name == "sg"@
    ||| name == "singapore"@
    ||| name == "🇸🇬"@
    ||| name == "狮城"@
}

/// `name` is one of the names of Hong Kong.
pub open spec fn called_hk(name: Seq<char>) -> bool {
    ||| name == "香港"@
    ||| name == "港"@
    ||| name == "hk"@
    ||| name == "hong kong"@
    ||| name == "🇭🇰"@
}

/// `name` is one of the names of South Korea.
pub open spec fn called_kr(name: Seq<char>) -> bool {
    ||| name == "韩国"@
    ||| name == "韩"@
    ||| name == "kr"@
    ||| name == "korea"@
    ||| name == "🇰🇷"@
}

/// `name` is one of the names of the United Kingdom.
pub open spec fn called_uk(name: Seq<char>) -> bool {
    ||| name == "英国"@
    ||| name == "英"@
    ||| name == "uk"@
    ||| name == "gb"@
    ||| name == "united kingdom"@
    ||| name == "🇬🇧"@
}

/// `name` is one of the names of Germany.
pub open spec fn called_de(name: Seq<char>) -> bool {
    ||| name == "德国"@
    ||| name == "德"@
    ||| name == "de"@
    ||| name == "germany"@
    ||| name == "🇩🇪"@
}

/// Two identifiers match just where they are the same but for the case of ASCII letters or for
/// white space around them, or where, in lower case and without that white space, both are names of
/// the United States, or of Japan, of Taiwan, of Singapore, of Hong Kong, of South Korea, of the
/// United Kingdom or of Germany.
pub proof fn names_of_one_region_match(a: Seq<char>, b: Seq<char>)
    ensures
        same_region(a, b) <==> {
            let x = folded(a);
            let y = folded(b);
            ||| text::ascii_lowered(a) == text::ascii_lowered(b)
            ||| text::trimmed(a) == text::trimmed(b)
            ||| called_us(x) && called_us(y)
            ||| called_jp(x) && called_jp(y)
            ||| called_tw(x) && called_tw(y)
            ||| called_sg(x) && called_sg(y)
            ||| called_hk(x) && called_hk(y)
            ||| called_kr(x) && called_kr(y)
            ||| called_uk(x) && called_uk(y)
            ||| called_de(x) && called_de(y)
        },
        text::ascii_or_chinese(text::trimmed(a)) ==> folded(a) == text::ascii_lowered(
            text::trimmed(a),
        ),
{
    let us = us_names();
    assert(us[0] == "美国"@ && us[1] == "美"@ && us[2] == "us"@ && us[3] == "usa"@
        && us[4] == "united states"@ && us[5] == "america"@ && us[6] == "🇺🇸"@);
    let jp = jp_names();
    assert(jp[0] == "日本"@ && jp[1] == "日"@ && jp[2] == "jp"@ && jp[3] == "japan"@
        && jp[4] == "🇯🇵"@);
    let tw = tw_names();
    assert(tw[0] == "台湾"@ && tw[1] == "台"@ && tw[2] == "tw"@ && tw[3] == "taiwan"@
        && tw[4] == "🇹🇼"@);
    let sg = sg_names();
    assert(sg[0] == "新加坡"@ && sg[1] == "新"@ && sg[2] == "sg"@ && sg[3] == "singapore"@
        && sg[4] == "🇸🇬"@ && sg[5] == "狮城"@);
    let hk = hk_names();
    assert(hk[0] == "香港"@ && hk[1] == "港"@ && hk[2] == "hk"@ && hk[3] == "hong kong"@
        && hk[4] == "🇭🇰"@);
    let kr = kr_names();
    assert(kr[0] == "韩国"@ && kr[1] == "韩"@ && kr[2] == "kr"@ && kr[3] == "korea"@
        && kr[4] == "🇰🇷"@);
    let uk = uk_names();
    assert(uk[0] == "英国"@ && uk[1] == "英"@ && uk[2] == "uk"@ && uk[3] == "gb"@
        && uk[4] == "united kingdom"@ && uk[5] == "🇬🇧"@);
    let de = de_names();
    assert(de[0] == "德国"@ && de[1] == "德"@ && de[2] == "de"@ && de[3] == "germany"@
        && de[4] == "🇩🇪"@);
    let name = text::trimmed(a);
    if text::ascii_or_chinese(name) {
        let lower = text::ascii_lowered(name);
        assert forall|i: int| 0 <= i < lower.len() implies (#[trigger] lower[i] as u32) < 0x80
            || 0x4e00 <= lower[i] as u32 <= 0x9fff by {
            assert((name[i] as u32) < 0x80 || 0x4e00 <= name[i] as u32 <= 0x9fff);
        }
        assert(text::ascii_lowered(lower) =~= lower);
    }
}

} // verus!
