use agy_gyro::clash::{
    authorization, current_node, group_in_entry, group_in_listing, group_to_query, group_url,
    listing_url, ClashGroupInfo,
};
use agy_gyro::json::parse;

const LISTING: &str = r#"{"proxies": {
    "GLOBAL": {"type": "Selector", "now": "Proxy", "all": ["Proxy", "DIRECT"]},
    "DIRECT": {"type": "Direct"},
    "Proxy": {"type": "Selector", "now": "US 1", "all": ["US 1", "Auto Group", "JP 1", "HK 1", 7, "DIRECT"]},
    "Auto Best": {"type": "URLTest", "now": "US 1", "all": ["US 1", "JP 1", "KR 1"]},
    "Auto Group": {"type": "Fallback", "all": ["US 1"]},
    "US 1": {"type": "Shadowsocks"},
    "JP 1": {"type": "Vmess"}
}}"#;

fn find(listing: &str, preferred: &str, cached: Option<&str>) -> Option<ClashGroupInfo> {
    group_in_listing(&parse(listing).unwrap(), preferred, cached)
}

#[test]
fn groups_are_found_in_any_case() {
    for name in ["Proxy", "PROXY", "pRoXy"] {
        let info = find(LISTING, name, None).unwrap();
        assert_eq!(info.real_group, "Proxy");
        assert_eq!(info.now, "US 1");
        // No other group, no number, no node in Hong Kong, no policy.
        assert_eq!(info.candidates, vec!["US 1", "JP 1"]);
    }
}

#[test]
fn the_group_found_before_comes_first() {
    let info = find(LISTING, "Proxy", Some("Auto Best")).unwrap();
    assert_eq!(info.real_group, "Auto Best");
    assert_eq!(info.candidates, vec!["US 1", "JP 1", "KR 1"]);
    let info = find(LISTING, "Proxy", Some("gone")).unwrap();
    assert_eq!(info.real_group, "Proxy");
}

#[test]
fn the_largest_selector_stands_in_for_proxy() {
    let listing = r#"{"proxies": {
        "A": {"type": "Selector", "all": ["US 1", "HK 1", "HK 2"]},
        "B": {"type": "Selector", "all": ["US 1", "JP 1"]},
        "C": {"type": "Selector", "now": 5, "all": ["JP 1", "KR 1"]},
        "D": {"type": "URLTest", "all": ["US 1", "JP 1", "KR 1"]}
    }}"#;
    let info = find(listing, "proxy", None).unwrap();
    assert_eq!(info.real_group, "C");
    assert_eq!(info.now, "");
    assert_eq!(info.candidates, vec!["JP 1", "KR 1"]);
    assert!(find(listing, "Other", None).is_none());
    assert!(find(r#"{"proxies": {}}"#, "proxy", None).is_none());
    assert!(find(r#"{"proxies": []}"#, "proxy", None).is_none());
    assert!(find(r#"{}"#, "proxy", None).is_none());
}

#[test]
fn a_group_by_itself() {
    let entry = parse(r#"{"now": "a", "all": ["a", "Auto Group", "香港", null, "b"]}"#).unwrap();
    let info = group_in_entry(&entry, "G");
    assert_eq!(info.real_group, "G");
    assert_eq!(info.now, "a");
    assert_eq!(info.candidates, vec!["a", "b"]);
    assert_eq!(current_node(&parse("{}").unwrap()), "");
    assert_eq!(group_to_query("P", Some("C")), "C");
    assert_eq!(group_to_query("P", None), "P");
}

#[test]
fn addresses_and_credentials() {
    assert_eq!(listing_url("http://c:1"), "http://c:1/proxies");
    assert_eq!(group_url("http://c:1", "节 a"), "http://c:1/proxies/%E8%8A%82%20a");
    assert_eq!(authorization(""), None);
    assert_eq!(authorization("s"), Some("Bearer s".to_string()));
}
