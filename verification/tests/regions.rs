use agy_gyro::regions::{
    find_region, is_info_name, is_unsupported_name, names_match, Spelling,
};
use agy_gyro::stats::{
    canonical_region_matches, extract_region, is_invalid_or_info_node, is_unsupported_region,
    is_valid_candidate_node,
};

#[test]
fn test_invalid_and_unsupported_node_filtering() {
    // Invalid or informational nodes
    let invalid_nodes = vec![
        "DIRECT",
        "REJECT",
        "GLOBAL",
        "PROXY",
        "PASS",
        "剩余流量: 100GB",
        "到期时间: 2026-12-31",
        "官网: https://example.com",
        "官方发布频道 @clash",
        "Traffic Remaining: 50GB",
        "Reset Day: 10",
    ];
    for node in invalid_nodes {
        assert!(is_invalid_or_info_node(node), "Node [{}] should be identified as invalid/info", node);
        assert!(!is_valid_candidate_node(node), "Node [{}] should not be a valid candidate", node);
    }

    // Unsupported regions (Hong Kong & China)
    let unsupported_nodes = vec![
        "🇭🇰 香港 01 [x1.0]",
        "HK 02",
        "HongKong 03 HighSpeed",
        "香港专线",
        "🇨🇳 中国上海 01",
        "China Beijing",
    ];
    for node in unsupported_nodes {
        assert!(is_unsupported_region(node), "Node [{}] should be identified as unsupported region", node);
        assert!(!is_valid_candidate_node(node), "Node [{}] should not be a valid candidate", node);
    }

    // Valid candidate nodes
    let valid_nodes = vec![
        "🇺🇸 美国 01 [x1.0]",
        "US - Los Angeles 02",
        "🇯🇵 日本 01 高速",
        "JP Tokyo 03",
        "🇹🇼 台湾 01",
        "🇸🇬 新加坡 01",
        "🇩🇪 德国 01",
        "Custom-Node-Good",
    ];
    for node in valid_nodes {
        assert!(!is_invalid_or_info_node(node), "Node [{}] should not be invalid/info", node);
        assert!(!is_unsupported_region(node), "Node [{}] should not be unsupported", node);
        assert!(is_valid_candidate_node(node), "Node [{}] should be a valid candidate", node);
    }
}

#[test]
fn test_extract_region_various_formats() {
    let priorities = vec![
        "美国".to_string(),
        "日本".to_string(),
        "台湾".to_string(),
        "新加坡".to_string(),
    ];

    // US
    assert_eq!(extract_region("🇺🇸 美国 01 [x1.0]", &priorities), "美国");
    assert_eq!(extract_region("US - Los Angeles 02", &priorities), "美国");
    assert_eq!(extract_region("United States Silicon Valley", &priorities), "美国");
    assert_eq!(extract_region("America Phoenix 03", &priorities), "美国");

    // JP
    assert_eq!(extract_region("🇯🇵 日本 01", &priorities), "日本");
    assert_eq!(extract_region("JP Tokyo 03", &priorities), "日本");
    assert_eq!(extract_region("Japan Osaka 05", &priorities), "日本");

    // TW
    assert_eq!(extract_region("🇹🇼 台湾 01", &priorities), "台湾");
    assert_eq!(extract_region("TW Taipei 02", &priorities), "台湾");
    assert_eq!(extract_region("Taiwan 03", &priorities), "台湾");

    // SG
    assert_eq!(extract_region("🇸🇬 新加坡 01", &priorities), "新加坡");
    assert_eq!(extract_region("SG Singapore 02", &priorities), "新加坡");
    assert_eq!(extract_region("狮城 03", &priorities), "新加坡");

    // Other supported region
    assert_eq!(extract_region("🇩🇪 德国 01", &priorities), "德国");
    assert_eq!(extract_region("UK London 01", &priorities), "英国");

    // Unknown
    assert_eq!(extract_region("Node-XYZ-Custom", &priorities), "其他");
}

#[test]
fn regions_have_many_names() {
    for (a, b) in [
        ("美国", "US"),
        ("美国", " usa "),
        ("日本", "JP"),
        ("台湾", "Taiwan"),
        ("狮城", "singapore"),
        ("香港", "HK"),
        ("韩国", "Korea"),
        ("英国", "GB"),
        ("德国", "de"),
        ("Mars", "mARS"),
        (" 火星", "火星 "),
    ] {
        assert!(canonical_region_matches(a, b), "{} {}", a, b);
        assert!(canonical_region_matches(b, a), "{} {}", b, a);
        assert!(canonical_region_matches(a, a), "{}", a);
    }
    assert!(!canonical_region_matches("美国", "JP"));
    assert!(!canonical_region_matches("火星", "金星"));
    assert!(!canonical_region_matches("", "US"));
}

#[test]
fn regions_are_spelled_as_configured() {
    let configured = vec!["US".to_string(), "火星".to_string(), "Pluto".to_string()];
    assert_eq!(extract_region("🇺🇸 01", &configured), "US");
    assert_eq!(extract_region("JP 01", &configured), "日本");
    assert_eq!(extract_region("火星 01", &configured), "火星");
    assert_eq!(extract_region("PLUTO 01", &configured), "Pluto");
    assert_eq!(extract_region("Seoul", &[]), "韩国");
    assert_eq!(extract_region("gb-7", &[]), "英国");
    assert_eq!(extract_region("Frankfurt", &[]), "德国");
    assert_eq!(extract_region("hk-1 Tokyo", &[]), "香港");
    assert_eq!(extract_region("anything", &["".to_string()]), "其他");
}

#[test]
fn words_stand_by_themselves() {
    assert!(is_unsupported_region("[HK]01"));
    assert!(is_unsupported_region("x_hk"));
    assert!(!is_unsupported_region("hkust"));
    assert!(!is_unsupported_region("Hk2"));
    assert_eq!(extract_region("Australia", &[]), "其他");
    assert_eq!(extract_region("node-us", &[]), "美国");
    assert_eq!(extract_region("node_us1", &[]), "其他");
    // A letter of another script is a letter too.
    assert_eq!(extract_region("东us", &[]), "其他");
}

#[test]
fn blank_names_and_policies() {
    for node in ["", "   ", "\u{3000}", "Auto", " fallback ", "COMPATIBLE", "Load-Balance 1"] {
        assert!(is_invalid_or_info_node(node), "{:?}", node);
    }
    assert!(!is_invalid_or_info_node("autobahn"));
    assert!(is_invalid_or_info_node("My Telegram"));
}

#[test]
fn matching_goes_through_the_names_of_a_region() {
    let names = ["US", " usa ", "America", "United States", "美国", "美", "🇺🇸"];
    for a in names {
        for b in names {
            assert!(canonical_region_matches(a, b), "{} {}", a, b);
        }
        for c in ["UK", "United Kingdom", "英国", "GB", "Germany", "日本", "新", "HK", "韩国", ""] {
            assert!(!canonical_region_matches(a, c), "{} {}", a, c);
        }
    }
    assert!(canonical_region_matches("Narnia", "nARNIA"));
    assert!(canonical_region_matches(" Narnia", "Narnia\n"));
    // Through a name that is not listed, matching does not carry over.
    assert!(!canonical_region_matches(" Narnia", "nARNIA"));
}

#[test]
fn hong_kong_is_found_whatever_is_configured() {
    let settings = [
        vec![],
        vec!["美国".to_string()],
        vec!["港".to_string(), "HK".to_string(), "Hong Kong".to_string(), "香港".to_string()],
    ];
    for configured in &settings {
        for node in ["香港 01", "  hk", "Hong Kong US", "🇭🇰 美国", "HONGKONG", "x-HK-2 "] {
            assert_eq!(extract_region(node, configured), "香港", "{}", node);
            assert!(is_unsupported_region(node));
            assert!(!is_valid_candidate_node(node));
        }
        for node in ["美国 01", "Hkt", "Pluto", "港口"] {
            assert_ne!(extract_region(node, configured), "香港", "{}", node);
            assert!(is_valid_candidate_node(node));
        }
    }
    assert_eq!(extract_region("港口", &settings[2]), "港");
    assert_eq!(extract_region("NARNIA 1", &["Narnia".to_string()]), "Narnia");
    assert_eq!(extract_region("火星 1", &["火星".to_string()]), "火星");
}

#[test]
fn names_with_their_lower_case_forms() {
    assert!(is_info_name("", "x"));
    assert!(is_info_name("GLOBAL", "global"));
    assert!(is_info_name("节点公告", ""));
    assert!(is_info_name("ÄRGER Traffic", "ärger traffic"));
    assert!(!is_info_name("ÄRGER Traffic", "ärger"));
    assert!(!is_unsupported_name("🇹🇼 台湾 01", "🇹🇼 台湾 01"));
    assert!(is_unsupported_name("🇭🇰 01", "🇭🇰 01"));
    assert!(is_unsupported_name("🚀 HK 1", "🚀 hk 1"));
    assert!(is_unsupported_name("Östchina", "östchina"));
    assert!(!is_unsupported_name("🚀 HK 1", "🚀"));
    assert!(names_match("US", "美", "us", "美"));
    assert!(!names_match("US", "美", "us", "英"));
    assert!(!names_match("🚀 a", "🚀 A ", "", ""));
    assert!(names_match("🚀 a", "🚀 A", "", ""));
}

#[test]
fn regions_among_given_spellings() {
    let spelling = |name: &str, lower: &str, form: &str| Spelling {
        name: name.to_string(),
        lower: lower.to_string(),
        form: form.to_string(),
    };
    let configured =
        [spelling("ÖSTERREICH", "österreich", "österreich"), spelling(" USA", " usa", "usa")];
    let region = |node: &str, lower: &str| find_region(node, lower, lower, &configured);
    assert_eq!(region("🇺🇸 美国 01", "🇺🇸 美国 01"), " USA");
    assert_eq!(region("🇹🇼 台湾 01", "🇹🇼 台湾 01"), "台湾");
    assert_eq!(region("Österreich 1", "österreich 1"), "ÖSTERREICH");
    assert_eq!(region("Österreich 1", ""), "其他");
    assert_eq!(region("🚀 HK", "🚀 hk"), "香港");
    assert_eq!(region("🚀", "🚀"), "其他");
    // The forms are found by themselves too.
    let names = ["ÖSTERREICH".to_string(), " USA".to_string()];
    assert_eq!(extract_region("Österreich 1", &names), "ÖSTERREICH");
    assert_eq!(extract_region("🇺🇸 美国 01", &names), " USA");
    assert_eq!(extract_region("🚀 HK", &names), "香港");
}
