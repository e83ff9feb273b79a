use agy_gyro::config::{Config, ServerArgs, StatsArgs, WrapperArgs};
use agy_gyro::proxy::{
    encode_uri_component, is_answering_call, is_content_call, is_generation_path, is_hop_by_hop,
    rewrite_model_path, should_switch_for_attempt, ProxyState,
};
use agy_gyro::runner::{exit_code, NOT_STARTED};

#[test]
fn test_rewrite_model_path_unit() {
    let redirects = vec![
        ("gemini-3.7-flash", "gemini-3.8-flash"),
        ("gemini-3.5-flash", "gemini-3.8-flash"),
    ];

    // Standard streaming generateContent - matched rule
    assert_eq!(
        rewrite_model_path(
            "/v1beta/models/gemini-3.7-flash:streamGenerateContent?alt=sse",
            &redirects
        ),
        "/v1beta/models/gemini-3.8-flash:streamGenerateContent?alt=sse"
    );

    // Standard generateContent - second matched rule
    assert_eq!(
        rewrite_model_path(
            "/v1beta/models/gemini-3.5-flash:generateContent",
            &redirects
        ),
        "/v1beta/models/gemini-3.8-flash:generateContent"
    );

    // Model path with query param - matched rule
    assert_eq!(
        rewrite_model_path("/v1/models/gemini-3.7-flash?key=abc", &redirects),
        "/v1/models/gemini-3.8-flash?key=abc"
    );

    // Exact model endpoint - matched rule
    assert_eq!(
        rewrite_model_path("/v1beta/models/gemini-3.7-flash", &redirects),
        "/v1beta/models/gemini-3.8-flash"
    );

    // Unmatched model remains untouched
    assert_eq!(
        rewrite_model_path("/v1beta/models/gemini-2.5-pro:generateContent", &redirects),
        "/v1beta/models/gemini-2.5-pro:generateContent"
    );

    // Non-model paths remain untouched
    assert_eq!(
        rewrite_model_path("/v1beta/models", &redirects),
        "/v1beta/models"
    );
    assert_eq!(
        rewrite_model_path("/v1internal:fetchAvailableModels", &redirects),
        "/v1internal:fetchAvailableModels"
    );

    // Empty redirects list leaves everything untouched
    assert_eq!(
        rewrite_model_path("/v1beta/models/gemini-3.7-flash:streamGenerateContent", &[]),
        "/v1beta/models/gemini-3.7-flash:streamGenerateContent"
    );
}

#[test]
fn uri_components_are_encoded() {
    assert_eq!(encode_uri_component("Proxy-1_a.b~Z"), "Proxy-1_a.b~Z");
    assert_eq!(encode_uri_component("a b/c?d"), "a%20b%2Fc%3Fd");
    assert_eq!(encode_uri_component("节点"), "%E8%8A%82%E7%82%B9");
    assert_eq!(encode_uri_component("100%"), "100%25");
    assert_eq!(encode_uri_component(""), "");
}

#[test]
fn first_rule_for_a_model_counts() {
    let redirects = [("a", "b"), ("a", "c"), ("b", "d")];
    assert_eq!(rewrite_model_path("/models/a/x", &redirects), "/models/b/x");
    assert_eq!(rewrite_model_path("/models/b", &redirects), "/models/d");
    assert_eq!(rewrite_model_path("/models/:x", &[("", "y")]), "/models/:x");
    assert_eq!(rewrite_model_path("/models/q/models/a", &redirects), "/models/q/models/a");
}

#[test]
fn redirects_are_split_at_the_first_colon() {
    let mut config = Config::default();
    config.redirect_model = vec![
        "gemini-3.7-flash:gemini-3.8-flash".to_string(),
        "no rule".to_string(),
        "gemini-3.1-pro:gemini-3.1-pro-preview".to_string(),
        "a:b:c".to_string(),
        ":x".to_string(),
    ];
    assert_eq!(
        config.model_redirects(),
        vec![
            ("gemini-3.7-flash", "gemini-3.8-flash"),
            ("gemini-3.1-pro", "gemini-3.1-pro-preview"),
            ("a", "b:c"),
            ("", "x"),
        ]
    );
    let state = ProxyState::new(config);
    assert_eq!(
        state.effective_path("/v1beta/models/gemini-3.7-flash:generateContent?k=1"),
        "/v1beta/models/gemini-3.8-flash:generateContent?k=1"
    );
}

#[test]
fn upstream_is_chosen_by_path() {
    let mut config = Config::default();
    config.upstream = "https://gemini.example//".to_string();
    config.cloudcode_upstream = "https://cloudcode.example/".to_string();
    let state = ProxyState::new(config);
    assert_eq!(state.upstream_base, "https://gemini.example");
    assert_eq!(state.select_upstream("/v1beta/models"), "https://gemini.example");
    assert_eq!(state.select_upstream("/v1internal:call"), "https://cloudcode.example");
    assert_eq!(
        state.target_url("/v1internal:call"),
        "https://cloudcode.example/v1internal:call"
    );
    assert_eq!(state.target_url("/v1beta/models"), "https://gemini.example/v1beta/models");
}

#[test]
fn connection_headers_are_kept_back() {
    for name in [
        "host",
        "connection",
        "keep-alive",
        "proxy-authenticate",
        "proxy-authorization",
        "te",
        "trailers",
        "transfer-encoding",
        "upgrade",
        "content-length",
    ] {
        assert!(is_hop_by_hop(name), "{}", name);
    }
    assert!(!is_hop_by_hop("content-type"));
    assert!(!is_hop_by_hop("x-goog-api-key"));
}

#[test]
fn generation_paths() {
    assert!(is_generation_path("/v1beta/models/m:streamGenerateContent?alt=sse"));
    assert!(is_generation_path("/v1beta/models/m:generateContent"));
    assert!(is_generation_path("/v1beta/models/m:countTokens"));
    assert!(is_generation_path("/v1beta/models/m:embedContent"));
    assert!(!is_generation_path("/v1beta/models"));
    assert!(is_content_call("/v1beta/models/m:generateContent"));
    assert!(!is_content_call("/v1beta/models/m:countTokens"));
    assert!(!is_content_call("/generateContent"));
    assert!(is_answering_call("/v1beta/models/m:embedContent"));
    for (attempt, switch) in [(0, false), (1, false), (2, true), (3, false), (5, true), (8, true)] {
        assert_eq!(should_switch_for_attempt(attempt), switch);
    }
}

#[test]
fn settings_without_arguments() {
    let config = Config::default();
    assert_eq!(config.host, "127.0.0.1");
    assert_eq!(config.port, None);
    assert_eq!(config.max_retries, 15);
    assert_eq!(config.initial_delay_ms, 1000);
    assert_eq!(config.max_delay_ms, 60000);
    assert_eq!(config.request_timeout_secs, 600);
    assert_eq!(config.region_priority, vec!["美国", "日本", "台湾", "新加坡"]);
    assert!(config.is_jitter_enabled());
    assert!(config.is_buffer_enabled());
    assert!(config.is_preflight_probe_enabled());
    assert!(config.is_region_priority_enabled());
    assert_eq!(config.node_quarantine_secs(), 43200);
    assert_eq!(config.failure_cooldown_duration_secs(), 180);
    assert_eq!(config.region_failure_cooldown_duration_secs(), 300);
    assert_eq!(config.clash_switch_cooldown_ms(), 5000);
}

#[test]
fn lengths_of_time_are_not_negative() {
    let mut config = Config::default();
    config.node_quarantine = -5;
    config.failure_cooldown = -1;
    config.region_failure_cooldown = i64::MIN;
    config.clash_switch_cooldown = -1000;
    assert_eq!(config.node_quarantine_secs(), 0);
    assert_eq!(config.failure_cooldown_duration_secs(), 0);
    assert_eq!(config.region_failure_cooldown_duration_secs(), 0);
    assert_eq!(config.clash_switch_cooldown_ms(), 0);
}

#[test]
fn ports_and_hours() {
    let with_port = |port: Option<u16>| {
        let mut config = Config::default();
        config.port = port;
        config
    };
    assert_eq!(ServerArgs { config: with_port(Some(9090)) }.resolved_port(), 9090);
    assert_eq!(ServerArgs { config: with_port(None) }.resolved_port(), 8080);
    let wrapper = |port: Option<u16>| WrapperArgs {
        config: with_port(port),
        agy_path: "agy".to_string(),
        log_file: None,
        agy_args: Vec::new(),
    };
    assert_eq!(wrapper(None).resolved_port(), 0);
    assert_eq!(wrapper(Some(4)).resolved_port(), 4);
    let stats = |hour: Option<u8>, all_hours: bool| StatsArgs {
        config: Config::default(),
        hour,
        all_hours,
    };
    assert_eq!(stats(Some(7), false).hours_to_show(3), vec![7]);
    assert_eq!(stats(None, false).hours_to_show(3), vec![3]);
    assert_eq!(stats(Some(7), true).hours_to_show(3), (0u8..24).collect::<Vec<u8>>());
    assert_eq!(stats(Some(7), false).hours(), vec![7]);
    assert!(stats(None, false).hours()[0] < 24);
}

#[test]
fn exit_codes() {
    assert_eq!(exit_code(Some(42), None), 42);
    assert_eq!(exit_code(Some(0), Some(9)), 0);
    assert_eq!(exit_code(None, Some(15)), 143);
    assert_eq!(exit_code(None, None), 1);
    assert_eq!(NOT_STARTED, 127);
}
