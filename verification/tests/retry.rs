use agy_gyro::delay::Delay;
use agy_gyro::retry::{
    calculate_backoff, is_empty_candidate_response, is_location_block_error,
    is_retriable_aggressive, is_retriable_error, is_retriable_in_stream,
    is_retriable_in_stream_with_flag, is_retriable_status, is_retriable_with_location,
    holds_location_phrase, jittered_backoff, parse_in_stream_error, parse_retry_after,
    retry_after_at, should_retry_status, steady_backoff, wait_until, ClientError, Moment,
};
use agy_gyro::status;

#[test]
fn test_is_retriable_status() {
    assert!(is_retriable_status(status::TOO_MANY_REQUESTS));
    assert!(is_retriable_status(status::SERVICE_UNAVAILABLE));
    assert!(is_retriable_status(status::INTERNAL_SERVER_ERROR));
    assert!(is_retriable_status(status::BAD_GATEWAY));
    assert!(is_retriable_status(status::GATEWAY_TIMEOUT));
    assert!(is_retriable_status(status::REQUEST_TIMEOUT));

    // Non-retriable statuses
    assert!(!is_retriable_status(status::OK));
    assert!(!is_retriable_status(status::BAD_REQUEST));
    assert!(!is_retriable_status(status::UNAUTHORIZED));
    assert!(!is_retriable_status(status::FORBIDDEN));
    assert!(!is_retriable_status(status::NOT_FOUND));
}

#[test]
fn test_location_block_is_retriable() {
    let snippet = "User location is not supported for the API use. FAILED_PRECONDITION";
    assert!(is_location_block_error(status::BAD_REQUEST, snippet));
    assert!(is_retriable_with_location(status::BAD_REQUEST, snippet));
    assert!(!is_location_block_error(status::BAD_REQUEST, "other 400 error"));
}

#[test]
fn test_parse_retry_after_seconds() {
    assert_eq!(parse_retry_after("12"), Some(Delay::from_secs(12)));
    assert_eq!(parse_retry_after(" 5 "), Some(Delay::from_secs(5)));
    assert_eq!(parse_retry_after("invalid"), None);
}

#[test]
fn test_calculate_backoff_no_jitter() {
    let initial = Delay::from_millis(1000);
    let max = Delay::from_millis(10000);

    assert_eq!(
        calculate_backoff(0, initial, max, false, None),
        Delay::from_millis(1000)
    );
    assert_eq!(
        calculate_backoff(1, initial, max, false, None),
        Delay::from_millis(2000)
    );
    assert_eq!(
        calculate_backoff(2, initial, max, false, None),
        Delay::from_millis(4000)
    );
    assert_eq!(
        calculate_backoff(3, initial, max, false, None),
        Delay::from_millis(8000)
    );
    assert_eq!(
        calculate_backoff(4, initial, max, false, None),
        Delay::from_millis(10000)
    ); // capped at max
}

#[test]
fn test_calculate_backoff_with_retry_after() {
    let initial = Delay::from_millis(1000);
    let max = Delay::from_millis(10000);

    let retry_after = Some(Delay::from_millis(3500));
    assert_eq!(
        calculate_backoff(0, initial, max, true, retry_after),
        Delay::from_millis(3500)
    );

    let retry_after_huge = Some(Delay::from_millis(50000));
    assert_eq!(
        calculate_backoff(0, initial, max, true, retry_after_huge),
        max
    );
}

#[test]
fn test_calculate_backoff_with_jitter() {
    let initial = Delay::from_millis(1000);
    let max = Delay::from_millis(60000);

    for _ in 0..20 {
        let delay = calculate_backoff(1, initial, max, true, None);
        // 2000ms * [0.5, 1.5] = [1000ms, 3000ms]
        assert!(delay >= Delay::from_millis(900));
        assert!(delay <= Delay::from_millis(3100));
    }
}

#[test]
fn test_parse_in_stream_error() {
    let sse_503 = b"data: {\"error\": {\"code\": 503, \"message\": \"This model is currently experiencing high demand.\", \"status\": \"UNAVAILABLE\"}}\n\n";
    let (status, msg) = parse_in_stream_error(sse_503).unwrap();
    assert_eq!(status, status::SERVICE_UNAVAILABLE);
    assert!(msg.contains("high demand"));

    let json_429 = b"{\"error\": {\"code\": 429, \"message\": \"Rate limit exceeded\", \"status\": \"RESOURCE_EXHAUSTED\"}}";
    let (status, msg) = parse_in_stream_error(json_429).unwrap();
    assert_eq!(status, status::TOO_MANY_REQUESTS);
    assert_eq!(msg, "Rate limit exceeded");

    let normal_sse =
        b"data: {\"candidates\": [{\"content\": {\"parts\": [{\"text\": \"hello\"}]}}]}\n\n";
    assert_eq!(parse_in_stream_error(normal_sse), None);
}

#[test]
fn test_parse_failed_precondition_maps_to_400() {
    // FAILED_PRECONDITION without code should map to 400
    let json = b"{\"error\": {\"message\": \"User location is not supported\", \"status\": \"FAILED_PRECONDITION\"}}";
    let (status, msg) = parse_in_stream_error(json).unwrap();
    assert_eq!(status, status::BAD_REQUEST);
    assert!(msg.contains("location"));

    // Also via SSE wrapper
    let sse = b"data: {\"error\": {\"status\": \"FAILED_PRECONDITION\", \"message\": \"FAILED_PRECONDITION: location\"}}\n\n";
    let (status, _) = parse_in_stream_error(sse).unwrap();
    assert_eq!(status, status::BAD_REQUEST);

    // UNAUTHENTICATED should map to 401
    let json2 = b"{\"error\": {\"message\": \"Unauthenticated\", \"status\": \"UNAUTHENTICATED\"}}";
    let (status2, _) = parse_in_stream_error(json2).unwrap();
    assert_eq!(status2, status::UNAUTHORIZED);

    // Existing mappings remain
    let json3 = b"{\"error\": {\"message\": \"x\", \"status\": \"UNAVAILABLE\"}}";
    let (status3, _) = parse_in_stream_error(json3).unwrap();
    assert_eq!(status3, status::SERVICE_UNAVAILABLE);
}

#[test]
fn test_empty_candidate_detection() {
    // Blank body
    assert!(is_empty_candidate_response(b""));
    assert!(is_empty_candidate_response(b"   \n\t  "));
    assert!(is_empty_candidate_response(b"\n\n"));

    // Non-JSON => false
    assert!(!is_empty_candidate_response(b"not json"));
    assert!(!is_empty_candidate_response(b"hello world"));

    // JSON with error => false
    assert!(!is_empty_candidate_response(
        b"{\"error\": {\"code\": 503, \"message\": \"unavailable\", \"status\": \"UNAVAILABLE\"}}"
    ));
    assert!(!is_empty_candidate_response(
        b"data: {\"error\": {\"code\": 503, \"message\": \"x\", \"status\": \"UNAVAILABLE\"}}\n\n"
    ));

    // Empty candidates array => true
    assert!(is_empty_candidate_response(b"{\"candidates\": []}"));
    assert!(is_empty_candidate_response(b"data: {\"candidates\": []}\n\n"));

    // Missing content => true
    assert!(is_empty_candidate_response(
        b"{\"candidates\": [{\"content\": null}]}"
    ));
    assert!(is_empty_candidate_response(
        b"{\"candidates\": [{}]}"
    ));

    // Missing parts => true
    assert!(is_empty_candidate_response(
        b"{\"candidates\": [{\"content\": {}}]}"
    ));
    assert!(is_empty_candidate_response(
        b"{\"candidates\": [{\"content\": {\"parts\": null}}]}"
    ));

    // Empty parts array => true
    assert!(is_empty_candidate_response(
        b"{\"candidates\": [{\"content\": {\"parts\": []}}]}"
    ));

    // All text empty => true
    assert!(is_empty_candidate_response(
        b"{\"candidates\": [{\"content\": {\"parts\": [{\"text\": \"\"}]}}]}"
    ));
    assert!(is_empty_candidate_response(
        b"{\"candidates\": [{\"content\": {\"parts\": [{\"text\": \"   \"}]}}]}"
    ));
    assert!(is_empty_candidate_response(
        b"{\"candidates\": [{\"content\": {\"parts\": [{\"text\": \"\"}, {\"text\": \"  \"}]}}]}"
    ));
    // Missing text field => also treated as empty
    assert!(is_empty_candidate_response(
        b"{\"candidates\": [{\"content\": {\"parts\": [{}]}}]}"
    ));

    // Valid non-empty => false
    assert!(!is_empty_candidate_response(
        b"{\"candidates\": [{\"content\": {\"parts\": [{\"text\": \"hello\"}]}}]}"
    ));
    assert!(!is_empty_candidate_response(
        b"{\"candidates\": [{\"content\": {\"parts\": [{\"text\": \"\"}, {\"text\": \"hi\"}]}}]}"
    ));
    assert!(!is_empty_candidate_response(
        b"data: {\"candidates\": [{\"content\": {\"parts\": [{\"text\": \"hello\"}]}}]}\n\n"
    ));

    // SSE wrapper with candidates empty via line stripping
    assert!(is_empty_candidate_response(
        b"data: {\"candidates\": []}\n\n"
    ));
    // Mixed SSE lines: first non-candidates line ignored, second is empty candidates => true
    let mixed = b"data: {\"other\": 123}\n\ndata: {\"candidates\": []}\n\n";
    assert!(is_empty_candidate_response(mixed));

    // JSON without candidates field => false
    assert!(!is_empty_candidate_response(b"{\"foo\": \"bar\"}"));
}

#[test]
fn test_is_retriable_in_stream() {
    // Retriable status alone => true
    assert!(is_retriable_in_stream(
        status::SERVICE_UNAVAILABLE,
        "anything"
    ));
    assert!(is_retriable_in_stream(
        status::TOO_MANY_REQUESTS,
        ""
    ));
    // Location block 400 => true
    assert!(is_retriable_in_stream(
        status::BAD_REQUEST,
        "User location is not supported"
    ));
    // Case-insensitive location + not supported => true
    assert!(is_retriable_in_stream(
        status::BAD_REQUEST,
        "Location not supported for this region"
    ));
    assert!(is_retriable_in_stream(
        status::BAD_REQUEST,
        "LOCATION NOT SUPPORTED"
    ));
    // Non-retriable + no location => false
    assert!(!is_retriable_in_stream(status::BAD_REQUEST, "other error"));
    assert!(!is_retriable_in_stream(status::OK, "User location is not supported"));
    assert!(!is_retriable_in_stream(status::NOT_FOUND, "not found"));
}


#[test]
fn retriable_in_other_cases_and_phrases() {
    for body in [
        "Your LOCATION is Unsupported",
        "unsupported country",
        "This model is not available in your region",
        "the method IS NOT SUPPORTED FOR THE API USE",
        "FAILED_PRECONDITION",
    ] {
        assert!(is_location_block_error(400, body), "{}", body);
        assert!(!is_location_block_error(403, body), "{}", body);
        assert!(should_retry_status(400, body, false), "{}", body);
    }
    assert!(!is_location_block_error(400, "not available"));
    assert!(!is_location_block_error(400, "failed_precondition"));
}

#[test]
fn retry_all_takes_everything_but_success() {
    for status in [100u16, 199, 301, 400, 401, 403, 404, 418, 451, 501, 599] {
        assert!(is_retriable_aggressive(status, "whatever"), "{}", status);
        assert!(should_retry_status(status, "whatever", true), "{}", status);
        assert!(is_retriable_in_stream_with_flag(status, "whatever", true), "{}", status);
        assert!(!should_retry_status(status, "whatever", false), "{}", status);
        assert!(!is_retriable_in_stream_with_flag(status, "whatever", false), "{}", status);
    }
    for status in [200u16, 204, 299] {
        assert!(!is_retriable_aggressive(status, ""), "{}", status);
        assert!(!should_retry_status(status, "", true), "{}", status);
    }
    assert!(should_retry_status(503, "", false));
}

#[test]
fn client_errors_that_are_worth_another_try() {
    let none = ClientError { builder: false, redirect: false, status: false };
    assert!(is_retriable_error(&none));
    assert!(!is_retriable_error(&ClientError { builder: true, ..none }));
    assert!(!is_retriable_error(&ClientError { redirect: true, ..none }));
    assert!(!is_retriable_error(&ClientError { status: true, ..none }));
}

#[test]
fn retry_after_numbers() {
    let at = Moment::After(0);
    assert_eq!(retry_after_at("+7", at), Some(Delay::from_secs(7)));
    assert_eq!(retry_after_at("0", at), Some(Delay::from_secs(0)));
    assert_eq!(retry_after_at("\t0012\n", at), Some(Delay::from_secs(12)));
    assert_eq!(
        retry_after_at("18446744073709551615", at),
        Some(Delay::from_secs(u64::MAX))
    );
    for header in ["", "+", "-1", "1.5", "18446744073709551616", "１２"] {
        assert_eq!(retry_after_at(header, at), None, "{:?}", header);
    }
}

#[test]
fn retry_after_dates() {
    // Two days after the start of 1970.
    let header = " Sat, 03 Jan 1970 00:00:00 GMT ";
    let day = 86_400 * 1_000_000_000u128;
    assert_eq!(
        retry_after_at(header, Moment::After(day)),
        Some(Delay::from_secs(86_400))
    );
    assert_eq!(
        retry_after_at(header, Moment::After(2 * day)),
        Some(Delay::from_secs(0))
    );
    assert_eq!(
        retry_after_at(header, Moment::After(2 * day + 1)),
        Some(Delay::from_millis(100))
    );
    assert_eq!(
        retry_after_at(header, Moment::Before(day)),
        Some(Delay::from_secs(3 * 86_400))
    );
    // A date that is long past.
    assert_eq!(parse_retry_after(header), Some(Delay::from_millis(100)));
}

#[test]
fn backoff_outgrows_its_factor() {
    let initial = Delay::from_millis(1);
    let max = Delay::from_secs(u64::MAX);
    assert_eq!(
        calculate_backoff(31, initial, max, false, None),
        Delay::from_millis(1 << 31)
    );
    for attempt in [32, 33, 63, 64, u32::MAX] {
        assert_eq!(
            calculate_backoff(attempt, initial, max, false, None),
            Delay::from_millis(u32::MAX as u64)
        );
    }
    let second = Delay::from_millis(1000);
    let cap = Delay::from_millis(10000);
    assert_eq!(calculate_backoff(32, second, cap, false, None), cap);
}

#[test]
fn backoff_grows_and_stays_within_the_maximum() {
    let initial = Delay::from_millis(250);
    let max = Delay::from_secs(60);
    let mut before = Delay::from_millis(0);
    for attempt in 0..100 {
        let wait = steady_backoff(attempt, initial, max);
        assert!(wait >= before && wait <= max);
        before = wait;
    }
    assert_eq!(before, max);
}

#[test]
fn backoff_multiplies_without_overflow() {
    let max = Delay::from_nanos(u128::MAX);
    assert_eq!(max.as_nanos(), 18_446_744_073_709_551_615_999_999_999);
    assert_eq!(steady_backoff(31, max, max), max);
    assert_eq!(Delay::from_millis(1500).saturating_mul(3), Delay::from_millis(4500));
    assert_eq!(Delay::from_nanos(1_999_999).as_millis(), 1);
}

#[test]
fn jitter_is_by_half_either_way() {
    let initial = Delay::from_millis(1001);
    let max = Delay::from_secs(60);
    for _ in 0..200 {
        let wait = calculate_backoff(0, initial, max, true, None).as_millis();
        assert!((501..=1502).contains(&wait), "{}", wait);
    }
    // The maximum holds after the jitter too.
    for _ in 0..50 {
        assert!(calculate_backoff(4, initial, initial, true, None) <= initial);
    }
    assert_eq!(jittered_backoff(70_000, max), max);
    assert_eq!(jittered_backoff(5, max), Delay::from_millis(5));
}

#[test]
fn waiting_for_a_date() {
    let second: u128 = 1_000_000_000;
    assert_eq!(wait_until(10, Moment::After(4 * second)), Delay::from_secs(6));
    assert_eq!(wait_until(10, Moment::After(10 * second)), Delay::from_secs(0));
    assert_eq!(wait_until(10, Moment::After(10 * second + 1)), Delay::from_millis(100));
    assert_eq!(wait_until(10, Moment::Before(2 * second)), Delay::from_secs(12));
    assert_eq!(wait_until(0, Moment::After(u128::MAX)), Delay::from_millis(100));
}

#[test]
fn phrases_on_the_location() {
    assert!(holds_location_phrase("Örtlich UNSUPPORTED Region", "örtlich unsupported region"));
    assert!(!holds_location_phrase("Örtlich UNSUPPORTED Region", ""));
    assert!(holds_location_phrase("FAILED_PRECONDITION", ""));
    assert!(is_location_block_error(400, "ÖRTLICH: NOT AVAILABLE IN YOUR COUNTRY"));
    assert!(is_location_block_error(400, "本 LOCATION 地 Not Supported"));
    assert!(!is_location_block_error(403, "location not supported"));
}
