use agy_gyro::attempt::{
    chunks_to_pass_on, judge, next_attempt, quarantine_reason, snippet_of, wait_before_retry,
    Buffer, Event, Retry, Step, Turn, Verdict, BRIEF_SNIPPET_BYTES, SNIPPET_BYTES,
};
use agy_gyro::config::Config;
use agy_gyro::delay::Delay;
use agy_gyro::retry::ClientError;

const PATH: &str = "/v1beta/models/gemini-2.5-pro:generateContent";
const LOST: ClientError = ClientError { builder: false, redirect: false, status: false };
const HELLO: &[u8] =
    b"data: {\"candidates\": [{\"content\": {\"parts\": [{\"text\": \"hello\"}]}}]}\n\n";
const IN_STREAM_503: &[u8] =
    b"data: {\"error\": {\"code\": 503, \"message\": \"busy\", \"status\": \"UNAVAILABLE\"}}\n\n";
const IN_STREAM_LOCATION: &[u8] =
    b"data: {\"error\": {\"message\": \"User location\", \"status\": \"FAILED_PRECONDITION\"}}\n\n";

fn turn(attempt: u32) -> Turn {
    Turn::new(&Config::default(), PATH, attempt, "node", false)
}

fn retry(switch: bool, record_failure: bool) -> Step {
    Step::Retry(Retry { switch, record_failure, heed_retry_after: false })
}

/// Another try after the wait that the response asks for, if it asks for one.
fn retry_as_asked(switch: bool, record_failure: bool) -> Step {
    Step::Retry(Retry { switch, record_failure, heed_retry_after: true })
}

const PASS_ON: Step = Step::Forward { record_success: false };

fn refusal(turn: &Turn, status: u16, first: &str) -> Verdict {
    judge(turn, &Event::Refusal { status, first: Some(first.as_bytes().to_vec()) })
}

fn buffer(status: u16, chunks: &[&[u8]]) -> Buffer {
    let mut buffer = Buffer::new(status, false);
    for chunk in chunks {
        if !buffer.push(chunk.to_vec()) {
            break;
        }
    }
    buffer
}

fn body(turn: &Turn, status: u16, chunks: &[&[u8]], broken: Option<ClientError>) -> Verdict {
    judge(turn, &Event::Body { buffer: buffer(status, chunks), broken })
}

fn opening(turn: &Turn, chunk: &[u8]) -> Verdict {
    judge(turn, &Event::Opening { status: 200, chunk: chunk.to_vec() })
}

#[test]
fn turns_know_their_request() {
    let mut config = Config::default();
    config.max_retries = 3;
    config.retry_all = true;
    let t = Turn::new(&config, "/v1beta/models/m:countTokens", 2, "", true);
    assert_eq!(t, Turn {
        attempt: 2,
        max_retries: 3,
        retry_all: true,
        hysteresis: 5,
        has_node: false,
        at_anchor: true,
        generation: true,
        content_call: false,
        answering_call: true,
    });
}

#[test]
fn retriable_statuses_are_retried_until_the_limit() {
    for status in [429u16, 503, 500, 502, 504, 408] {
        for attempt in 0..15 {
            let step = judge(&turn(attempt), &Event::Status(status)).step;
            assert!(matches!(step, Step::Retry(_)), "{} {}", status, attempt);
        }
        assert_eq!(judge(&turn(15), &Event::Status(status)).step, Step::ReadBody);
    }
    let unlimited = Turn { max_retries: 0, ..turn(1_000_000) };
    assert!(matches!(judge(&unlimited, &Event::Status(503)).step, Step::Retry(_)));
}

#[test]
fn a_request_is_tried_once_more_than_it_is_retried() {
    let mut config = Config::default();
    config.max_retries = 2;
    let mut attempt = 0;
    let mut tries = 0;
    loop {
        tries += 1;
        let t = Turn::new(&config, PATH, attempt, "", false);
        match judge(&t, &Event::Status(503)).step {
            Step::Retry(_) => attempt = next_attempt(attempt),
            step => {
                assert_eq!(step, Step::ReadBody);
                break;
            }
        }
    }
    assert_eq!(tries, 3);
    assert_eq!(next_attempt(u32::MAX), u32::MAX);
}

#[test]
fn other_statuses_are_passed_on() {
    for status in [200u16, 204, 301, 401, 403, 404, 501] {
        assert_eq!(judge(&turn(0), &Event::Status(status)).step, Step::ReadBody, "{}", status);
    }
    assert_eq!(judge(&turn(0), &Event::Status(400)).step, Step::ReadBeginning);
    assert_eq!(refusal(&turn(0), 400, "bad field"),
        Verdict { step: PASS_ON, quarantine: false });
}

#[test]
fn a_refusal_is_passed_on_at_the_first_try() {
    let error: &[u8] = b"{\"error\": {\"message\": \"forbidden\"}}";
    let bodies: [&[&[u8]]; 4] = [&[], &[b"  \n"], &[error], &[IN_STREAM_503, HELLO]];
    for status in [301u16, 401, 403, 404, 501] {
        for chunks in bodies {
            let mut buffer = Buffer::new(status, false);
            for chunk in chunks {
                assert!(buffer.push(chunk.to_vec()));
            }
            let event = Event::Body { buffer, broken: None };
            let verdict = judge(&turn(0), &event);
            assert_eq!(verdict, Verdict { step: PASS_ON, quarantine: false });
            let passed: Vec<Vec<u8>> = chunks.iter().map(|chunk| chunk.to_vec()).collect();
            assert_eq!(chunks_to_pass_on(&verdict.step, event), passed);
        }
        for chunk in [&b" "[..], error, IN_STREAM_503, HELLO] {
            let event = Event::Opening { status, chunk: chunk.to_vec() };
            let verdict = judge(&turn(0), &event);
            assert_eq!(verdict, Verdict { step: PASS_ON, quarantine: false });
            assert_eq!(chunks_to_pass_on(&verdict.step, event), vec![chunk.to_vec()]);
        }
        assert_eq!(judge(&turn(0), &Event::NoChunk { status }).step, PASS_ON);
    }
    // The connection may still be lost on the way.
    assert_eq!(body(&turn(0), 403, &[error], Some(LOST)).step, retry(false, true));
}

#[test]
fn a_plain_bad_request_keeps_its_body() {
    for first in [Some(vec![b'x'; 4000]), Some(vec![0xff, b' ', b'y', b' ']), None] {
        let read: Vec<Vec<u8>> = first.iter().cloned().collect();
        let event = Event::Refusal { status: 400, first };
        let verdict = judge(&turn(0), &event);
        assert_eq!(verdict, Verdict { step: PASS_ON, quarantine: false });
        assert_eq!(chunks_to_pass_on(&verdict.step, event), read);
    }
    // Nothing of a refusal that is met by another try is passed on.
    let located = b"User location is not supported".to_vec();
    let event = Event::Refusal { status: 400, first: Some(located.clone()) };
    let step = judge(&turn(0), &event).step;
    assert_eq!(step, retry(true, true));
    assert!(chunks_to_pass_on(&step, event).is_empty());
    // Only the beginning of the first chunk is judged.
    let mut late = vec![b'x'; SNIPPET_BYTES];
    late.extend_from_slice(&located);
    let step = judge(&turn(0), &Event::Refusal { status: 400, first: Some(late) }).step;
    assert_eq!(step, PASS_ON);
}

#[test]
fn retry_all_retries_refusals() {
    for status in [301u16, 400, 401, 403, 404] {
        let t = Turn { retry_all: true, ..turn(0) };
        assert_eq!(judge(&t, &Event::Status(status)).step, Step::ReadBeginning);
        assert_eq!(refusal(&t, status, "no").step, retry(false, true));
        let t = Turn { attempt: 2, ..t };
        assert_eq!(refusal(&t, status, "no").step, retry(true, true));
        let t = Turn { attempt: 15, ..t };
        assert_eq!(refusal(&t, status, "no").step, PASS_ON);
    }
    let held = Turn { retry_all: true, at_anchor: true, ..turn(2) };
    assert_eq!(refusal(&held, 403, "no").step, retry(false, true));
    assert_eq!(refusal(&held, 400, "no").step, retry(true, true));
}

#[test]
fn a_refused_location_is_left_at_once() {
    let located = "User location is not supported for the API use.";
    assert_eq!(refusal(&turn(0), 400, located),
        Verdict { step: retry(true, true), quarantine: true });
    let nowhere = Turn { has_node: false, ..turn(0) };
    assert_eq!(refusal(&nowhere, 400, located),
        Verdict { step: retry(true, true), quarantine: false });
    let listing = Turn { generation: false, ..turn(0) };
    assert_eq!(refusal(&listing, 400, located).step, retry(false, true));
    // Without another try the node still goes into quarantine.
    assert_eq!(refusal(&turn(15), 400, located),
        Verdict { step: PASS_ON, quarantine: true });
}

#[test]
fn too_many_requests_are_not_the_fault_of_the_node() {
    for attempt in [0u32, 1, 2, 3, 4, 6, 7] {
        assert_eq!(judge(&turn(attempt), &Event::Status(429)).step, retry_as_asked(false, false));
    }
    for attempt in [5u32, 8, 11] {
        assert_eq!(judge(&turn(attempt), &Event::Status(429)).step, retry_as_asked(true, false));
    }
    let chunk = b"{\"error\": {\"code\": 429, \"message\": \"quota\"}}";
    assert_eq!(body(&turn(2), 200, &[chunk], None).step, retry(false, false));
    assert_eq!(body(&turn(5), 200, &[chunk], None).step, retry(true, false));
}

#[test]
fn a_node_gets_three_tries_and_the_anchor_more() {
    for attempt in 0..9 {
        let switch = attempt % 3 == 2;
        assert_eq!(judge(&turn(attempt), &Event::Status(503)).step, retry_as_asked(switch, true));
        assert_eq!(judge(&turn(attempt), &Event::Failed(LOST)).step, retry(switch, true));
        let held = Turn { at_anchor: true, ..turn(attempt) };
        let switch = switch && attempt >= 5;
        assert_eq!(judge(&held, &Event::Status(503)).step, retry_as_asked(switch, true));
        assert_eq!(judge(&held, &Event::NoChunk { status: 200 }).step, retry(switch, false));
    }
    let listing = Turn { generation: false, ..turn(2) };
    assert_eq!(judge(&listing, &Event::Status(503)).step, retry_as_asked(false, true));
}

#[test]
fn lost_connections() {
    assert_eq!(judge(&turn(0), &Event::Failed(LOST)).step, retry(false, true));
    assert_eq!(judge(&turn(15), &Event::Failed(LOST)).step, Step::BadGateway);
    for err in [
        ClientError { builder: true, ..LOST },
        ClientError { redirect: true, ..LOST },
        ClientError { status: true, ..LOST },
    ] {
        assert_eq!(judge(&turn(0), &Event::Failed(err)).step, Step::BadGateway);
    }
}

#[test]
fn a_clean_body_is_passed_on_whole() {
    let verdict = body(&turn(0), 200, &[HELLO, HELLO], None);
    assert_eq!(verdict, Verdict {
        step: Step::Forward { record_success: true },
        quarantine: false,
    });
    let event = Event::Body { buffer: buffer(200, &[HELLO, HELLO]), broken: None };
    assert_eq!(chunks_to_pass_on(&verdict.step, event), vec![HELLO.to_vec(), HELLO.to_vec()]);
    assert_eq!(body(&turn(0), 404, &[b"no"], None).step, Step::Forward { record_success: false });
    let nowhere = Turn { has_node: false, ..turn(0) };
    assert_eq!(body(&nowhere, 200, &[HELLO], None).step, Step::Forward { record_success: false });
}

#[test]
fn an_error_in_the_middle_is_not_leaked() {
    let mut whole = Buffer::new(200, false);
    assert!(whole.push(HELLO.to_vec()));
    assert!(!whole.push(IN_STREAM_503.to_vec()));
    for attempt in 0..15 {
        let step = body(&turn(attempt), 200, &[HELLO, IN_STREAM_503], None).step;
        assert!(matches!(step, Step::Retry(_)));
    }
    let step = body(&turn(15), 200, &[HELLO, IN_STREAM_503], None).step;
    assert_eq!(step, Step::Forward { record_success: true });
    // An error that is not to be retried is part of the response.
    let other = b"data: {\"error\": {\"code\": 404, \"message\": \"m\"}}\n";
    assert_eq!(body(&turn(0), 200, &[other], None).step, Step::Forward { record_success: true });
    let mut eager = Buffer::new(200, true);
    assert!(!eager.push(other.to_vec()));
    let event = Event::Body { buffer: buffer(200, &[HELLO, IN_STREAM_503]), broken: None };
    let step = judge(&turn(0), &event).step;
    assert!(chunks_to_pass_on(&step, event).is_empty());
}

#[test]
fn a_broken_body_is_not_leaked() {
    assert_eq!(body(&turn(0), 200, &[HELLO], Some(LOST)).step, retry(false, true));
    assert_eq!(body(&turn(15), 200, &[HELLO], Some(LOST)).step, Step::BadGateway);
    let builder = ClientError { builder: true, ..LOST };
    assert_eq!(body(&turn(0), 200, &[HELLO], Some(builder)).step, Step::BadGateway);
}

#[test]
fn a_located_error_in_the_body() {
    assert_eq!(body(&turn(0), 200, &[IN_STREAM_LOCATION], None).step,
        Step::Forward { record_success: true });
    let chunk = b"data: {\"error\": {\"code\": 400, \"message\": \"Location not supported\"}}\n";
    assert_eq!(body(&turn(0), 200, &[chunk], None),
        Verdict { step: retry(true, true), quarantine: true });
    assert_eq!(opening(&turn(0), chunk), Verdict { step: retry(true, true), quarantine: true });
    assert!(!body(&turn(15), 200, &[chunk], None).quarantine);
}

#[test]
fn empty_answers_are_retried_where_content_is_due() {
    assert_eq!(body(&turn(0), 200, &[], None).step, retry(false, false));
    assert_eq!(body(&turn(2), 200, &[b"  \n"], None).step, retry(true, false));
    assert_eq!(body(&turn(15), 200, &[], None).step, Step::Forward { record_success: true });
    // The answer counts as a whole, not by its chunks.
    let halves: [&[u8]; 2] = [b"{\"candidates\"", b": []}"];
    assert_eq!(body(&turn(0), 200, &halves, None).step, retry(false, false));
    assert_eq!(body(&turn(0), 200, &[b""], None).step, Step::Forward { record_success: true });
    let listing = Turn::new(&Config::default(), "/v1beta/models", 0, "node", false);
    assert_eq!(body(&listing, 200, &[], None).step, Step::Forward { record_success: true });
    let counting = Turn::new(&Config::default(), "/v1beta/models/m:countTokens", 0, "n", false);
    assert_eq!(body(&counting, 200, &[], None).step, retry(false, false));
    assert_eq!(judge(&counting, &Event::NoChunk { status: 200 }).step, PASS_ON);
    assert_eq!(judge(&turn(0), &Event::NoChunk { status: 200 }).step, retry(false, false));
    assert_eq!(judge(&turn(15), &Event::NoChunk { status: 200 }).step, PASS_ON);
}

#[test]
fn a_stream_is_judged_by_its_opening() {
    assert_eq!(opening(&turn(0), HELLO).step, Step::Forward { record_success: true });
    assert_eq!(opening(&turn(0), IN_STREAM_503).step, retry(false, true));
    assert_eq!(opening(&turn(15), IN_STREAM_503).step, Step::Forward { record_success: true });
    assert_eq!(opening(&turn(0), b"data: {\"candidates\": []}\n").step, retry(false, false));
    // What follows the first event is passed on.
    let mut both = HELLO.to_vec();
    both.extend_from_slice(IN_STREAM_503);
    assert_eq!(opening(&turn(0), &both).step, Step::Forward { record_success: true });
}

#[test]
fn reasons_for_quarantine() {
    assert_eq!(quarantine_reason(false), "400_location_blocked");
    assert_eq!(quarantine_reason(true), "in_stream_location_blocked");
}

#[test]
fn waits_follow_the_settings() {
    let mut config = Config::default();
    config.no_jitter = true;
    let plain = Retry { switch: false, record_failure: false, heed_retry_after: false };
    let asked = Retry { heed_retry_after: true, ..plain };
    assert_eq!(wait_before_retry(&config, 0, &asked, None), Delay::from_millis(1000));
    assert_eq!(wait_before_retry(&config, 3, &asked, None), Delay::from_millis(8000));
    assert_eq!(wait_before_retry(&config, 10, &asked, None), Delay::from_millis(60000));
    assert_eq!(wait_before_retry(&config, 3, &asked, Some("7")), Delay::from_secs(7));
    assert_eq!(wait_before_retry(&config, 3, &asked, Some("700")), Delay::from_millis(60000));
    assert_eq!(wait_before_retry(&config, 3, &asked, Some("soon")), Delay::from_millis(8000));
    assert_eq!(wait_before_retry(&config, 3, &plain, Some("7")), Delay::from_millis(8000));
    config.no_jitter = false;
    for _ in 0..50 {
        let wait = wait_before_retry(&config, 1, &plain, None).as_millis();
        assert!((1000..=3000).contains(&wait), "{}", wait);
    }
}

#[test]
fn snippets_are_short() {
    assert_eq!(snippet_of(b"  refused \n", SNIPPET_BYTES), "refused");
    assert_eq!(snippet_of(b"", BRIEF_SNIPPET_BYTES), "");
    assert_eq!(snippet_of(b"abcdef", 3), "abc...");
    assert_eq!(snippet_of(b"abc", 3), "abc");
    assert_eq!(snippet_of("ä".as_bytes(), 1), "\u{fffd}...");
    assert_eq!(snippet_of(&[b'x'; 600], SNIPPET_BYTES).len(), 515);
    assert_eq!(BRIEF_SNIPPET_BYTES, 200);
}
