//! Which failures are worth another try, and how long to wait before it.

use crate::delay;
use crate::delay::Delay;
use crate::status;
use crate::text;
use crate::text::{chars_of, contains, contains_any, string_of, trim};
use vstd::prelude::*;

pub use crate::stream::{is_empty_candidate_response, parse_in_stream_error};

verus! {

/// The codes that the Gemini API's guidance says to retry.
pub open spec fn retriable(status: u16) -> bool {
    ||| status == status::TOO_MANY_REQUESTS
    ||| status == status::SERVICE_UNAVAILABLE
    ||| status == status::INTERNAL_SERVER_ERROR
    ||| status == status::BAD_GATEWAY
    ||| status == status::GATEWAY_TIMEOUT
    ||| status == status::REQUEST_TIMEOUT
}

/// Checks if an HTTP status code is retriable according to Gemini API guidance.
pub fn is_retriable_status(status: u16) -> (r: bool)
    ensures
        r == retriable(status),
{
    status == status::TOO_MANY_REQUESTS || status == status::SERVICE_UNAVAILABLE || status
        == status::INTERNAL_SERVER_ERROR || status == status::BAD_GATEWAY || status
        == status::GATEWAY_TIMEOUT || status == status::REQUEST_TIMEOUT
}

/// `body`, of which `lower` is the lower-case form, says that the API is not served where the
/// request came from.
pub open spec fn location_phrases(body: Seq<char>, lower: Seq<char>) -> bool {
    ||| text::occurs_any(
        body,
        seq![
            "User location is not supported"@,
            "FAILED_PRECONDITION"@,
            "is not supported for the API use"@,
        ],
    )
    ||| text::occurs(lower, "location"@) && text::occurs_any(
        lower,
        seq!["not supported"@, "unsupported"@],
    )
    ||| text::occurs(lower, "unsupported"@) && text::occurs_any(
        lower,
        seq!["region"@, "country"@, "location"@],
    )
    ||| text::occurs(lower, "not available"@) && text::occurs_any(
        lower,
        seq!["country"@, "region"@, "location"@],
    )
    ||| text::occurs(lower, "is not supported for the api use"@)
}

/// `body` says that the API is not served where the request came from.
pub open spec fn speaks_of_location(body: Seq<char>) -> bool {
    location_phrases(body, text::lowered(body))
}

/// The request was refused for where it came from.
pub open spec fn location_block(status: u16, body: Seq<char>) -> bool {
    status == status::BAD_REQUEST && speaks_of_location(body)
}

/// Human-readable check for location-block 400 that should also be retried via Clash switch.
pub fn is_location_block_error(status: u16, body_snippet: &str) -> (r: bool)
    ensures
        r == location_block(status, body_snippet@),
{
    status == status::BAD_REQUEST && holds_location_phrase(
        body_snippet,
        text::lower_of(body_snippet).as_str(),
    )
}

/// Whether a text, of which `lower` is the lower-case form, says that the API is not served where
/// the request came from.
pub fn holds_location_phrase(body_snippet: &str, lower: &str) -> (r: bool)
    ensures
        r == location_phrases(body_snippet@, lower@),
{
    let body = chars_of(body_snippet);
    let lower = chars_of(lower);
    let phrases = vec![
        "User location is not supported",
        "FAILED_PRECONDITION",
        "is not supported for the API use",
    ];
    let refused = vec!["not supported", "unsupported"];
    let areas = vec!["region", "country", "location"];
    let places = vec!["country", "region", "location"];
    proof {
        assert(text::texts(phrases@) =~= seq![
            "User location is not supported"@,
            "FAILED_PRECONDITION"@,
            "is not supported for the API use"@,
        ]);
        assert(text::texts(refused@) =~= seq!["not supported"@, "unsupported"@]);
        assert(text::texts(areas@) =~= seq!["region"@, "country"@, "location"@]);
        assert(text::texts(places@) =~= seq!["country"@, "region"@, "location"@]);
    }
    contains_any(&body, &phrases) || (contains(&lower, "location") && contains_any(
        &lower,
        &refused,
    )) || (contains(&lower, "unsupported") && contains_any(&lower, &areas)) || (contains(
        &lower,
        "not available",
    ) && contains_any(&lower, &places)) || contains(&lower, "is not supported for the api use")
}

/// Combined check: normal retriable OR location-block 400.
pub fn is_retriable_with_location(status: u16, body_snippet: &str) -> (r: bool)
    ensures
        r == (retriable(status) || location_block(status, body_snippet@)),
{
    is_retriable_status(status) || is_location_block_error(status, body_snippet)
}

/// Aggressive check: any non-2xx is considered retriable when `retry_all` is enabled, whatever
/// its body says. Caller must still enforce max_retries and generation-path gating.
pub fn is_retriable_aggressive(status: u16, _body_snippet: &str) -> (r: bool)
    ensures
        r == !status::success(status),
{
    !status::is_success(status)
}

/// A status with this body is to be retried.
pub open spec fn to_retry(status: u16, body: Seq<char>, retry_all: bool) -> bool {
    if retry_all {
        !status::success(status)
    } else {
        retriable(status) || location_block(status, body)
    }
}

/// Whether a status should be retried given config. Honors `retry_all`.
pub fn should_retry_status(status: u16, body_snippet: &str, retry_all: bool) -> (r: bool)
    ensures
        r == to_retry(status, body_snippet@, retry_all),
{
    if retry_all {
        is_retriable_aggressive(status, body_snippet)
    } else {
        is_retriable_with_location(status, body_snippet)
    }
}

/// Unified in-stream retriability check: retriable status OR location-block 400.
pub fn is_retriable_in_stream(status: u16, msg: &str) -> (r: bool)
    ensures
        r == (retriable(status) || location_block(status, msg@)),
{
    is_retriable_status(status) || is_location_block_error(status, msg)
}

/// In-stream check honoring `retry_all`.
pub fn is_retriable_in_stream_with_flag(status: u16, msg: &str, retry_all: bool) -> (r: bool)
    ensures
        r == to_retry(status, msg@, retry_all),
{
    if retry_all {
        is_retriable_aggressive(status, msg)
    } else {
        is_retriable_in_stream(status, msg)
    }
}

/// What is retried without `retry_all` is retried with it too.
pub proof fn retry_all_retries_more(status: u16, body: Seq<char>)
    ensures
        to_retry(status, body, false) ==> to_retry(status, body, true),
{
}

/// What the HTTP client tells of a request that it could not carry out.
#[derive(Clone, Copy, Debug, PartialEq, Eq, Structural)]
pub struct ClientError {
    /// The request could not be put together.
    pub builder: bool,
    /// A redirect could not be followed.
    pub redirect: bool,
    /// The response's status was taken for an error.
    pub status: bool,
}

/// Checks if an error of the HTTP client is a transient network/connection error.
pub fn is_retriable_error(err: &ClientError) -> (r: bool)
    ensures
        r == (!err.builder && !err.redirect && !err.status),
{
    !err.builder && !err.redirect && !err.status
}

/// The moment at which something happens, counted from the start of 1970 (UTC).
#[derive(Clone, Copy, Debug, PartialEq, Eq, Structural)]
pub enum Moment {
    /// So many nanoseconds after it.
    After(u128),
    /// So many nanoseconds before it.
    Before(u128),
}

impl Moment {
    /// The moment in nanoseconds.
    pub open spec fn nanos(self) -> int {
        match self {
            Moment::After(n) => n as int,
            Moment::Before(n) => -(n as int),
        }
    }
}

/// The present moment. Trusted: std's `SystemTime::now`, of whose result nothing is claimed.
#[verifier::external_body]
fn present() -> (r: Moment) {
    match std::time::SystemTime::now().duration_since(std::time::UNIX_EPOCH) {
        Ok(d) => Moment::After(d.as_nanos()),
        Err(e) => Moment::Before(e.duration().as_nanos()),
    }
}

/// What `httpdate::parse_http_date` reads a text as, in seconds from the start of 1970 (UTC).
pub uninterp spec fn http_date(s: Seq<char>) -> Option<u64>;

/// Reads an HTTP date. Trusted: `httpdate::parse_http_date`, whose result depends on the text
/// alone and is a whole number of seconds, not before 1970.
#[verifier::external_body]
fn parse_http_date(s: &str) -> (r: Option<u64>)
    ensures
        r == http_date(s@),
{
    match httpdate::parse_http_date(s) {
        Ok(date) => match date.duration_since(std::time::UNIX_EPOCH) {
            Ok(d) => Some(d.as_secs()),
            Err(_) => None,
        },
        Err(_) => None,
    }
}

/// The wait, in nanoseconds, that a `Retry-After` header asks for at the moment `now`: a number
/// of seconds, or the time until a date; a tenth of a second where that date has passed.
pub open spec fn asked_wait(header: Seq<char>, now: int) -> Option<nat> {
    let value = text::trimmed(header);
    match text::unsigned(value) {
        Some(secs) if secs <= u64::MAX => Some(secs * (delay::NANOS_PER_SEC as nat)),
        _ => match http_date(value) {
            Some(secs) => Some(time_until(secs, now)),
            None => None,
        },
    }
}

/// The wait, in nanoseconds, from the moment `now` until `secs` seconds from the start of 1970; a
/// tenth of a second where that has passed.
pub open spec fn time_until(secs: u64, now: int) -> nat {
    let date = secs * delay::NANOS_PER_SEC;
    if date < now {
        100 * (delay::NANOS_PER_MILLI as nat)
    } else {
        delay::capped((date - now) as nat)
    }
}

/// The wait from the moment `now` until `secs` seconds from the start of 1970; a tenth of a second
/// where that has passed.
pub fn wait_until(secs: u64, now: Moment) -> (r: Delay)
    ensures
        r@ == time_until(secs, now.nanos()),
{
    let date: u128 = secs as u128 * delay::NANOS_PER_SEC;
    match now {
        Moment::After(n) => if date < n {
            Delay::from_millis(100)
        } else {
            Delay::from_nanos(date - n)
        },
        Moment::Before(n) => Delay::from_nanos(date.saturating_add(n)),
    }
}

/// `delay` is `wait` nanoseconds, or both are missing.
pub open spec fn waits(delay: Option<Delay>, wait: Option<nat>) -> bool {
    match delay {
        Some(d) => wait == Some(d@),
        None => wait is None,
    }
}

/// Parses the standard HTTP `Retry-After` header value (either integer seconds or HTTP-date) at
/// the moment `now`.
pub fn retry_after_at(header_value: &str, now: Moment) -> (r: Option<Delay>)
    ensures
        waits(r, asked_wait(header_value@, now.nanos())),
{
    let all = chars_of(header_value);
    let value = trim(&all);
    if let Some(secs) = text::parse_unsigned(value, u64::MAX) {
        return Some(Delay::from_secs(secs));
    }
    match parse_http_date(string_of(value).as_str()) {
        Some(secs) => Some(wait_until(secs, now)),
        None => None,
    }
}

/// Parses the standard HTTP `Retry-After` header value (either integer seconds or HTTP-date).
pub fn parse_retry_after(header_value: &str) -> (r: Option<Delay>)
    ensures
        exists|now: Moment| waits(r, #[trigger] asked_wait(header_value@, now.nanos())),
{
    let now = present();
    retry_after_at(header_value, now)
}

/// A `Retry-After` header that gives seconds asks for the same wait at any moment.
pub proof fn seconds_need_no_clock(header: Seq<char>, now: int, later: int)
    requires
        text::unsigned(text::trimmed(header)) is Some,
        text::unsigned(text::trimmed(header))->0 <= u64::MAX,
    ensures
        asked_wait(header, now) == asked_wait(header, later),
{
}

/// The factor by which the first wait has grown before a try: it doubles from one to the next, and
/// once 32 bits do not hold it any more it stays at the most that they do.
pub open spec fn growth(attempt: u32) -> nat {
    if attempt < 32 {
        vstd::arithmetic::power2::pow2(attempt as nat)
    } else {
        u32::MAX as nat
    }
}

/// The factor by which the first wait has grown before a try.
fn growth_factor(attempt: u32) -> (r: u32)
    ensures
        r == growth(attempt),
{
    if attempt >= 32 {
        return u32::MAX;
    }
    let mut factor: u32 = 1;
    let mut i: u32 = 0;
    proof {
        vstd::arithmetic::power2::lemma2_to64();
    }
    while i < attempt
        invariant
            i <= attempt < 32,
            factor == vstd::arithmetic::power2::pow2(i as nat),
        decreases attempt - i,
    {
        proof {
            vstd::arithmetic::power2::lemma2_to64();
            vstd::arithmetic::power2::lemma_pow2_unfold((i + 1) as nat);
            if i + 1 < 31 {
                vstd::arithmetic::power2::lemma_pow2_strictly_increases((i + 1) as nat, 31);
            }
        }
        factor = factor * 2;
        i += 1;
    }
    factor
}

/// The wait before a try, in nanoseconds: it grows from `initial` and stays within `max`.
pub open spec fn backoff(attempt: u32, initial: nat, max: nat) -> nat {
    let raw = delay::capped(initial * growth(attempt));
    if raw <= max {
        raw
    } else {
        max
    }
}

/// The shortest that chance makes of a wait of `millis` milliseconds: half of it, rounded up.
pub open spec fn least_jittered(millis: nat) -> nat {
    vstd::math::min(((millis + 1) / 2) as int, u64::MAX as int) as nat
}

/// The longest that chance makes of a wait of `millis` milliseconds: half as much again, rounded
/// up.
pub open spec fn most_jittered(millis: nat) -> nat {
    vstd::math::min(((3 * millis + 1) / 2) as int, u64::MAX as int) as nat
}

/// `wait` is what a wait of `steady` nanoseconds becomes where chance picks `millis`
/// milliseconds.
pub open spec fn jittered(wait: nat, millis: u64, steady: nat, max: nat) -> bool {
    let whole = steady / (delay::NANOS_PER_MILLI as nat);
    &&& least_jittered(whole) <= millis <= most_jittered(whole)
    &&& wait == vstd::math::min((millis * delay::NANOS_PER_MILLI) as int, max as int)
}

/// A number from `low` to `high`. Trusted: `rand::random_range` over an inclusive range of
/// integers, whose result lies within it.
#[verifier::external_body]
fn random_between(low: u64, high: u64) -> (r: u64)
    requires
        low <= high,
    ensures
        low <= r <= high,
{
    rand::random_range(low..=high)
}

/// `n`, or the most that 64 bits hold where that is less.
fn within_u64(n: u128) -> (r: u64)
    ensures
        r == vstd::math::min(n as int, u64::MAX as int),
{
    if n <= u64::MAX as u128 {
        n as u64
    } else {
        u64::MAX
    }
}

/// Calculates exponential backoff without regard to chance or to `Retry-After`.
pub fn steady_backoff(attempt: u32, initial_delay: Delay, max_delay: Delay) -> (r: Delay)
    ensures
        r@ == backoff(attempt, initial_delay@, max_delay@),
{
    initial_delay.saturating_mul(growth_factor(attempt)).shorter(&max_delay)
}

/// A wait of `millis` milliseconds, which chance picked, within `max_delay`.
pub fn jittered_backoff(millis: u64, max_delay: Delay) -> (r: Delay)
    ensures
        r@ == vstd::math::min((millis * delay::NANOS_PER_MILLI) as int, max_delay@ as int),
{
    Delay::from_millis(millis).shorter(&max_delay)
}

/// Calculates exponential backoff with optional jitter, by a factor from a half to one and a
/// half, and Retry-After override.
pub fn calculate_backoff(
    attempt: u32,
    initial_delay: Delay,
    max_delay: Delay,
    with_jitter: bool,
    retry_after: Option<Delay>,
) -> (r: Delay)
    ensures
        retry_after matches Some(asked) ==> r@ == vstd::math::min(
            asked@ as int,
            max_delay@ as int,
        ),
        retry_after is None && !with_jitter ==> r@ == backoff(
            attempt,
            initial_delay@,
            max_delay@,
        ),
        retry_after is None && with_jitter ==> exists|millis: u64| #[trigger]
            jittered(r@, millis, backoff(attempt, initial_delay@, max_delay@), max_delay@),
{
    if let Some(asked) = retry_after {
        return asked.shorter(&max_delay);
    }
    let steady = steady_backoff(attempt, initial_delay, max_delay);
    if !with_jitter {
        return steady;
    }
    let millis: u128 = steady.as_millis();
    let low = within_u64((millis + 1) / 2);
    let high = within_u64((3 * millis + 1) / 2);
    let picked = random_between(low, high);
    let r = jittered_backoff(picked, max_delay);
    proof {
        assert(jittered(r@, picked, steady@, max_delay@));
    }
    r
}

/// No wait is longer than the configured maximum.
pub proof fn backoff_within_maximum(attempt: u32, initial: nat, max: nat)
    ensures
        backoff(attempt, initial, max) <= max,
{
}

/// A later try never waits less than an earlier one.
pub proof fn backoff_grows(earlier: u32, later: u32, initial: nat, max: nat)
    requires
        earlier <= later,
    ensures
        backoff(earlier, initial, max) <= backoff(later, initial, max),
{
    growth_grows(earlier, later);
    assert(initial * growth(earlier) <= initial * growth(later)) by (nonlinear_arith)
        requires
            growth(earlier) <= growth(later),
    ;
}

/// The factor never shrinks.
proof fn growth_grows(earlier: u32, later: u32)
    requires
        earlier <= later,
    ensures
        growth(earlier) <= growth(later),
{
    vstd::arithmetic::power2::lemma2_to64();
    if earlier < 32 {
        let end = if later < 32 {
            later
        } else {
            31
        };
        if earlier < end {
            vstd::arithmetic::power2::lemma_pow2_strictly_increases(earlier as nat, end as nat);
        }
    }
}

/// Once the maximum is reached it is kept to at every later try.
pub proof fn backoff_stays_at_maximum(earlier: u32, later: u32, initial: nat, max: nat)
    requires
        earlier <= later,
        backoff(earlier, initial, max) == max,
    ensures
        backoff(later, initial, max) == max,
{
    backoff_grows(earlier, later, initial, max);
}

/// Among the first 32 tries, each waits twice as long as the one before it, until the maximum is
/// reached.
pub proof fn backoff_doubles(attempt: u32, initial: nat, max: nat)
    requires
        attempt + 1 < 32,
        2 * backoff(attempt, initial, max) < max,
        max <= delay::LONGEST,
    ensures
        backoff((attempt + 1) as u32, initial, max) == 2 * backoff(attempt, initial, max),
{
    vstd::arithmetic::power2::lemma_pow2_unfold((attempt + 1) as nat);
    let g = growth(attempt);
    assert(growth((attempt + 1) as u32) == 2 * g);
    assert(initial * (2 * g) == 2 * (initial * g)) by (nonlinear_arith);
}

/// The statuses to retry are 408, 429, 500, 502, 503 and 504, and no others.
pub proof fn transient_statuses_are_retried(status: u16)
    ensures
        retriable(status) <==> status == 408 || status == 429 || status == 500 || status == 502
            || status == 503 || status == 504,
{
}

/// A refusal for the location is a 400 that says so. Nothing is taken for one that has none of the
/// fixed phrases and names neither a location, a region nor a country; and naming one of them is
/// not enough either.
pub proof fn a_location_block_names_a_place(status: u16, body: Seq<char>)
    ensures
        location_block(status, body) ==> {
            let lower = text::lowered(body);
            &&& status == 400
            &&& {
                ||| text::occurs(body, "User location is not supported"@)
                ||| text::occurs(body, "FAILED_PRECONDITION"@)
                ||| text::occurs(body, "is not supported for the API use"@)
                ||| text::occurs(lower, "is not supported for the api use"@)
                ||| text::occurs(lower, "location"@)
                ||| text::occurs(lower, "region"@)
                ||| text::occurs(lower, "country"@)
            }
            &&& {
                ||| text::occurs(body, "User location is not supported"@)
                ||| text::occurs(body, "FAILED_PRECONDITION"@)
                ||| text::occurs(body, "is not supported for the API use"@)
                ||| text::occurs(lower, "is not supported for the api use"@)
                ||| text::occurs(lower, "not supported"@)
                ||| text::occurs(lower, "unsupported"@)
                ||| text::occurs(lower, "not available"@)
            }
        },
{
    places_and_refusals(body, text::lowered(body));
}

/// A 400 is a refusal for the location where it has one of the fixed phrases; where it says, in
/// whatever case, that a location is not supported, unsupported or not available; and where it says
/// that a region or a country is unsupported or not available. These are all such refusals.
pub proof fn what_a_location_block_says(body: Seq<char>)
    ensures
        ({
            let lower = text::lowered(body);
            let unsupported = text::occurs(lower, "unsupported"@);
            let unavailable = text::occurs(lower, "not available"@);
            location_block(400, body) <==> {
                ||| text::occurs(body, "User location is not supported"@)
                ||| text::occurs(body, "FAILED_PRECONDITION"@)
                ||| text::occurs(body, "is not supported for the API use"@)
                ||| text::occurs(lower, "is not supported for the api use"@)
                ||| text::occurs(lower, "location"@) && (unsupported || unavailable
                    || text::occurs(lower, "not supported"@))
                ||| (text::occurs(lower, "region"@) || text::occurs(lower, "country"@)) && (
                unsupported || unavailable)
            }
        }),
{
    places_and_refusals(body, text::lowered(body));
}

/// The lists of phrases and words have just these entries.
proof fn places_and_refusals(body: Seq<char>, lower: Seq<char>)
    ensures
        text::occurs_any(
            body,
            seq![
                "User location is not supported"@,
                "FAILED_PRECONDITION"@,
                "is not supported for the API use"@,
            ],
        ) <==> text::occurs(body, "User location is not supported"@) || text::occurs(
            body,
            "FAILED_PRECONDITION"@,
        ) || text::occurs(body, "is not supported for the API use"@),
        text::occurs_any(lower, seq!["not supported"@, "unsupported"@]) <==> text::occurs(
            lower,
            "not supported"@,
        ) || text::occurs(lower, "unsupported"@),
        text::occurs_any(lower, seq!["region"@, "country"@, "location"@]) <==> text::occurs(
            lower,
            "region"@,
        ) || text::occurs(lower, "country"@) || text::occurs(lower, "location"@),
        text::occurs_any(lower, seq!["country"@, "region"@, "location"@]) <==> text::occurs(
            lower,
            "region"@,
        ) || text::occurs(lower, "country"@) || text::occurs(lower, "location"@),
{
    let phrases = seq![
        "User location is not supported"@,
        "FAILED_PRECONDITION"@,
        "is not supported for the API use"@,
    ];
    assert(phrases[0] == "User location is not supported"@ && phrases[1] == "FAILED_PRECONDITION"@
        && phrases[2] == "is not supported for the API use"@);
    let refused = seq!["not supported"@, "unsupported"@];
    assert(refused[0] == "not supported"@ && refused[1] == "unsupported"@);
    let areas = seq!["region"@, "country"@, "location"@];
    assert(areas[0] == "region"@ && areas[1] == "country"@ && areas[2] == "location"@);
    let places = seq!["country"@, "region"@, "location"@];
    assert(places[0] == "country"@ && places[1] == "region"@ && places[2] == "location"@);
}

/// By default what is retried is 408, 429, 500, 502, 503, 504 and a refusal for the location, which
/// is always a 400; with `retry_all` it is all but what reports success, from 200 to 299.
pub proof fn what_is_retried(status: u16, body: Seq<char>)
    ensures
        to_retry(status, body, true) <==> !(200 <= status <= 299),
        status != 400 ==> (to_retry(status, body, false) <==> status == 408 || status == 429
            || status == 500 || status == 502 || status == 503 || status == 504),
        status == 400 ==> (to_retry(status, body, false) <==> location_block(400, body)),
        200 <= status <= 299 ==> !to_retry(status, body, false),
{
}

/// The wait before the second try is the initial one, within the maximum.
pub proof fn the_first_wait_is_the_initial_one(initial: nat, max: nat)
    requires
        initial <= delay::LONGEST,
    ensures
        backoff(0, initial, max) == (if initial <= max {
            initial
        } else {
            max
        }),
{
    vstd::arithmetic::power2::lemma2_to64();
    assert(initial * 1 == initial);
}

/// Chance makes of a wait of some milliseconds one from half of it to half as much again, and never
/// one beyond the maximum.
pub proof fn jitter_is_by_half(wait: nat, millis: u64, steady: nat, max: nat)
    requires
        jittered(wait, millis, steady, max),
        steady / 1_000_000 <= 0x4000_0000_0000_0000,
    ensures
        wait <= max,
        wait == max || wait == 1_000_000 * millis,
        steady / 1_000_000 <= 2 * millis <= 3 * (steady / 1_000_000) + 1,
{
}

/// Every number of milliseconds from half of a wait to half as much again can come of it.
pub proof fn jitter_reaches_every_wait(millis: u64, steady: nat, max: nat)
    requires
        steady / 1_000_000 <= 2 * millis <= 3 * (steady / 1_000_000),
        1_000_000 * millis <= max,
    ensures
        jittered((1_000_000 * millis) as nat, millis, steady, max),
{
}

/// A `Retry-After` header that is a number, with or without white space around it, asks for so many
/// seconds.
pub proof fn a_number_asks_for_seconds(header: Seq<char>, secs: nat, now: int)
    requires
        text::unsigned(text::trimmed(header)) == Some(secs),
        secs <= u64::MAX,
    ensures
        asked_wait(header, now) == Some(1_000_000_000 * secs),
{
}

/// A `Retry-After` header that is a number beyond the range of seconds is no number of seconds: it
/// asks for something only where it can be read as a date.
pub proof fn a_number_out_of_range_asks_for_no_seconds(header: Seq<char>, secs: nat, now: int)
    requires
        text::unsigned(text::trimmed(header)) == Some(secs),
        secs > u64::MAX,
    ensures
        asked_wait(header, now) is Some <==> http_date(text::trimmed(header)) is Some,
        asked_wait(header, now) matches Some(wait) ==> wait <= delay::LONGEST,
{
}

/// A `Retry-After` header that is a date asks for the time that is left until then, to the
/// nanosecond; a tenth of a second where it has passed. A header that is neither asks for nothing.
pub proof fn a_date_asks_for_the_time_until_it(header: Seq<char>, now: int)
    requires
        text::unsigned(text::trimmed(header)) is None,
    ensures
        match http_date(text::trimmed(header)) {
            Some(secs) => asked_wait(header, now) matches Some(wait) && (if 1_000_000_000 * secs
                < now {
                wait == 100_000_000
            } else {
                now + wait == 1_000_000_000 * secs || wait == delay::LONGEST && now + wait
                    < 1_000_000_000 * secs
            }),
            None => asked_wait(header, now) is None,
        },
{
}

} // verus!
