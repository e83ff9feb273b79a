//! Settings of the proxy.

use crate::text;
use crate::text::{chars_of, position_of};
use vstd::prelude::*;

verus! {

/// Settings of the proxy, of its retries and of its choice among Clash nodes.
pub struct Config {
    /// Host address to bind the proxy server to
    pub host: String,
    /// Port to listen on (default: dynamic free port in wrapper mode, 8080 in server mode)
    pub port: Option<u16>,
    /// Upstream Gemini API base URL
    pub upstream: String,
    /// Upstream Cloud Code API base URL (for Antigravity OAuth mode)
    pub cloudcode_upstream: String,
    /// Maximum retry attempts on retriable errors (0 = unlimited)
    pub max_retries: u32,
    /// Initial retry backoff delay in milliseconds
    pub initial_delay_ms: u64,
    /// Maximum retry backoff delay in milliseconds
    pub max_delay_ms: u64,
    /// Disable jitter in exponential backoff calculation
    pub no_jitter: bool,
    /// Disable full stream chunk buffering (stream chunks immediately to client after first chunk)
    pub no_buffer: bool,
    /// Client request timeout in seconds (for long thinking / generation requests)
    pub request_timeout_secs: u64,
    /// Redirect model requests in format "FROM:TO" (e.g. "gemini-3.7-flash:gemini-3.8-flash")
    pub redirect_model: Vec<String>,
    /// Clash API base URL for auto-switch on retry (e.g. http://127.0.0.1:9097)
    pub clash_api: String,
    /// Clash external-controller secret
    pub clash_secret: String,
    /// Clash proxy group to rotate inside (e.g. Proxy)
    pub clash_group: String,
    /// Clash parent selector to ensure it points to clash_group (e.g. GLOBAL, optional)
    pub clash_parent: String,
    /// Two-tier region priority list (e.g. "美国", "日本", "台湾", "新加坡")
    pub region_priority: Vec<String>,
    /// Consecutive failure threshold for an entire region before cooling it down
    pub region_consecutive_failure_threshold: u32,
    /// Cooldown, in whole seconds, for a region after reaching failure threshold
    pub region_failure_cooldown: i64,
    /// Disable two-tier region priority switching (flat node priority fallback)
    pub no_region_priority: bool,
    /// Disable Clash auto-switch on retry
    pub no_clash_switch: bool,
    /// Retry on all non-2xx responses (including 400/401/403) with Clash switch. By default only
    /// 429/5xx/408 and location-block 400 are retried.
    pub retry_all: bool,
    /// Disable node reliability statistics and priority-based switching
    pub no_stats: bool,
    /// Burst window in seconds to damp rapid-fire consecutive requests
    pub stats_burst_window_secs: i64,
    /// Cooldown window, in whole milliseconds, between Clash proxy node switches to prevent
    /// multi-instance switching storms
    pub clash_switch_cooldown: i64,
    /// How long, in whole seconds, to quarantine nodes that return 400 location block
    pub node_quarantine: i64,
    /// Disable fast pre-flight probing of candidate nodes before exposing user requests
    pub no_preflight_probe: bool,
    /// Maximum local retries on the consensus anchor node before switching Clash proxy
    pub anchor_hysteresis_retries: u32,
    /// Number of consecutive failures before temporarily cooling down a node to let
    /// lower-priority nodes be tried
    pub consecutive_failure_threshold: u32,
    /// Cooldown, in whole seconds, for a node after exceeding consecutive failure threshold
    pub failure_cooldown: i64,
}

/// A length of time is never negative: below zero counts as zero.
pub open spec fn at_least_zero(n: i64) -> i64 {
    if n < 0 {
        0
    } else {
        n
    }
}

/// A length of time is never negative: below zero counts as zero.
fn not_negative(n: i64) -> (r: i64)
    ensures
        r == at_least_zero(n),
{
    if n < 0 {
        0
    } else {
        n
    }
}

/// The pairs of those of `list` that are written `FROM:TO`, split at their first `:`.
pub open spec fn redirections(list: Seq<Seq<char>>) -> Seq<(Seq<char>, Seq<char>)>
    decreases list.len(),
{
    if list.len() == 0 {
        Seq::empty()
    } else {
        let before = redirections(list.drop_last());
        let s = list.last();
        let i = text::position(s, ':');
        if i < s.len() {
            before.push((s.take(i), s.skip(i + 1)))
        } else {
            before
        }
    }
}

impl Config {
    pub fn is_jitter_enabled(&self) -> (r: bool)
        ensures
            r == !self.no_jitter,
    {
        !self.no_jitter
    }

    pub fn is_buffer_enabled(&self) -> (r: bool)
        ensures
            r == !self.no_buffer,
    {
        !self.no_buffer
    }

    pub fn is_preflight_probe_enabled(&self) -> (r: bool)
        ensures
            r == !self.no_preflight_probe,
    {
        !self.no_preflight_probe
    }

    pub fn is_region_priority_enabled(&self) -> (r: bool)
        ensures
            r == !self.no_region_priority,
    {
        !self.no_region_priority
    }

    pub fn node_quarantine_secs(&self) -> (r: i64)
        ensures
            r == at_least_zero(self.node_quarantine),
    {
        not_negative(self.node_quarantine)
    }

    pub fn failure_cooldown_duration_secs(&self) -> (r: i64)
        ensures
            r == at_least_zero(self.failure_cooldown),
    {
        not_negative(self.failure_cooldown)
    }

    pub fn region_failure_cooldown_duration_secs(&self) -> (r: i64)
        ensures
            r == at_least_zero(self.region_failure_cooldown),
    {
        not_negative(self.region_failure_cooldown)
    }

    pub fn clash_switch_cooldown_ms(&self) -> (r: i64)
        ensures
            r == at_least_zero(self.clash_switch_cooldown),
    {
        not_negative(self.clash_switch_cooldown)
    }

    /// The redirections that are written `FROM:TO`, split at their first `:`.
    pub fn model_redirects(&self) -> (r: Vec<(&str, &str)>)
        ensures
            crate::proxy::rules(r@) == redirections(text::strings(self.redirect_model@)),
    {
        let ghost all = text::strings(self.redirect_model@);
        let mut out: Vec<(&str, &str)> = Vec::new();
        let mut k: usize = 0;
        proof {
            assert(all.take(0) =~= Seq::<Seq<char>>::empty());
            assert(crate::proxy::rules(out@) =~= redirections(all.take(0)));
        }
        while k < self.redirect_model.len()
            invariant
                k <= self.redirect_model.len(),
                all == text::strings(self.redirect_model@),
                crate::proxy::rules(out@) == redirections(all.take(k as int)),
            decreases self.redirect_model.len() - k,
        {
            let s = self.redirect_model[k].as_str();
            let chars = chars_of(s);
            let i = position_of(&chars, ':');
            proof {
                assert(all.take(k + 1).drop_last() =~= all.take(k as int));
                assert(all.take(k + 1).last() == s@);
                text::position_is_first(s@, ':');
            }
            let ghost before = out@;
            if i < chars.len() {
                let from = s.substring_char(0, i);
                let to = s.substring_char(i + 1, chars.len());
                out.push((from, to));
                proof {
                    assert(from@ =~= s@.take(i as int));
                    assert(to@ =~= s@.skip(i + 1));
                    assert(crate::proxy::rules(out@) =~= crate::proxy::rules(before).push(
                        (from@, to@),
                    ));
                }
            }
            k += 1;
        }
        proof {
            assert(all.take(all.len() as int) =~= all);
        }
        out
    }
}

impl Default for Config {
    fn default() -> (r: Self)
        ensures
            r.host@ == "127.0.0.1"@,
            r.port is None,
            r.upstream@ == "https://generativelanguage.googleapis.com"@,
            r.cloudcode_upstream@ == "https://daily-cloudcode-pa.googleapis.com"@,
            r.max_retries == 15,
            r.initial_delay_ms == 1000,
            r.max_delay_ms == 60000,
            !r.no_jitter,
            !r.no_buffer,
            r.request_timeout_secs == 600,
            r.redirect_model@.len() == 0,
            r.clash_api@ == "http://127.0.0.1:9097"@,
            r.clash_secret@ == "set-your-secret"@,
            r.clash_group@ == "Proxy"@,
            r.clash_parent@ == ""@,
            text::strings(r.region_priority@) == seq!["美国"@, "日本"@, "台湾"@, "新加坡"@],
            r.region_consecutive_failure_threshold == 3,
            r.region_failure_cooldown == 300,
            !r.no_region_priority,
            !r.no_clash_switch,
            !r.retry_all,
            !r.no_stats,
            r.stats_burst_window_secs == 15,
            r.clash_switch_cooldown == 5000,
            r.node_quarantine == 12 * 3600,
            !r.no_preflight_probe,
            r.anchor_hysteresis_retries == 5,
            r.consecutive_failure_threshold == 2,
            r.failure_cooldown == 180,
    {
        let region_priority = vec![
            "美国".to_owned(),
            "日本".to_owned(),
            "台湾".to_owned(),
            "新加坡".to_owned(),
        ];
        proof {
            assert(text::strings(region_priority@) =~= seq![
                "美国"@,
                "日本"@,
                "台湾"@,
                "新加坡"@,
            ]);
        }
        Config {
            host: "127.0.0.1".to_owned(),
            port: None,
            upstream: "https://generativelanguage.googleapis.com".to_owned(),
            cloudcode_upstream: "https://daily-cloudcode-pa.googleapis.com".to_owned(),
            max_retries: 15,
            initial_delay_ms: 1000,
            max_delay_ms: 60000,
            no_jitter: false,
            no_buffer: false,
            request_timeout_secs: 600,
            redirect_model: Vec::new(),
            clash_api: "http://127.0.0.1:9097".to_owned(),
            clash_secret: "set-your-secret".to_owned(),
            clash_group: "Proxy".to_owned(),
            clash_parent: "".to_owned(),
            region_priority,
            region_consecutive_failure_threshold: 3,
            region_failure_cooldown: 300,
            no_region_priority: false,
            no_clash_switch: false,
            retry_all: false,
            no_stats: false,
            stats_burst_window_secs: 15,
            clash_switch_cooldown: 5000,
            node_quarantine: 43200,
            no_preflight_probe: false,
            anchor_hysteresis_retries: 5,
            consecutive_failure_threshold: 2,
            failure_cooldown: 180,
        }
    }
}

/// What the `server` command is given.
pub struct ServerArgs {
    pub config: Config,
}

impl ServerArgs {
    /// The port that is asked for, else 8080.
    pub fn resolved_port(&self) -> (r: u16)
        ensures
            r == (match self.config.port {
                Some(port) => port,
                None => 8080,
            }),
    {
        self.config.port.unwrap_or(8080)
    }
}

/// What the `run` command, which is the default, is given.
pub struct WrapperArgs {
    pub config: Config,
    /// Executable path or command name for Antigravity CLI
    pub agy_path: String,
    /// Optional log file path for agy-gyro proxy tracing logs
    pub log_file: Option<String>,
    /// Raw arguments passed through directly to agy
    pub agy_args: Vec<String>,
}

impl WrapperArgs {
    /// The port that is asked for, else any that is free.
    pub fn resolved_port(&self) -> (r: u16)
        ensures
            r == (match self.config.port {
                Some(port) => port,
                None => 0,
            }),
    {
        self.config.port.unwrap_or(0)
    }
}

/// What the `stats` command is given.
pub struct StatsArgs {
    pub config: Config,
    /// Specific hour (0-23) to inspect (default: current local hour)
    pub hour: Option<u8>,
    /// Show detailed rankings for all 24 hours
    pub all_hours: bool,
}

impl StatsArgs {
    /// The hours to show, of which `current` is the present one.
    pub fn hours_to_show(&self, current: u8) -> (r: Vec<u8>)
        ensures
            self.all_hours ==> r@ == Seq::new(24, |i: int| i as u8),
            !self.all_hours ==> r@ == seq![
                match self.hour {
                    Some(hour) => hour,
                    None => current,
                },
            ],
    {
        if self.all_hours {
            let mut out: Vec<u8> = Vec::new();
            let mut h: u8 = 0;
            while h < 24
                invariant
                    h <= 24,
                    out@ == Seq::new(h as nat, |i: int| i as u8),
                decreases 24 - h,
            {
                out.push(h);
                h += 1;
                proof {
                    assert(out@ =~= Seq::new(h as nat, |i: int| i as u8));
                }
            }
            out
        } else {
            vec![self.hour.unwrap_or(current)]
        }
    }

    /// The hours to show at the present moment.
    pub fn hours(&self) -> (r: Vec<u8>)
        ensures
            self.all_hours ==> r@ == Seq::new(24, |i: int| i as u8),
            !self.all_hours ==> r@.len() == 1 && match self.hour {
                Some(hour) => r@[0] == hour,
                None => r@[0] < 24,
            },
    {
        self.hours_to_show(crate::stats::StatsManager::current_hour())
    }
}

/// A redirection is written `FROM:TO`: what stands before the first `:` is sent to what stands
/// after it. Each counts in its turn, and what has no `:` is none.
pub proof fn redirections_are_split_at_the_first_colon(
    list: Seq<Seq<char>>,
    from: Seq<char>,
    to: Seq<char>,
)
    requires
        forall|i: int| 0 <= i < from.len() ==> #[trigger] from[i] != ':',
    ensures
        redirections(Seq::empty()) == Seq::<(Seq<char>, Seq<char>)>::empty(),
        redirections(list.push(from + seq![':'] + to)) == redirections(list).push((from, to)),
        redirections(list.push(from)) == redirections(list),
{
    let s = from + seq![':'] + to;
    text::position_is_first(s, ':');
    text::position_is_first(from, ':');
    let i = text::position(s, ':');
    assert(s[from.len() as int] == ':');
    if i < from.len() {
        assert(s[i] == from[i]);
    }
    assert(i == from.len());
    assert(s.take(i) =~= from);
    assert(s.skip(i + 1) =~= to);
    assert(list.push(s).drop_last() =~= list);
    assert(list.push(from).drop_last() =~= list);
    let j = text::position(from, ':');
    if j < from.len() {
        assert(from[j] != ':');
    }
}

/// A length of time that is set is kept; below zero it is zero.
pub proof fn lengths_of_time_are_not_negative(n: i64)
    ensures
        at_least_zero(n) >= 0,
        n >= 0 ==> at_least_zero(n) == n,
        n < 0 ==> at_least_zero(n) == 0,
{
}

} // verus!
