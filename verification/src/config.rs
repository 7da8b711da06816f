//! Application configuration, read from environment variables.
//!
//! Settings that have a fractional part, times among them, are held in
//! billionths.

use vstd::prelude::*;

use crate::table::Table;
use crate::text::{
    decimal_text, is_digit, law_numeral_round_trip, lower, lowered, opt_text, parse_unsigned,
    same_text, unsigned_value,
};

verus! {

broadcast use vstd::string::group_string_axioms;

/// The value of an environment variable: its text and, where it is a decimal
/// fraction, the number in billionths.
#[derive(Debug)]
pub struct EnvValue {
    pub text: String,
    pub billionths: Option<i64>,
}

/// Server catalog API settings (server-service).
#[derive(Debug)]
pub struct ServerApiSettings {
    pub api: String,
    pub api_token: Option<String>,
}

/// Monitoring-service API settings.
#[derive(Debug)]
pub struct MonitoringApiSettings {
    pub api: String,
    pub api_token: Option<String>,
}

/// Collector runtime configuration.
#[derive(Debug)]
pub struct CollectorSettings {
    pub online_interval_seconds: u64,
    pub offline_interval_seconds: u64,
    pub startup_spread_seconds: u64,
    pub server_list_refresh_seconds: u64,
    pub server_list_retry_seconds: u64,
    pub page_size: u64,
    pub max_concurrency: usize,
    pub status_timeout: i64,
    pub lookup_timeout: i64,
    pub ingest_batch_size: usize,
    pub ingest_flush: i64,
    pub result_queue_maxsize: usize,
    pub http_timeout: i64,
    pub bedrock_probe_interval_seconds: u64,
    pub bedrock_probe_jitter_seconds: u64,
    pub trigger_file_path: String,
    pub trigger_poll: i64,
    pub force_ping_queue_key: String,
    pub force_ping_pop_timeout: i64,
    pub discovery_probe_queue_key: String,
    pub discovery_probe_result_key_prefix: String,
    pub discovery_probe_result_ttl_seconds: u64,
    pub initial_failures_before_slowdown: u32,
    pub initial_failure_slowdown_multiplier: i64,
    pub initial_failure_max_interval_seconds: u64,
    pub plugin_compare_interval_seconds: u64,
}

/// Geo lookup cache settings.
#[derive(Clone, Copy, Debug)]
pub struct GeoSettings {
    pub ttl_seconds: u64,
    pub refresh_jitter_seconds: u64,
    pub retry_seconds: u64,
    pub dns_ttl_seconds: u64,
    pub dns_retry_seconds: u64,
    pub dns_cache_max_entries: usize,
    pub dns_max_concurrency: usize,
}

/// Prometheus exporter configuration.
#[derive(Debug)]
pub struct PrometheusSettings {
    pub enabled: bool,
    pub host: String,
    pub port: u16,
    pub update_interval: i64,
}

/// Optional Redis configuration.
#[derive(Debug)]
pub struct RedisSettings {
    pub enabled: bool,
    pub url: String,
}

/// Top-level application settings.
#[derive(Debug)]
pub struct Settings {
    pub service_name: String,
    pub log_level: String,
    pub server: ServerApiSettings,
    pub monitoring: MonitoringApiSettings,
    pub collector: CollectorSettings,
    pub geo: GeoSettings,
    pub prometheus: PrometheusSettings,
    pub redis: RedisSettings,
}

// ---------------------------------------------------------------------------
// Variables
// ---------------------------------------------------------------------------

/// An environment.
pub type Env = Map<Seq<char>, EnvValue>;

/// The text of a variable.
pub open spec fn text_in(env: Env, key: Seq<char>) -> Option<Seq<char>> {
    if env.dom().contains(key) {
        Some(env[key].text@)
    } else {
        None
    }
}

/// The text of a variable, or the default where it is not set.
pub open spec fn str_or(env: Env, key: Seq<char>, default: Seq<char>) -> Seq<char> {
    match text_in(env, key) {
        Some(text) => text,
        None => default,
    }
}

/// The text of a variable that is set and not empty.
pub open spec fn str_opt(env: Env, key: Seq<char>) -> Option<Seq<char>> {
    match text_in(env, key) {
        Some(text) => if text.len() > 0 {
            Some(text)
        } else {
            None
        },
        None => None,
    }
}

/// The natural number in a variable, or the default where there is none that
/// fits under the limit.
pub open spec fn number_or(env: Env, key: Seq<char>, limit: int, default: int) -> int {
    match text_in(env, key) {
        Some(text) => match unsigned_value(text, limit) {
            Some(n) => n,
            None => default,
        },
        None => default,
    }
}

pub open spec fn u64_or(env: Env, key: Seq<char>, default: int) -> int {
    number_or(env, key, u64::MAX as int, default)
}

pub open spec fn usize_or(env: Env, key: Seq<char>, default: int) -> int {
    number_or(env, key, usize::MAX as int, default)
}

pub open spec fn u16_or(env: Env, key: Seq<char>, default: int) -> int {
    number_or(env, key, u16::MAX as int, default)
}

/// The decimal fraction in a variable in billionths, or the default.
pub open spec fn billionths_or(env: Env, key: Seq<char>, default: int) -> int {
    if env.dom().contains(key) {
        match env[key].billionths {
            Some(n) => n as int,
            None => default,
        }
    } else {
        default
    }
}

/// A word in lower case that stands for yes.
pub open spec fn yes_word(lowered: Seq<char>) -> bool {
    lowered == "true"@ || lowered == "1"@ || lowered == "yes"@ || lowered == "on"@
}

/// Whether a variable says yes, or the default where it is not set.
pub open spec fn bool_or(env: Env, key: Seq<char>, default: bool) -> bool {
    match text_in(env, key) {
        Some(text) => yes_word(lowered(text)),
        None => default,
    }
}

pub open spec fn at_least(n: int, least: int) -> int {
    if n < least {
        least
    } else {
        n
    }
}

pub open spec fn at_most(n: int, most: int) -> int {
    if n > most {
        most
    } else {
        n
    }
}

/// The number, or another one in place of zero.
pub open spec fn unless_zero(n: int, other: int) -> int {
    if n > 0 {
        n
    } else {
        other
    }
}

fn env_str(env: &Table<EnvValue>, key: &str, default: &str) -> (r: String)
    requires
        env.wf(),
    ensures
        r@ == str_or(env@, key@, default@),
{
    match env.get(key) {
        Some(v) => v.text.clone(),
        None => default.to_owned(),
    }
}

fn env_str_opt(env: &Table<EnvValue>, key: &str) -> (r: Option<String>)
    requires
        env.wf(),
    ensures
        opt_text(r) == str_opt(env@, key@),
{
    match env.get(key) {
        Some(v) if !v.text.as_str().is_empty() => Some(v.text.clone()),
        _ => None,
    }
}

fn env_number(env: &Table<EnvValue>, key: &str, limit: u64, default: u64) -> (r: u64)
    requires
        env.wf(),
        default <= limit,
    ensures
        r == number_or(env@, key@, limit as int, default as int),
        r <= limit,
{
    match env.get(key) {
        Some(v) => match parse_unsigned(v.text.as_str(), limit) {
            Some(n) => n,
            None => default,
        },
        None => default,
    }
}

fn env_u64(env: &Table<EnvValue>, key: &str, default: u64) -> (r: u64)
    requires
        env.wf(),
    ensures
        r == u64_or(env@, key@, default as int),
{
    env_number(env, key, u64::MAX, default)
}

fn env_usize(env: &Table<EnvValue>, key: &str, default: usize) -> (r: usize)
    requires
        env.wf(),
    ensures
        r == usize_or(env@, key@, default as int),
{
    env_number(env, key, usize::MAX as u64, default as u64) as usize
}

fn env_u16(env: &Table<EnvValue>, key: &str, default: u16) -> (r: u16)
    requires
        env.wf(),
    ensures
        r == u16_or(env@, key@, default as int),
{
    env_number(env, key, u16::MAX as u64, default as u64) as u16
}

fn env_billionths(env: &Table<EnvValue>, key: &str, default: i64) -> (r: i64)
    requires
        env.wf(),
    ensures
        r == billionths_or(env@, key@, default as int),
{
    match env.get(key) {
        Some(v) => match v.billionths {
            Some(n) => n,
            None => default,
        },
        None => default,
    }
}

/// Whether a word in lower case stands for yes.
pub fn says_yes(lowered: &str) -> (r: bool)
    ensures
        r == yes_word(lowered@),
{
    same_text(lowered, "true") || same_text(lowered, "1") || same_text(lowered, "yes")
        || same_text(lowered, "on")
}

fn env_bool(env: &Table<EnvValue>, key: &str, default: bool) -> (r: bool)
    requires
        env.wf(),
    ensures
        r == bool_or(env@, key@, default),
{
    match env.get(key) {
        Some(v) => {
            let lowered = lower(v.text.as_str());
            says_yes(lowered.as_str())
        },
        None => default,
    }
}

fn max_u64(a: u64, b: u64) -> (r: u64)
    ensures
        r == at_least(a as int, b as int),
{
    if a < b {
        b
    } else {
        a
    }
}

fn min_u64(a: u64, b: u64) -> (r: u64)
    ensures
        r == at_most(a as int, b as int),
{
    if a > b {
        b
    } else {
        a
    }
}

fn max_usize(a: usize, b: usize) -> (r: usize)
    ensures
        r == at_least(a as int, b as int),
{
    if a < b {
        b
    } else {
        a
    }
}

// ---------------------------------------------------------------------------
// Settings
// ---------------------------------------------------------------------------

/// The interval between polls of a server that is up.
pub open spec fn online_interval(env: Env) -> int {
    unless_zero(
        at_least(
            at_least(
                u64_or(env, "COLLECTOR_ONLINE_INTERVAL_SECONDS"@, 0),
                u64_or(env, "ONLINE_INTERVAL_SECONDS"@, 0),
            ),
            u64_or(env, "INTERVAL_SECONDS"@, 0),
        ),
        300,
    )
}

/// The interval between polls of a server that is down: twice that of one that
/// is up, unless it is given.
pub open spec fn offline_interval(env: Env) -> int {
    unless_zero(
        at_least(
            u64_or(env, "COLLECTOR_OFFLINE_INTERVAL_SECONDS"@, 0),
            u64_or(env, "OFFLINE_INTERVAL_SECONDS"@, 0),
        ),
        online_interval(env) * 2,
    )
}

/// The span over which the first polls are spread: the interval between polls,
/// unless it is given.
pub open spec fn startup_spread(env: Env) -> int {
    unless_zero(
        at_least(
            u64_or(env, "COLLECTOR_STARTUP_SPREAD_SECONDS"@, 0),
            u64_or(env, "STARTUP_SPREAD_SECONDS"@, 0),
        ),
        online_interval(env),
    )
}

/// The settings of server-service, those of the old name standing in.
pub open spec fn server_loaded(env: Env, s: ServerApiSettings) -> bool {
    &&& s.api@ == match str_opt(env, "SERVER_API"@) {
        Some(api) => api,
        None => match str_opt(env, "CORE_API"@) {
            Some(api) => api,
            None => "http://server-service:8201"@,
        },
    }
    &&& opt_text(s.api_token) == match str_opt(env, "SERVER_API_TOKEN"@) {
        Some(token) => Some(token),
        None => str_opt(env, "CORE_API_TOKEN"@),
    }
}

pub open spec fn monitoring_loaded(env: Env, s: MonitoringApiSettings) -> bool {
    &&& s.api@ == str_or(env, "MONITORING_API"@, "http://monitoring-service:8200"@)
    &&& opt_text(s.api_token) == str_opt(env, "MONITORING_API_TOKEN"@)
}

pub open spec fn collector_loaded(env: Env, c: CollectorSettings) -> bool {
    &&& c.online_interval_seconds == online_interval(env)
    &&& c.offline_interval_seconds == offline_interval(env)
    &&& c.startup_spread_seconds == startup_spread(env)
    &&& c.server_list_refresh_seconds == u64_or(
        env,
        "COLLECTOR_SERVER_LIST_REFRESH_SECONDS"@,
        u64_or(env, "SERVER_LIST_REFRESH_SECONDS"@, 300),
    )
    &&& c.server_list_retry_seconds == u64_or(
        env,
        "COLLECTOR_SERVER_LIST_RETRY_SECONDS"@,
        u64_or(env, "SERVER_LIST_RETRY_SECONDS"@, 30),
    )
    &&& c.page_size == at_most(u64_or(
        env,
        "COLLECTOR_PAGE_SIZE"@,
        u64_or(env, "PAGE_SIZE"@, 100),
    ), 100)
    &&& c.max_concurrency == usize_or(
        env,
        "COLLECTOR_MAX_CONCURRENCY"@,
        usize_or(env, "MAX_CONCURRENCY"@, 25),
    )
    &&& c.status_timeout == billionths_or(
        env,
        "COLLECTOR_STATUS_TIMEOUT_SECONDS"@,
        billionths_or(env, "STATUS_TIMEOUT_SECONDS"@, 8_000_000_000),
    )
    &&& c.lookup_timeout == billionths_or(
        env,
        "COLLECTOR_LOOKUP_TIMEOUT_SECONDS"@,
        billionths_or(env, "LOOKUP_TIMEOUT_SECONDS"@, 5_000_000_000),
    )
    &&& c.ingest_batch_size == usize_or(
        env,
        "COLLECTOR_INGEST_BATCH_SIZE"@,
        usize_or(env, "INGEST_BATCH_SIZE"@, 200),
    )
    &&& c.ingest_flush == billionths_or(
        env,
        "COLLECTOR_INGEST_FLUSH_SECONDS"@,
        billionths_or(env, "INGEST_FLUSH_SECONDS"@, 5_000_000_000),
    )
    &&& c.result_queue_maxsize == usize_or(
        env,
        "COLLECTOR_RESULT_QUEUE_MAXSIZE"@,
        usize_or(env, "RESULT_QUEUE_MAXSIZE"@, 5000),
    )
    &&& c.http_timeout == billionths_or(
        env,
        "COLLECTOR_HTTP_TIMEOUT_SECONDS"@,
        billionths_or(env, "HTTP_TIMEOUT_SECONDS"@, 15_000_000_000),
    )
    &&& c.bedrock_probe_interval_seconds == u64_or(
        env,
        "COLLECTOR_BEDROCK_PROBE_INTERVAL_SECONDS"@,
        u64_or(env, "BEDROCK_PROBE_INTERVAL_SECONDS"@, 3600),
    )
    &&& c.bedrock_probe_jitter_seconds == u64_or(
        env,
        "COLLECTOR_BEDROCK_PROBE_JITTER_SECONDS"@,
        u64_or(env, "BEDROCK_PROBE_JITTER_SECONDS"@, 600),
    )
    &&& c.trigger_file_path@ == str_or(
        env,
        "COLLECTOR_TRIGGER_FILE_PATH"@,
        str_or(env, "TRIGGER_FILE_PATH"@, "/tmp/unverified-collector-trigger"@),
    )
    &&& c.trigger_poll == billionths_or(
        env,
        "COLLECTOR_TRIGGER_POLL_SECONDS"@,
        billionths_or(env, "TRIGGER_POLL_SECONDS"@, 2_000_000_000),
    )
    &&& c.force_ping_queue_key@ == str_or(
        env,
        "COLLECTOR_FORCE_PING_QUEUE_KEY"@,
        str_or(env, "FORCE_PING_QUEUE_KEY"@, "leavepulse:unverified:force-ping"@),
    )
    &&& c.force_ping_pop_timeout == billionths_or(
        env,
        "COLLECTOR_FORCE_PING_POP_TIMEOUT_SECONDS"@,
        billionths_or(env, "FORCE_PING_POP_TIMEOUT_SECONDS"@, 1_000_000_000),
    )
    &&& c.discovery_probe_queue_key@ == str_or(
        env,
        "COLLECTOR_DISCOVERY_PROBE_QUEUE_KEY"@,
        str_or(env, "DISCOVERY_PROBE_QUEUE_KEY"@, "leavepulse:discovery:probe-request"@),
    )
    &&& c.discovery_probe_result_key_prefix@ == str_or(
        env,
        "COLLECTOR_DISCOVERY_PROBE_RESULT_KEY_PREFIX"@,
        str_or(env, "DISCOVERY_PROBE_RESULT_KEY_PREFIX"@, "leavepulse:discovery:probe-result:"@),
    )
    &&& c.discovery_probe_result_ttl_seconds == u64_or(
        env,
        "COLLECTOR_DISCOVERY_PROBE_RESULT_TTL_SECONDS"@,
        u64_or(env, "DISCOVERY_PROBE_RESULT_TTL_SECONDS"@, 60),
    )
    &&& c.initial_failures_before_slowdown == u64_or(
        env,
        "COLLECTOR_INITIAL_FAILURES_BEFORE_SLOWDOWN"@,
        u64_or(env, "INITIAL_FAILURES_BEFORE_SLOWDOWN"@, 5),
    ) % 0x1_0000_0000
    &&& c.initial_failure_slowdown_multiplier == billionths_or(
        env,
        "COLLECTOR_INITIAL_FAILURE_SLOWDOWN_MULTIPLIER"@,
        billionths_or(env, "INITIAL_FAILURE_SLOWDOWN_MULTIPLIER"@, 6_000_000_000),
    )
    &&& c.initial_failure_max_interval_seconds == u64_or(
        env,
        "COLLECTOR_INITIAL_FAILURE_MAX_INTERVAL_SECONDS"@,
        u64_or(env, "INITIAL_FAILURE_MAX_INTERVAL_SECONDS"@, 3600),
    )
    &&& c.plugin_compare_interval_seconds == at_least(u64_or(
        env,
        "COLLECTOR_PLUGIN_COMPARE_INTERVAL_SECONDS"@,
        u64_or(env, "PLUGIN_COMPARE_INTERVAL_SECONDS"@, 1800),
    ), 60)
}

pub open spec fn geo_loaded(env: Env, g: GeoSettings) -> bool {
    &&& g.ttl_seconds == u64_or(env, "GEO_TTL_SECONDS"@, 3600)
    &&& g.refresh_jitter_seconds == u64_or(env, "GEO_REFRESH_JITTER_SECONDS"@, 300)
    &&& g.retry_seconds == u64_or(env, "GEO_RETRY_SECONDS"@, 300)
    &&& g.dns_ttl_seconds == at_least(u64_or(env, "GEO_DNS_TTL_SECONDS"@, 600), 60)
    &&& g.dns_retry_seconds == at_least(u64_or(env, "GEO_DNS_RETRY_SECONDS"@, 120), 10)
    &&& g.dns_cache_max_entries == at_least(
        usize_or(env, "GEO_DNS_CACHE_MAX_ENTRIES"@, 10_000),
        100,
    )
    &&& g.dns_max_concurrency == at_least(usize_or(env, "GEO_DNS_MAX_CONCURRENCY"@, 32), 1)
}

pub open spec fn prometheus_loaded(env: Env, p: PrometheusSettings) -> bool {
    &&& p.enabled == bool_or(env, "PROMETHEUS_ENABLED"@, bool_or(env, "METRICS_ENABLED"@, true))
    &&& p.host@ == str_or(env, "PROMETHEUS_HOST"@, str_or(env, "METRICS_HOST"@, "0.0.0.0"@))
    &&& p.port == u16_or(env, "PROMETHEUS_PORT"@, u16_or(env, "METRICS_PORT"@, 9100))
    &&& p.update_interval == billionths_or(
        env,
        "PROMETHEUS_UPDATE_SECONDS"@,
        billionths_or(env, "METRICS_UPDATE_SECONDS"@, 5_000_000_000),
    )
}

pub open spec fn redis_loaded(env: Env, s: RedisSettings) -> bool {
    &&& s.enabled == bool_or(env, "REDIS_ENABLED"@, false)
    &&& s.url@ == str_or(env, "REDIS_URL"@, "redis://127.0.0.1:6379"@)
}

/// The settings are those of an environment.
pub open spec fn loaded(env: Env, s: Settings) -> bool {
    &&& s.service_name@ == str_or(env, "SERVICE_NAME"@, "unverified-collector"@)
    &&& s.log_level@ == str_or(env, "LOG_LEVEL"@, "info"@)
    &&& server_loaded(env, s.server)
    &&& monitoring_loaded(env, s.monitoring)
    &&& collector_loaded(env, s.collector)
    &&& geo_loaded(env, s.geo)
    &&& prometheus_loaded(env, s.prometheus)
    &&& redis_loaded(env, s.redis)
}

fn load_online_interval(env: &Table<EnvValue>) -> (r: u64)
    requires
        env.wf(),
    ensures
        r == online_interval(env@),
{
    let n: u64 = max_u64(
        max_u64(
            env_u64(env, "COLLECTOR_ONLINE_INTERVAL_SECONDS", 0),
            env_u64(env, "ONLINE_INTERVAL_SECONDS", 0),
        ),
        env_u64(env, "INTERVAL_SECONDS", 0),
    );
    if n > 0 {
        n
    } else {
        300
    }
}

fn given_offline_interval(env: &Table<EnvValue>) -> (r: u64)
    requires
        env.wf(),
    ensures
        r == at_least(
            u64_or(env@, "COLLECTOR_OFFLINE_INTERVAL_SECONDS"@, 0),
            u64_or(env@, "OFFLINE_INTERVAL_SECONDS"@, 0),
        ),
{
    max_u64(
        env_u64(env, "COLLECTOR_OFFLINE_INTERVAL_SECONDS", 0),
        env_u64(env, "OFFLINE_INTERVAL_SECONDS", 0),
    )
}

/// Whether the interval between polls of a server that is down can be held.
pub fn intervals_fit(env: &Table<EnvValue>) -> (r: bool)
    requires
        env.wf(),
    ensures
        r == (offline_interval(env@) <= u64::MAX),
{
    given_offline_interval(env) > 0 || load_online_interval(env) <= u64::MAX / 2
}

fn load_collector(env: &Table<EnvValue>) -> (r: CollectorSettings)
    requires
        env.wf(),
        offline_interval(env@) <= u64::MAX,
    ensures
        collector_loaded(env@, r),
{
    let online_interval_seconds: u64 = load_online_interval(env);
    let offline: u64 = given_offline_interval(env);
    let offline_interval_seconds: u64 = if offline > 0 {
        offline
    } else {
        online_interval_seconds * 2
    };
    let spread: u64 = max_u64(
        env_u64(env, "COLLECTOR_STARTUP_SPREAD_SECONDS", 0),
        env_u64(env, "STARTUP_SPREAD_SECONDS", 0),
    );
    let startup_spread_seconds: u64 = if spread > 0 {
        spread
    } else {
        online_interval_seconds
    };
    CollectorSettings {
        online_interval_seconds,
        offline_interval_seconds,
        startup_spread_seconds,
        server_list_refresh_seconds: env_u64(
            env,
            "COLLECTOR_SERVER_LIST_REFRESH_SECONDS",
            env_u64(env, "SERVER_LIST_REFRESH_SECONDS", 300),
        ),
        server_list_retry_seconds: env_u64(
            env,
            "COLLECTOR_SERVER_LIST_RETRY_SECONDS",
            env_u64(env, "SERVER_LIST_RETRY_SECONDS", 30),
        ),
        page_size: min_u64(env_u64(
            env,
            "COLLECTOR_PAGE_SIZE",
            env_u64(env, "PAGE_SIZE", 100),
        ), 100),
        max_concurrency: env_usize(
            env,
            "COLLECTOR_MAX_CONCURRENCY",
            env_usize(env, "MAX_CONCURRENCY", 25),
        ),
        status_timeout: env_billionths(
            env,
            "COLLECTOR_STATUS_TIMEOUT_SECONDS",
            env_billionths(env, "STATUS_TIMEOUT_SECONDS", 8_000_000_000),
        ),
        lookup_timeout: env_billionths(
            env,
            "COLLECTOR_LOOKUP_TIMEOUT_SECONDS",
            env_billionths(env, "LOOKUP_TIMEOUT_SECONDS", 5_000_000_000),
        ),
        ingest_batch_size: env_usize(
            env,
            "COLLECTOR_INGEST_BATCH_SIZE",
            env_usize(env, "INGEST_BATCH_SIZE", 200),
        ),
        ingest_flush: env_billionths(
            env,
            "COLLECTOR_INGEST_FLUSH_SECONDS",
            env_billionths(env, "INGEST_FLUSH_SECONDS", 5_000_000_000),
        ),
        result_queue_maxsize: env_usize(
            env,
            "COLLECTOR_RESULT_QUEUE_MAXSIZE",
            env_usize(env, "RESULT_QUEUE_MAXSIZE", 5000),
        ),
        http_timeout: env_billionths(
            env,
            "COLLECTOR_HTTP_TIMEOUT_SECONDS",
            env_billionths(env, "HTTP_TIMEOUT_SECONDS", 15_000_000_000),
        ),
        bedrock_probe_interval_seconds: env_u64(
            env,
            "COLLECTOR_BEDROCK_PROBE_INTERVAL_SECONDS",
            env_u64(env, "BEDROCK_PROBE_INTERVAL_SECONDS", 3600),
        ),
        bedrock_probe_jitter_seconds: env_u64(
            env,
            "COLLECTOR_BEDROCK_PROBE_JITTER_SECONDS",
            env_u64(env, "BEDROCK_PROBE_JITTER_SECONDS", 600),
        ),
        trigger_file_path: env_str(
            env,
            "COLLECTOR_TRIGGER_FILE_PATH",
            env_str(env, "TRIGGER_FILE_PATH", "/tmp/unverified-collector-trigger").as_str(),
        ),
        trigger_poll: env_billionths(
            env,
            "COLLECTOR_TRIGGER_POLL_SECONDS",
            env_billionths(env, "TRIGGER_POLL_SECONDS", 2_000_000_000),
        ),
        force_ping_queue_key: env_str(
            env,
            "COLLECTOR_FORCE_PING_QUEUE_KEY",
            env_str(env, "FORCE_PING_QUEUE_KEY", "leavepulse:unverified:force-ping").as_str(),
        ),
        force_ping_pop_timeout: env_billionths(
            env,
            "COLLECTOR_FORCE_PING_POP_TIMEOUT_SECONDS",
            env_billionths(env, "FORCE_PING_POP_TIMEOUT_SECONDS", 1_000_000_000),
        ),
        discovery_probe_queue_key: env_str(
            env,
            "COLLECTOR_DISCOVERY_PROBE_QUEUE_KEY",
            env_str(
                env,
                "DISCOVERY_PROBE_QUEUE_KEY",
                "leavepulse:discovery:probe-request",
            ).as_str(),
        ),
        discovery_probe_result_key_prefix: env_str(
            env,
            "COLLECTOR_DISCOVERY_PROBE_RESULT_KEY_PREFIX",
            env_str(
                env,
                "DISCOVERY_PROBE_RESULT_KEY_PREFIX",
                "leavepulse:discovery:probe-result:",
            ).as_str(),
        ),
        discovery_probe_result_ttl_seconds: env_u64(
            env,
            "COLLECTOR_DISCOVERY_PROBE_RESULT_TTL_SECONDS",
            env_u64(env, "DISCOVERY_PROBE_RESULT_TTL_SECONDS", 60),
        ),
        initial_failures_before_slowdown: (env_u64(
            env,
            "COLLECTOR_INITIAL_FAILURES_BEFORE_SLOWDOWN",
            env_u64(env, "INITIAL_FAILURES_BEFORE_SLOWDOWN", 5),
        ) % 0x1_0000_0000) as u32,
        initial_failure_slowdown_multiplier: env_billionths(
            env,
            "COLLECTOR_INITIAL_FAILURE_SLOWDOWN_MULTIPLIER",
            env_billionths(env, "INITIAL_FAILURE_SLOWDOWN_MULTIPLIER", 6_000_000_000),
        ),
        initial_failure_max_interval_seconds: env_u64(
            env,
            "COLLECTOR_INITIAL_FAILURE_MAX_INTERVAL_SECONDS",
            env_u64(env, "INITIAL_FAILURE_MAX_INTERVAL_SECONDS", 3600),
        ),
        plugin_compare_interval_seconds: max_u64(env_u64(
            env,
            "COLLECTOR_PLUGIN_COMPARE_INTERVAL_SECONDS",
            env_u64(env, "PLUGIN_COMPARE_INTERVAL_SECONDS", 1800),
        ), 60),
    }
}

fn load_geo(env: &Table<EnvValue>) -> (r: GeoSettings)
    requires
        env.wf(),
    ensures
        geo_loaded(env@, r),
{
    GeoSettings {
        ttl_seconds: env_u64(env, "GEO_TTL_SECONDS", 3600),
        refresh_jitter_seconds: env_u64(env, "GEO_REFRESH_JITTER_SECONDS", 300),
        retry_seconds: env_u64(env, "GEO_RETRY_SECONDS", 300),
        dns_ttl_seconds: max_u64(env_u64(env, "GEO_DNS_TTL_SECONDS", 600), 60),
        dns_retry_seconds: max_u64(env_u64(env, "GEO_DNS_RETRY_SECONDS", 120), 10),
        dns_cache_max_entries: max_usize(
            env_usize(env, "GEO_DNS_CACHE_MAX_ENTRIES", 10_000),
            100,
        ),
        dns_max_concurrency: max_usize(env_usize(env, "GEO_DNS_MAX_CONCURRENCY", 32), 1),
    }
}

fn load_server(env: &Table<EnvValue>) -> (r: ServerApiSettings)
    requires
        env.wf(),
    ensures
        server_loaded(env@, r),
{
    let api = match env_str_opt(env, "SERVER_API") {
        Some(api) => api,
        None => match env_str_opt(env, "CORE_API") {
            Some(api) => api,
            None => "http://server-service:8201".to_owned(),
        },
    };
    let api_token = match env_str_opt(env, "SERVER_API_TOKEN") {
        Some(token) => Some(token),
        None => env_str_opt(env, "CORE_API_TOKEN"),
    };
    ServerApiSettings { api, api_token }
}

fn load_prometheus(env: &Table<EnvValue>) -> (r: PrometheusSettings)
    requires
        env.wf(),
    ensures
        prometheus_loaded(env@, r),
{
    PrometheusSettings {
        enabled: env_bool(env, "PROMETHEUS_ENABLED", env_bool(env, "METRICS_ENABLED", true)),
        host: env_str(
            env,
            "PROMETHEUS_HOST",
            env_str(env, "METRICS_HOST", "0.0.0.0").as_str(),
        ),
        port: env_u16(env, "PROMETHEUS_PORT", env_u16(env, "METRICS_PORT", 9100)),
        update_interval: env_billionths(
            env,
            "PROMETHEUS_UPDATE_SECONDS",
            env_billionths(env, "METRICS_UPDATE_SECONDS", 5_000_000_000),
        ),
    }
}

impl Settings {
    /// The settings of an environment.
    pub fn load(env: &Table<EnvValue>) -> (r: Self)
        requires
            env.wf(),
            offline_interval(env@) <= u64::MAX,
        ensures
            loaded(env@, r),
    {
        Settings {
            service_name: env_str(env, "SERVICE_NAME", "unverified-collector"),
            log_level: env_str(env, "LOG_LEVEL", "info"),
            server: load_server(env),
            monitoring: MonitoringApiSettings {
                api: env_str(env, "MONITORING_API", "http://monitoring-service:8200"),
                api_token: env_str_opt(env, "MONITORING_API_TOKEN"),
            },
            collector: load_collector(env),
            geo: load_geo(env),
            prometheus: load_prometheus(env),
            redis: RedisSettings {
                enabled: env_bool(env, "REDIS_ENABLED", false),
                url: env_str(env, "REDIS_URL", "redis://127.0.0.1:6379"),
            },
        }
    }
}

/// The file that variables are read from beside the environment.
pub fn env_file(env: &Table<EnvValue>) -> (r: String)
    requires
        env.wf(),
    ensures
        r@ == str_or(env@, "ENV_FILE"@, ".env"@),
{
    env_str(env, "ENV_FILE", ".env")
}

/// Settings are never so small that what they govern would stop: each interval
/// between polls is positive, a page holds at most a hundred servers, and the
/// caches keep to their least sizes and times.
pub proof fn law_settings_keep_to_their_bounds(env: Env, s: Settings)
    requires
        loaded(env, s),
    ensures
        s.collector.online_interval_seconds > 0,
        s.collector.offline_interval_seconds > 0,
        s.collector.startup_spread_seconds > 0,
        s.collector.page_size <= 100,
        s.collector.plugin_compare_interval_seconds >= 60,
        s.geo.dns_ttl_seconds >= 60,
        s.geo.dns_retry_seconds >= 10,
        s.geo.dns_cache_max_entries >= 100,
        s.geo.dns_max_concurrency >= 1,
{
}

// ---------------------------------------------------------------------------
// Laws of variables
// ---------------------------------------------------------------------------

/// A variable is set to the numeral of a number.
pub open spec fn set_to_number(env: Env, key: Seq<char>, n: int) -> bool {
    env.dom().contains(key) && env[key].text@ == decimal_text(n)
}

/// A variable is set to a text.
pub open spec fn set_to_text(env: Env, key: Seq<char>, text: Seq<char>) -> bool {
    env.dom().contains(key) && env[key].text@ == text
}

/// A variable is set to a fraction, in billionths.
pub open spec fn set_to_fraction(env: Env, key: Seq<char>, n: i64) -> bool {
    env.dom().contains(key) && env[key].billionths == Some(n)
}

/// A variable is not set.
pub open spec fn unset(env: Env, key: Seq<char>) -> bool {
    !env.dom().contains(key)
}

/// A number of the collector is that of its own variable, or else of the general
/// one, or else the default.
pub proof fn law_numbers_come_from_their_variables(env: Env, s: Settings, n: int)
    requires
        loaded(env, s),
        0 <= n <= u64::MAX,
    ensures
        set_to_number(env, "COLLECTOR_SERVER_LIST_REFRESH_SECONDS"@, n)
            ==> s.collector.server_list_refresh_seconds == n,
        unset(env, "COLLECTOR_SERVER_LIST_REFRESH_SECONDS"@)
            && set_to_number(env, "SERVER_LIST_REFRESH_SECONDS"@, n)
            ==> s.collector.server_list_refresh_seconds == n,
        unset(env, "COLLECTOR_SERVER_LIST_REFRESH_SECONDS"@)
            && unset(env, "SERVER_LIST_REFRESH_SECONDS"@)
            ==> s.collector.server_list_refresh_seconds == 300,
        set_to_number(env, "COLLECTOR_SERVER_LIST_RETRY_SECONDS"@, n)
            ==> s.collector.server_list_retry_seconds == n,
        unset(env, "COLLECTOR_SERVER_LIST_RETRY_SECONDS"@)
            && set_to_number(env, "SERVER_LIST_RETRY_SECONDS"@, n)
            ==> s.collector.server_list_retry_seconds == n,
        unset(env, "COLLECTOR_SERVER_LIST_RETRY_SECONDS"@)
            && unset(env, "SERVER_LIST_RETRY_SECONDS"@)
            ==> s.collector.server_list_retry_seconds == 30,
        set_to_number(env, "COLLECTOR_BEDROCK_PROBE_INTERVAL_SECONDS"@, n)
            ==> s.collector.bedrock_probe_interval_seconds == n,
        unset(env, "COLLECTOR_BEDROCK_PROBE_INTERVAL_SECONDS"@)
            && set_to_number(env, "BEDROCK_PROBE_INTERVAL_SECONDS"@, n)
            ==> s.collector.bedrock_probe_interval_seconds == n,
        unset(env, "COLLECTOR_BEDROCK_PROBE_INTERVAL_SECONDS"@)
            && unset(env, "BEDROCK_PROBE_INTERVAL_SECONDS"@)
            ==> s.collector.bedrock_probe_interval_seconds == 3600,
        set_to_number(env, "COLLECTOR_BEDROCK_PROBE_JITTER_SECONDS"@, n)
            ==> s.collector.bedrock_probe_jitter_seconds == n,
        unset(env, "COLLECTOR_BEDROCK_PROBE_JITTER_SECONDS"@)
            && set_to_number(env, "BEDROCK_PROBE_JITTER_SECONDS"@, n)
            ==> s.collector.bedrock_probe_jitter_seconds == n,
        unset(env, "COLLECTOR_BEDROCK_PROBE_JITTER_SECONDS"@)
            && unset(env, "BEDROCK_PROBE_JITTER_SECONDS"@)
            ==> s.collector.bedrock_probe_jitter_seconds == 600,
        set_to_number(env, "COLLECTOR_DISCOVERY_PROBE_RESULT_TTL_SECONDS"@, n)
            ==> s.collector.discovery_probe_result_ttl_seconds == n,
        unset(env, "COLLECTOR_DISCOVERY_PROBE_RESULT_TTL_SECONDS"@)
            && set_to_number(env, "DISCOVERY_PROBE_RESULT_TTL_SECONDS"@, n)
            ==> s.collector.discovery_probe_result_ttl_seconds == n,
        unset(env, "COLLECTOR_DISCOVERY_PROBE_RESULT_TTL_SECONDS"@)
            && unset(env, "DISCOVERY_PROBE_RESULT_TTL_SECONDS"@)
            ==> s.collector.discovery_probe_result_ttl_seconds == 60,
        set_to_number(env, "COLLECTOR_INITIAL_FAILURE_MAX_INTERVAL_SECONDS"@, n)
            ==> s.collector.initial_failure_max_interval_seconds == n,
        unset(env, "COLLECTOR_INITIAL_FAILURE_MAX_INTERVAL_SECONDS"@)
            && set_to_number(env, "INITIAL_FAILURE_MAX_INTERVAL_SECONDS"@, n)
            ==> s.collector.initial_failure_max_interval_seconds == n,
        unset(env, "COLLECTOR_INITIAL_FAILURE_MAX_INTERVAL_SECONDS"@)
            && unset(env, "INITIAL_FAILURE_MAX_INTERVAL_SECONDS"@)
            ==> s.collector.initial_failure_max_interval_seconds == 3600,
        set_to_number(env, "COLLECTOR_PAGE_SIZE"@, n) && n <= 100 ==> s.collector.page_size == n,
        set_to_number(env, "COLLECTOR_PAGE_SIZE"@, n) && n > 100 ==> s.collector.page_size == 100,
        unset(env, "COLLECTOR_PAGE_SIZE"@) && set_to_number(env, "PAGE_SIZE"@, n) && n <= 100
            ==> s.collector.page_size == n,
        unset(env, "COLLECTOR_PAGE_SIZE"@) && unset(env, "PAGE_SIZE"@) ==> s.collector.page_size
            == 100,
        set_to_number(env, "COLLECTOR_INITIAL_FAILURES_BEFORE_SLOWDOWN"@, n) && n <= u32::MAX
            ==> s.collector.initial_failures_before_slowdown == n,
        unset(env, "COLLECTOR_INITIAL_FAILURES_BEFORE_SLOWDOWN"@) && set_to_number(
            env,
            "INITIAL_FAILURES_BEFORE_SLOWDOWN"@,
            n,
        ) && n <= u32::MAX ==> s.collector.initial_failures_before_slowdown == n,
        unset(env, "COLLECTOR_INITIAL_FAILURES_BEFORE_SLOWDOWN"@) && unset(
            env,
            "INITIAL_FAILURES_BEFORE_SLOWDOWN"@,
        ) ==> s.collector.initial_failures_before_slowdown == 5,
        set_to_number(env, "COLLECTOR_PLUGIN_COMPARE_INTERVAL_SECONDS"@, n) && n >= 60
            ==> s.collector.plugin_compare_interval_seconds == n,
        unset(env, "COLLECTOR_PLUGIN_COMPARE_INTERVAL_SECONDS"@) && set_to_number(
            env,
            "PLUGIN_COMPARE_INTERVAL_SECONDS"@,
            n,
        ) && n >= 60 ==> s.collector.plugin_compare_interval_seconds == n,
        unset(env, "COLLECTOR_PLUGIN_COMPARE_INTERVAL_SECONDS"@) && unset(
            env,
            "PLUGIN_COMPARE_INTERVAL_SECONDS"@,
        ) ==> s.collector.plugin_compare_interval_seconds == 1800,
{
    law_numeral_round_trip(n, u64::MAX as int);
}

/// A size of the collector is that of its own variable, or else of the general
/// one, or else the default.
pub proof fn law_sizes_come_from_their_variables(env: Env, s: Settings, n: int)
    requires
        loaded(env, s),
        0 <= n <= usize::MAX,
    ensures
        set_to_number(env, "COLLECTOR_MAX_CONCURRENCY"@, n) ==> s.collector.max_concurrency == n,
        unset(env, "COLLECTOR_MAX_CONCURRENCY"@) && set_to_number(env, "MAX_CONCURRENCY"@, n)
            ==> s.collector.max_concurrency == n,
        unset(env, "COLLECTOR_MAX_CONCURRENCY"@) && unset(env, "MAX_CONCURRENCY"@)
            ==> s.collector.max_concurrency == 25,
        set_to_number(env, "COLLECTOR_INGEST_BATCH_SIZE"@, n)
            ==> s.collector.ingest_batch_size == n,
        unset(env, "COLLECTOR_INGEST_BATCH_SIZE"@) && set_to_number(env, "INGEST_BATCH_SIZE"@, n)
            ==> s.collector.ingest_batch_size == n,
        unset(env, "COLLECTOR_INGEST_BATCH_SIZE"@) && unset(env, "INGEST_BATCH_SIZE"@)
            ==> s.collector.ingest_batch_size == 200,
        set_to_number(env, "COLLECTOR_RESULT_QUEUE_MAXSIZE"@, n)
            ==> s.collector.result_queue_maxsize == n,
        unset(env, "COLLECTOR_RESULT_QUEUE_MAXSIZE"@)
            && set_to_number(env, "RESULT_QUEUE_MAXSIZE"@, n)
            ==> s.collector.result_queue_maxsize == n,
        unset(env, "COLLECTOR_RESULT_QUEUE_MAXSIZE"@) && unset(env, "RESULT_QUEUE_MAXSIZE"@)
            ==> s.collector.result_queue_maxsize == 5000,
{
    law_numeral_round_trip(n, usize::MAX as int);
}

/// A fraction of the collector is that of its own variable, or else of the general
/// one, or else the default.
pub proof fn law_fractions_come_from_their_variables(env: Env, s: Settings, n: i64)
    requires
        loaded(env, s),
    ensures
        set_to_fraction(env, "COLLECTOR_STATUS_TIMEOUT_SECONDS"@, n)
            ==> s.collector.status_timeout == n,
        unset(env, "COLLECTOR_STATUS_TIMEOUT_SECONDS"@)
            && set_to_fraction(env, "STATUS_TIMEOUT_SECONDS"@, n)
            ==> s.collector.status_timeout == n,
        unset(env, "COLLECTOR_STATUS_TIMEOUT_SECONDS"@) && unset(env, "STATUS_TIMEOUT_SECONDS"@)
            ==> s.collector.status_timeout == 8_000_000_000,
        set_to_fraction(env, "COLLECTOR_LOOKUP_TIMEOUT_SECONDS"@, n)
            ==> s.collector.lookup_timeout == n,
        unset(env, "COLLECTOR_LOOKUP_TIMEOUT_SECONDS"@)
            && set_to_fraction(env, "LOOKUP_TIMEOUT_SECONDS"@, n)
            ==> s.collector.lookup_timeout == n,
        unset(env, "COLLECTOR_LOOKUP_TIMEOUT_SECONDS"@) && unset(env, "LOOKUP_TIMEOUT_SECONDS"@)
            ==> s.collector.lookup_timeout == 5_000_000_000,
        set_to_fraction(env, "COLLECTOR_INGEST_FLUSH_SECONDS"@, n)
            ==> s.collector.ingest_flush == n,
        unset(env, "COLLECTOR_INGEST_FLUSH_SECONDS"@)
            && set_to_fraction(env, "INGEST_FLUSH_SECONDS"@, n)
            ==> s.collector.ingest_flush == n,
        unset(env, "COLLECTOR_INGEST_FLUSH_SECONDS"@) && unset(env, "INGEST_FLUSH_SECONDS"@)
            ==> s.collector.ingest_flush == 5_000_000_000,
        set_to_fraction(env, "COLLECTOR_HTTP_TIMEOUT_SECONDS"@, n)
            ==> s.collector.http_timeout == n,
        unset(env, "COLLECTOR_HTTP_TIMEOUT_SECONDS"@)
            && set_to_fraction(env, "HTTP_TIMEOUT_SECONDS"@, n)
            ==> s.collector.http_timeout == n,
        unset(env, "COLLECTOR_HTTP_TIMEOUT_SECONDS"@) && unset(env, "HTTP_TIMEOUT_SECONDS"@)
            ==> s.collector.http_timeout == 15_000_000_000,
        set_to_fraction(env, "COLLECTOR_TRIGGER_POLL_SECONDS"@, n)
            ==> s.collector.trigger_poll == n,
        unset(env, "COLLECTOR_TRIGGER_POLL_SECONDS"@)
            && set_to_fraction(env, "TRIGGER_POLL_SECONDS"@, n)
            ==> s.collector.trigger_poll == n,
        unset(env, "COLLECTOR_TRIGGER_POLL_SECONDS"@) && unset(env, "TRIGGER_POLL_SECONDS"@)
            ==> s.collector.trigger_poll == 2_000_000_000,
        set_to_fraction(env, "COLLECTOR_FORCE_PING_POP_TIMEOUT_SECONDS"@, n)
            ==> s.collector.force_ping_pop_timeout == n,
        unset(env, "COLLECTOR_FORCE_PING_POP_TIMEOUT_SECONDS"@)
            && set_to_fraction(env, "FORCE_PING_POP_TIMEOUT_SECONDS"@, n)
            ==> s.collector.force_ping_pop_timeout == n,
        unset(env, "COLLECTOR_FORCE_PING_POP_TIMEOUT_SECONDS"@)
            && unset(env, "FORCE_PING_POP_TIMEOUT_SECONDS"@)
            ==> s.collector.force_ping_pop_timeout == 1_000_000_000,
        set_to_fraction(env, "COLLECTOR_INITIAL_FAILURE_SLOWDOWN_MULTIPLIER"@, n)
            ==> s.collector.initial_failure_slowdown_multiplier == n,
        unset(env, "COLLECTOR_INITIAL_FAILURE_SLOWDOWN_MULTIPLIER"@)
            && set_to_fraction(env, "INITIAL_FAILURE_SLOWDOWN_MULTIPLIER"@, n)
            ==> s.collector.initial_failure_slowdown_multiplier == n,
        unset(env, "COLLECTOR_INITIAL_FAILURE_SLOWDOWN_MULTIPLIER"@)
            && unset(env, "INITIAL_FAILURE_SLOWDOWN_MULTIPLIER"@)
            ==> s.collector.initial_failure_slowdown_multiplier == 6_000_000_000,
        set_to_fraction(env, "PROMETHEUS_UPDATE_SECONDS"@, n) ==> s.prometheus.update_interval == n,
        unset(env, "PROMETHEUS_UPDATE_SECONDS"@) && set_to_fraction(
            env,
            "METRICS_UPDATE_SECONDS"@,
            n,
        ) ==> s.prometheus.update_interval == n,
        unset(env, "PROMETHEUS_UPDATE_SECONDS"@) && unset(env, "METRICS_UPDATE_SECONDS"@)
            ==> s.prometheus.update_interval == 5_000_000_000,
{
}

/// A text of the collector is that of its own variable, or else of the general
/// one, or else the default.
pub proof fn law_texts_come_from_their_variables(env: Env, s: Settings, text: Seq<char>)
    requires
        loaded(env, s),
    ensures
        set_to_text(env, "COLLECTOR_TRIGGER_FILE_PATH"@, text)
            ==> s.collector.trigger_file_path@ == text,
        unset(env, "COLLECTOR_TRIGGER_FILE_PATH"@) && set_to_text(env, "TRIGGER_FILE_PATH"@, text)
            ==> s.collector.trigger_file_path@ == text,
        unset(env, "COLLECTOR_TRIGGER_FILE_PATH"@) && unset(env, "TRIGGER_FILE_PATH"@)
            ==> s.collector.trigger_file_path@ == "/tmp/unverified-collector-trigger"@,
        set_to_text(env, "COLLECTOR_FORCE_PING_QUEUE_KEY"@, text)
            ==> s.collector.force_ping_queue_key@ == text,
        unset(env, "COLLECTOR_FORCE_PING_QUEUE_KEY"@)
            && set_to_text(env, "FORCE_PING_QUEUE_KEY"@, text)
            ==> s.collector.force_ping_queue_key@ == text,
        unset(env, "COLLECTOR_FORCE_PING_QUEUE_KEY"@) && unset(env, "FORCE_PING_QUEUE_KEY"@)
            ==> s.collector.force_ping_queue_key@ == "leavepulse:unverified:force-ping"@,
        set_to_text(env, "COLLECTOR_DISCOVERY_PROBE_QUEUE_KEY"@, text)
            ==> s.collector.discovery_probe_queue_key@ == text,
        unset(env, "COLLECTOR_DISCOVERY_PROBE_QUEUE_KEY"@)
            && set_to_text(env, "DISCOVERY_PROBE_QUEUE_KEY"@, text)
            ==> s.collector.discovery_probe_queue_key@ == text,
        unset(env, "COLLECTOR_DISCOVERY_PROBE_QUEUE_KEY"@)
            && unset(env, "DISCOVERY_PROBE_QUEUE_KEY"@)
            ==> s.collector.discovery_probe_queue_key@ == "leavepulse:discovery:probe-request"@,
        set_to_text(env, "COLLECTOR_DISCOVERY_PROBE_RESULT_KEY_PREFIX"@, text)
            ==> s.collector.discovery_probe_result_key_prefix@ == text,
        unset(env, "COLLECTOR_DISCOVERY_PROBE_RESULT_KEY_PREFIX"@)
            && set_to_text(env, "DISCOVERY_PROBE_RESULT_KEY_PREFIX"@, text)
            ==> s.collector.discovery_probe_result_key_prefix@ == text,
        unset(env, "COLLECTOR_DISCOVERY_PROBE_RESULT_KEY_PREFIX"@)
            && unset(env, "DISCOVERY_PROBE_RESULT_KEY_PREFIX"@)
            ==> s.collector.discovery_probe_result_key_prefix@
            == "leavepulse:discovery:probe-result:"@,
        set_to_text(env, "SERVICE_NAME"@, text) ==> s.service_name@ == text,
        unset(env, "SERVICE_NAME"@) ==> s.service_name@ == "unverified-collector"@,
        set_to_text(env, "LOG_LEVEL"@, text) ==> s.log_level@ == text,
        unset(env, "LOG_LEVEL"@) ==> s.log_level@ == "info"@,
        set_to_text(env, "MONITORING_API"@, text) ==> s.monitoring.api@ == text,
        unset(env, "MONITORING_API"@) ==> s.monitoring.api@ == "http://monitoring-service:8200"@,
        set_to_text(env, "REDIS_URL"@, text) ==> s.redis.url@ == text,
        unset(env, "REDIS_URL"@) ==> s.redis.url@ == "redis://127.0.0.1:6379"@,
        set_to_text(env, "PROMETHEUS_HOST"@, text) ==> s.prometheus.host@ == text,
        unset(env, "PROMETHEUS_HOST"@) && set_to_text(env, "METRICS_HOST"@, text)
            ==> s.prometheus.host@ == text,
        unset(env, "PROMETHEUS_HOST"@) && unset(env, "METRICS_HOST"@) ==> s.prometheus.host@
            == "0.0.0.0"@,
{
}

/// The services are reached where their variables say, those of the old name
/// standing in, with the token that is theirs; an empty variable counts as none.
pub proof fn law_services_come_from_their_variables(env: Env, s: Settings, text: Seq<char>)
    requires
        loaded(env, s),
        text.len() > 0,
    ensures
        set_to_text(env, "SERVER_API"@, text) ==> s.server.api@ == text,
        unset(env, "SERVER_API"@) && set_to_text(env, "CORE_API"@, text) ==> s.server.api@ == text,
        set_to_text(env, "SERVER_API"@, Seq::empty()) && set_to_text(env, "CORE_API"@, text)
            ==> s.server.api@ == text,
        unset(env, "SERVER_API"@) && unset(env, "CORE_API"@) ==> s.server.api@
            == "http://server-service:8201"@,
        set_to_text(env, "SERVER_API_TOKEN"@, text) ==> opt_text(s.server.api_token) == Some(text),
        unset(env, "SERVER_API_TOKEN"@) && set_to_text(env, "CORE_API_TOKEN"@, text) ==> opt_text(
            s.server.api_token,
        ) == Some(text),
        unset(env, "SERVER_API_TOKEN"@) && unset(env, "CORE_API_TOKEN"@) ==> s.server.api_token
            is None,
        set_to_text(env, "MONITORING_API_TOKEN"@, text) ==> opt_text(s.monitoring.api_token)
            == Some(text),
        unset(env, "MONITORING_API_TOKEN"@) ==> s.monitoring.api_token is None,
        set_to_text(env, "MONITORING_API_TOKEN"@, Seq::empty()) ==> s.monitoring.api_token is None,
{
}

/// What is switched on or off follows its variable: on for the words for yes, in
/// any case, and off for any other.
pub proof fn law_switches_come_from_their_variables(env: Env, s: Settings, text: Seq<char>)
    requires
        loaded(env, s),
    ensures
        ({
            let low = lowered(text);
            let yes = low == "true"@ || low == "1"@ || low == "yes"@ || low == "on"@;
            &&& set_to_text(env, "REDIS_ENABLED"@, text) ==> s.redis.enabled == yes
            &&& unset(env, "REDIS_ENABLED"@) ==> !s.redis.enabled
            &&& set_to_text(env, "PROMETHEUS_ENABLED"@, text) ==> s.prometheus.enabled == yes
            &&& unset(env, "PROMETHEUS_ENABLED"@) && set_to_text(env, "METRICS_ENABLED"@, text)
                ==> s.prometheus.enabled == yes
            &&& unset(env, "PROMETHEUS_ENABLED"@) && unset(env, "METRICS_ENABLED"@)
                ==> s.prometheus.enabled
        }),
{
}

/// The port of the exporter and the times and sizes of the geo caches are those of
/// their variables, no less than the least, or else the defaults.
pub proof fn law_geo_and_port_come_from_their_variables(env: Env, s: Settings, n: int)
    requires
        loaded(env, s),
        0 <= n <= u16::MAX,
    ensures
        set_to_number(env, "PROMETHEUS_PORT"@, n) ==> s.prometheus.port == n,
        unset(env, "PROMETHEUS_PORT"@) && set_to_number(env, "METRICS_PORT"@, n)
            ==> s.prometheus.port == n,
        unset(env, "PROMETHEUS_PORT"@) && unset(env, "METRICS_PORT"@) ==> s.prometheus.port == 9100,
        set_to_number(env, "GEO_TTL_SECONDS"@, n) ==> s.geo.ttl_seconds == n,
        unset(env, "GEO_TTL_SECONDS"@) ==> s.geo.ttl_seconds == 3600,
        set_to_number(env, "GEO_REFRESH_JITTER_SECONDS"@, n) ==> s.geo.refresh_jitter_seconds == n,
        unset(env, "GEO_REFRESH_JITTER_SECONDS"@) ==> s.geo.refresh_jitter_seconds == 300,
        set_to_number(env, "GEO_RETRY_SECONDS"@, n) ==> s.geo.retry_seconds == n,
        unset(env, "GEO_RETRY_SECONDS"@) ==> s.geo.retry_seconds == 300,
        set_to_number(env, "GEO_DNS_TTL_SECONDS"@, n) && n >= 60 ==> s.geo.dns_ttl_seconds == n,
        set_to_number(env, "GEO_DNS_TTL_SECONDS"@, n) && n < 60 ==> s.geo.dns_ttl_seconds == 60,
        unset(env, "GEO_DNS_TTL_SECONDS"@) ==> s.geo.dns_ttl_seconds == 600,
        set_to_number(env, "GEO_DNS_RETRY_SECONDS"@, n) && n >= 10 ==> s.geo.dns_retry_seconds == n,
        set_to_number(env, "GEO_DNS_RETRY_SECONDS"@, n) && n < 10 ==> s.geo.dns_retry_seconds == 10,
        unset(env, "GEO_DNS_RETRY_SECONDS"@) ==> s.geo.dns_retry_seconds == 120,
        set_to_number(env, "GEO_DNS_CACHE_MAX_ENTRIES"@, n) && n >= 100
            ==> s.geo.dns_cache_max_entries == n,
        set_to_number(env, "GEO_DNS_CACHE_MAX_ENTRIES"@, n) && n < 100
            ==> s.geo.dns_cache_max_entries == 100,
        unset(env, "GEO_DNS_CACHE_MAX_ENTRIES"@) ==> s.geo.dns_cache_max_entries == 10_000,
        set_to_number(env, "GEO_DNS_MAX_CONCURRENCY"@, n) && n >= 1
            ==> s.geo.dns_max_concurrency == n,
        set_to_number(env, "GEO_DNS_MAX_CONCURRENCY"@, n) && n < 1
            ==> s.geo.dns_max_concurrency == 1,
        unset(env, "GEO_DNS_MAX_CONCURRENCY"@) ==> s.geo.dns_max_concurrency == 32,
{
    law_numeral_round_trip(n, u16::MAX as int);
    law_numeral_round_trip(n, u64::MAX as int);
    law_numeral_round_trip(n, usize::MAX as int);
}

/// The interval between polls is the greatest that its variables give, the same
/// holds of servers that are down and of the first polls, and where none gives one
/// it is five minutes, twice the interval, and the interval.
pub proof fn law_intervals_come_from_their_variables(env: Env, s: Settings, n: int)
    requires
        loaded(env, s),
        0 < n <= u64::MAX,
    ensures
        ({
            let online = s.collector.online_interval_seconds;
            let offline = s.collector.offline_interval_seconds;
            let spread = s.collector.startup_spread_seconds;
            &&& set_to_number(env, "COLLECTOR_ONLINE_INTERVAL_SECONDS"@, n) ==> online >= n
            &&& set_to_number(env, "ONLINE_INTERVAL_SECONDS"@, n) ==> online >= n
            &&& set_to_number(env, "INTERVAL_SECONDS"@, n) ==> online >= n
            &&& set_to_number(env, "COLLECTOR_ONLINE_INTERVAL_SECONDS"@, n) && unset(
                env,
                "ONLINE_INTERVAL_SECONDS"@,
            ) && unset(env, "INTERVAL_SECONDS"@) ==> online == n
            &&& unset(env, "COLLECTOR_ONLINE_INTERVAL_SECONDS"@) && set_to_number(
                env,
                "ONLINE_INTERVAL_SECONDS"@,
                n,
            ) && unset(env, "INTERVAL_SECONDS"@) ==> online == n
            &&& unset(env, "COLLECTOR_ONLINE_INTERVAL_SECONDS"@) && unset(
                env,
                "ONLINE_INTERVAL_SECONDS"@,
            ) && set_to_number(env, "INTERVAL_SECONDS"@, n) ==> online == n
            &&& unset(env, "COLLECTOR_ONLINE_INTERVAL_SECONDS"@) && unset(
                env,
                "ONLINE_INTERVAL_SECONDS"@,
            ) && unset(env, "INTERVAL_SECONDS"@) ==> online == 300
            &&& set_to_number(env, "COLLECTOR_OFFLINE_INTERVAL_SECONDS"@, n) ==> offline >= n
            &&& set_to_number(env, "OFFLINE_INTERVAL_SECONDS"@, n) ==> offline >= n
            &&& set_to_number(env, "COLLECTOR_OFFLINE_INTERVAL_SECONDS"@, n) && unset(
                env,
                "OFFLINE_INTERVAL_SECONDS"@,
            ) ==> offline == n
            &&& unset(env, "COLLECTOR_OFFLINE_INTERVAL_SECONDS"@) && set_to_number(
                env,
                "OFFLINE_INTERVAL_SECONDS"@,
                n,
            ) ==> offline == n
            &&& unset(env, "COLLECTOR_OFFLINE_INTERVAL_SECONDS"@) && unset(
                env,
                "OFFLINE_INTERVAL_SECONDS"@,
            ) ==> offline == online * 2
            &&& set_to_number(env, "COLLECTOR_STARTUP_SPREAD_SECONDS"@, n) ==> spread >= n
            &&& set_to_number(env, "STARTUP_SPREAD_SECONDS"@, n) ==> spread >= n
            &&& set_to_number(env, "COLLECTOR_STARTUP_SPREAD_SECONDS"@, n) && unset(
                env,
                "STARTUP_SPREAD_SECONDS"@,
            ) ==> spread == n
            &&& unset(env, "COLLECTOR_STARTUP_SPREAD_SECONDS"@) && set_to_number(
                env,
                "STARTUP_SPREAD_SECONDS"@,
                n,
            ) ==> spread == n
            &&& unset(env, "COLLECTOR_STARTUP_SPREAD_SECONDS"@) && unset(
                env,
                "STARTUP_SPREAD_SECONDS"@,
            ) ==> spread == online
        }),
{
    law_numeral_round_trip(n, u64::MAX as int);
}

/// A variable that is not a numeral counts as one that is not set.
pub proof fn law_other_texts_are_no_numbers(
    env: Env,
    key: Seq<char>,
    limit: int,
    default: int,
    at: int,
)
    requires
        env.dom().contains(key),
        0 <= at < env[key].text@.len(),
        !is_digit(env[key].text@[at]),
        env[key].text@[0] != '+',
    ensures
        number_or(env, key, limit, default) == default,
        number_or(env.remove(key), key, limit, default) == default,
{
}

} // verus!
