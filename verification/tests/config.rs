use server_poller::config::{env_file, intervals_fit, says_yes, EnvValue, Settings};
use server_poller::table::Table;

fn env(vars: &[(&str, &str)]) -> Table<EnvValue> {
    let mut table = Table::new();
    for (name, text) in vars {
        let billionths = text.parse::<f64>().ok().map(|x| (x * 1e9).round() as i64);
        table.insert(name.to_string(), EnvValue { text: text.to_string(), billionths });
    }
    table
}

#[test]
fn defaults() {
    let s = Settings::load(&env(&[]));
    assert_eq!(s.service_name, "unverified-collector");
    assert_eq!(s.log_level, "info");
    assert_eq!(s.server.api, "http://server-service:8201");
    assert_eq!(s.server.api_token, None);
    assert_eq!(s.monitoring.api, "http://monitoring-service:8200");
    let c = &s.collector;
    assert_eq!((c.online_interval_seconds, c.offline_interval_seconds), (300, 600));
    assert_eq!(c.startup_spread_seconds, 300);
    assert_eq!((c.server_list_refresh_seconds, c.server_list_retry_seconds), (300, 30));
    assert_eq!((c.page_size, c.max_concurrency), (100, 25));
    assert_eq!((c.status_timeout, c.lookup_timeout), (8_000_000_000, 5_000_000_000));
    assert_eq!((c.ingest_batch_size, c.ingest_flush), (200, 5_000_000_000));
    assert_eq!((c.result_queue_maxsize, c.http_timeout), (5000, 15_000_000_000));
    assert_eq!((c.bedrock_probe_interval_seconds, c.bedrock_probe_jitter_seconds), (3600, 600));
    assert_eq!(c.trigger_file_path, "/tmp/unverified-collector-trigger");
    assert_eq!(c.trigger_poll, 2_000_000_000);
    assert_eq!(c.force_ping_queue_key, "leavepulse:unverified:force-ping");
    assert_eq!(c.force_ping_pop_timeout, 1_000_000_000);
    assert_eq!(c.discovery_probe_queue_key, "leavepulse:discovery:probe-request");
    assert_eq!(c.discovery_probe_result_key_prefix, "leavepulse:discovery:probe-result:");
    assert_eq!(c.discovery_probe_result_ttl_seconds, 60);
    assert_eq!(c.initial_failures_before_slowdown, 5);
    assert_eq!(c.initial_failure_slowdown_multiplier, 6_000_000_000);
    assert_eq!(c.initial_failure_max_interval_seconds, 3600);
    assert_eq!(c.plugin_compare_interval_seconds, 1800);
    assert_eq!((s.geo.ttl_seconds, s.geo.refresh_jitter_seconds, s.geo.retry_seconds), (3600, 300, 300));
    assert_eq!((s.geo.dns_ttl_seconds, s.geo.dns_retry_seconds), (600, 120));
    assert_eq!((s.geo.dns_cache_max_entries, s.geo.dns_max_concurrency), (10_000, 32));
    assert!(s.prometheus.enabled);
    assert_eq!((s.prometheus.host.as_str(), s.prometheus.port), ("0.0.0.0", 9100));
    assert_eq!(s.prometheus.update_interval, 5_000_000_000);
    assert!(!s.redis.enabled);
    assert_eq!(s.redis.url, "redis://127.0.0.1:6379");
}

#[test]
fn given_values() {
    let s = Settings::load(&env(&[
        ("INTERVAL_SECONDS", "10"),
        ("ONLINE_INTERVAL_SECONDS", "40"),
        ("OFFLINE_INTERVAL_SECONDS", "7"),
        ("STARTUP_SPREAD_SECONDS", "9"),
        ("PAGE_SIZE", "500"),
        ("COLLECTOR_MAX_CONCURRENCY", "3"),
        ("MAX_CONCURRENCY", "4"),
        ("COLLECTOR_STATUS_TIMEOUT_SECONDS", "1.5"),
        ("INITIAL_FAILURES_BEFORE_SLOWDOWN", "4294967298"),
        ("PLUGIN_COMPARE_INTERVAL_SECONDS", "1"),
        ("GEO_DNS_TTL_SECONDS", "1"),
        ("GEO_DNS_RETRY_SECONDS", "1"),
        ("GEO_DNS_CACHE_MAX_ENTRIES", "1"),
        ("GEO_DNS_MAX_CONCURRENCY", "0"),
        ("SERVER_API", ""),
        ("CORE_API", "http://core"),
        ("CORE_API_TOKEN", "token"),
        ("METRICS_ENABLED", "off"),
        ("REDIS_ENABLED", "YES"),
        ("PROMETHEUS_PORT", "70000"),
    ]));
    let c = &s.collector;
    assert_eq!((c.online_interval_seconds, c.offline_interval_seconds), (40, 7));
    assert_eq!(c.startup_spread_seconds, 9);
    assert_eq!((c.page_size, c.max_concurrency), (100, 3));
    assert_eq!(c.status_timeout, 1_500_000_000);
    assert_eq!(c.initial_failures_before_slowdown, 2);
    assert_eq!(c.plugin_compare_interval_seconds, 60);
    assert_eq!((s.geo.dns_ttl_seconds, s.geo.dns_retry_seconds), (60, 10));
    assert_eq!((s.geo.dns_cache_max_entries, s.geo.dns_max_concurrency), (100, 1));
    assert_eq!(s.server.api, "http://core");
    assert_eq!(s.server.api_token.as_deref(), Some("token"));
    assert!(!s.prometheus.enabled);
    assert!(s.redis.enabled);
    assert_eq!(s.prometheus.port, 9100);
}

#[test]
fn intervals_that_cannot_be_doubled() {
    let huge = u64::MAX.to_string();
    assert!(!intervals_fit(&env(&[("INTERVAL_SECONDS", &huge)])));
    assert!(intervals_fit(&env(&[("INTERVAL_SECONDS", &huge), ("OFFLINE_INTERVAL_SECONDS", "1")])));
    assert!(intervals_fit(&env(&[])));
}

#[test]
fn words_for_yes() {
    for word in ["true", "1", "yes", "on"] {
        assert!(says_yes(word));
    }
    for word in ["TRUE", "", "y", "0", "off"] {
        assert!(!says_yes(word));
    }
}

#[test]
fn the_file_of_variables() {
    assert_eq!(env_file(&env(&[])), ".env");
    assert_eq!(env_file(&env(&[("ENV_FILE", "x.env")])), "x.env");
}
