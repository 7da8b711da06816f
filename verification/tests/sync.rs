use server_poller::collector::is_wanted;
use server_poller::json::{json_text, parse_json, Json, JsonObject};
use server_poller::models::{build_state_with, Edition, ServerState};
use server_poller::ping::poll_result;
use server_poller::scheduler::{NextDue, SchedulerHandle};
use server_poller::sync::{
    apply_trigger, check_probe_request, force_ping, force_ping_fetched, force_ping_fetched_with,
    parse_trigger_content, pop_timeout_seconds, probe_response, probe_result_key,
    probe_result_ttl, refresh_delay, refresh_servers_once, refresh_with, server_url,
    trigger_interval, trigger_targets_of, Candidate, CatalogEntry, CatalogFetch,
    DiscoveryProbeRequest, ForcePing, Jitter, RefreshCounts, ServerListResponse,
};
use server_poller::table::Table;

fn server(id: &str, address: &str) -> Json {
    Json::Object(
        JsonObject::new()
            .with("id", Json::text(id))
            .with("ip_or_domain", Json::text(address)),
    )
}

fn entry(id: &str, address: &str) -> CatalogEntry {
    CatalogEntry { server: server(id, address), fallback_mode: false }
}

fn states(ids: &[&str]) -> Table<ServerState> {
    let mut table = Table::new();
    for id in ids {
        let state = build_state_with(server(id, "example.com"), 100, 60, 3600, 7, 8);
        table.insert(id.to_string(), state);
    }
    table
}

fn drain(scheduler: &mut SchedulerHandle) -> Vec<(String, u128)> {
    let mut out = Vec::new();
    while let NextDue::Ready(e) = scheduler.next_due(u64::MAX) {
        out.push((e.key, e.due));
    }
    out
}

fn jitters(n: usize) -> Vec<Jitter> {
    (0..n).map(|i| Jitter { due: i as u128 + 1, probe: 10 }).collect()
}

#[test]
fn test_empty_content() {
    assert_eq!(parse_trigger_content(""), Some(vec![]));
    assert_eq!(parse_trigger_content("  "), Some(vec![]));
}

#[test]
fn test_all_keyword() {
    assert_eq!(parse_trigger_content("all"), None);
    assert_eq!(parse_trigger_content("ALL"), None);
    assert_eq!(parse_trigger_content("*"), None);
}

#[test]
fn test_comma_separated() {
    let result = parse_trigger_content("1,2,3").unwrap();
    assert_eq!(result, vec!["1", "2", "3"]);
}

#[test]
fn test_space_separated() {
    let result = parse_trigger_content("10 20 30").unwrap();
    assert_eq!(result, vec!["10", "20", "30"]);
}

#[test]
fn test_json_object_with_server_ids() {
    let result = parse_trigger_content(r#"{"server_ids": ["1", "2"]}"#).unwrap();
    assert_eq!(result, vec!["1", "2"]);
}

#[test]
fn test_json_object_with_all() {
    assert_eq!(parse_trigger_content(r#"{"all": true}"#), None);
}

#[test]
fn test_json_array() {
    let result = parse_trigger_content(r#"["5", "10"]"#).unwrap();
    assert_eq!(result, vec!["5", "10"]);
}

#[test]
fn test_json_numeric_ids() {
    let result = parse_trigger_content(r#"{"ids": [1, 2, 3]}"#).unwrap();
    assert_eq!(result, vec!["1", "2", "3"]);
}

#[test]
fn trigger_edge_cases() {
    let ids = |text: &str| parse_trigger_content(text).unwrap();
    assert_eq!(ids(r#"{"all": false, "ids": [" a ", "", null, 1.5, -2]}"#), vec!["a", "1.5", "-2"]);
    assert_eq!(ids(r#"{"all": "yes"}"#), Vec::<String>::new());
    assert_eq!(ids(r#"{"server_ids": 3, "ids": ["1"]}"#), Vec::<String>::new());
    assert_eq!(ids("{broken, json"), vec!["{broken", "json"]);
    assert_eq!(ids("\"all\""), vec!["\"all\""]);
    assert_eq!(ids(" a ,, b\tc\n"), vec!["a", "b", "c"]);
    assert_eq!(parse_trigger_content("\n All \n"), None);
}

#[test]
fn trigger_targets_from_its_readings() {
    let value = parse_json("[\"1\"]");
    assert_eq!(trigger_targets_of("[x", "[x", &value), Some(vec!["1".to_string()]));
    assert_eq!(trigger_targets_of("x", "x", &value), Some(vec!["x".to_string()]));
    assert_eq!(trigger_targets_of("x", "*", &value), None);
    assert_eq!(trigger_targets_of("", "*", &None), Some(vec![]));
}

#[test]
fn a_trigger_makes_the_named_servers_due() {
    let mut table = states(&["a", "b", "c"]);
    let mut scheduler = SchedulerHandle::new();
    let ids = Some(vec!["c".to_string(), "x".to_string(), "a".to_string()]);
    assert_eq!(apply_trigger(&mut table, &mut scheduler, &ids, 500), 2);
    assert_eq!(table.get("a").unwrap().next_due, 500);
    assert_eq!(table.get("b").unwrap().next_due, 107);
    assert_eq!(table.get("c").unwrap().next_due, 500);
    assert_eq!(drain(&mut scheduler), vec![("c".to_string(), 500), ("a".to_string(), 500)]);
}

#[test]
fn a_trigger_for_all_makes_every_server_due() {
    let mut table = states(&["a", "b"]);
    let mut scheduler = SchedulerHandle::new();
    assert_eq!(apply_trigger(&mut table, &mut scheduler, &None, 500), 2);
    assert_eq!(drain(&mut scheduler), vec![("a".to_string(), 500), ("b".to_string(), 500)]);
    assert_eq!(table.len(), 2);
}

#[test]
fn a_refresh_adds_updates_and_removes() {
    let mut table = states(&["a", "b", "c"]);
    table.get_mut("a").unwrap().has_emitted_state = true;
    table.get_mut("b").unwrap().has_emitted_state = true;
    table.get_mut("b").unwrap().initial_failures = 4;
    let mut scheduler = SchedulerHandle::new();
    let entries = vec![
        entry("a", "example.com"),
        entry("b", "example.org:1"),
        entry("", "example.com"),
        entry("d", "example.net"),
    ];
    let counts =
        refresh_with(&mut table, &mut scheduler, &entries, 1000, 60, 3600, &jitters(4)).unwrap();
    assert_eq!(counts, RefreshCounts { total: 3, added: 1, updated: 1, removed: 1 });
    assert!(table.get("c").is_none());
    assert!(table.get("").is_none());
    let a = table.get("a").unwrap();
    assert!(a.has_emitted_state);
    assert_eq!((a.next_due, a.next_query_attempt), (107, 100));
    let b = table.get("b").unwrap();
    assert!(!b.has_emitted_state);
    assert_eq!((b.host.as_str(), b.port, b.next_query_attempt), ("example.org", Some(1), 1000));
    assert_eq!((b.initial_failures, b.next_due), (4, 107));
    let d = table.get("d").unwrap();
    assert_eq!(d.next_due, 1004);
    assert_eq!(drain(&mut scheduler), vec![("d".to_string(), 1004)]);
}

#[test]
fn a_refresh_without_entries_fails_and_changes_nothing() {
    let mut table = states(&["a"]);
    let mut scheduler = SchedulerHandle::new();
    assert!(refresh_servers_once(&mut table, &mut scheduler, &Vec::new(), 1, 60, 3600).is_none());
    assert!(table.has("a"));
    assert_eq!(refresh_delay(false, 300, 30), 30);
    assert_eq!(refresh_delay(true, 300, 30), 300);
}

#[test]
fn a_refresh_repeated_changes_nothing() {
    let mut table = Table::new();
    let mut scheduler = SchedulerHandle::new();
    let entries = vec![entry("a", "example.com"), entry("b", "1.2.3.4")];
    let first = refresh_servers_once(&mut table, &mut scheduler, &entries, 10, 60, 3600).unwrap();
    assert_eq!(first, RefreshCounts { total: 2, added: 2, updated: 0, removed: 0 });
    let due = table.get("a").unwrap().next_due;
    let probe = table.get("a").unwrap().next_bedrock_probe;
    let again = refresh_servers_once(&mut table, &mut scheduler, &entries, 99, 60, 3600).unwrap();
    assert_eq!(again, RefreshCounts { total: 2, added: 0, updated: 0, removed: 0 });
    assert_eq!(table.get("a").unwrap().next_due, due);
    assert_eq!(table.get("a").unwrap().next_bedrock_probe, probe);
    assert_eq!(drain(&mut scheduler).len(), 2);
}

#[test]
fn a_silent_plugin_makes_its_server_due() {
    let mut table = states(&["a"]);
    let mut scheduler = SchedulerHandle::new();
    let entries = vec![CatalogEntry { server: server("a", "example.com"), fallback_mode: true }];
    refresh_with(&mut table, &mut scheduler, &entries, 1000, 60, 3600, &jitters(1)).unwrap();
    assert_eq!(table.get("a").unwrap().next_due, 1000);
    refresh_with(&mut table, &mut scheduler, &entries, 2000, 60, 3600, &jitters(1)).unwrap();
    assert_eq!(table.get("a").unwrap().next_due, 1000);
    assert_eq!(drain(&mut scheduler), vec![("a".to_string(), 1000)]);
}

#[test]
fn probes_end_where_they_are_not_wanted() {
    let mut table = states(&["a"]);
    let mut scheduler = SchedulerHandle::new();
    assert_eq!(table.get("a").unwrap().next_bedrock_probe, Some(108));
    let entries = vec![entry("a", "example.com")];
    refresh_with(&mut table, &mut scheduler, &entries, 1000, 60, 0, &jitters(1)).unwrap();
    assert_eq!(table.get("a").unwrap().next_bedrock_probe, None);
    refresh_with(&mut table, &mut scheduler, &entries, 2000, 60, 3600, &jitters(1)).unwrap();
    assert_eq!(table.get("a").unwrap().next_bedrock_probe, Some(2010));
}

#[test]
fn force_pings() {
    let mut table = states(&["a"]);
    let mut scheduler = SchedulerHandle::new();
    assert!(matches!(force_ping(&mut table, &mut scheduler, "  ", 5), ForcePing::Ignored));
    assert!(matches!(force_ping(&mut table, &mut scheduler, " a\n", 5), ForcePing::Scheduled));
    assert_eq!(table.get("a").unwrap().next_due, 5);
    match force_ping(&mut table, &mut scheduler, " z ", 6) {
        ForcePing::Unknown(key) => assert_eq!(key, "z"),
        other => panic!("{other:?}"),
    }
    let jitter = Jitter { due: 3, probe: 4 };
    let target = "z".to_string();
    let fetched = entry("zz", "example.com");
    force_ping_fetched_with(&mut table, &mut scheduler, target, fetched, 6, 60, 3600, jitter);
    assert_eq!(table.get("z").unwrap().next_due, 6);
    assert_eq!(drain(&mut scheduler), vec![("a".to_string(), 5), ("zz".to_string(), 6)]);
    let fetched = entry("y", "example.com");
    force_ping_fetched(&mut table, &mut scheduler, "y".to_string(), fetched, 6, 60, 3600);
    // The poll that was scheduled is the one that is wanted.
    let polls = drain(&mut scheduler);
    assert_eq!(polls, vec![("y".to_string(), 6)]);
    assert!(is_wanted(&table, &polls[0].0, polls[0].1));
}

#[test]
fn pages_are_fetched_until_the_total() {
    let mut fetch = CatalogFetch::new();
    assert_eq!(fetch.next_url("http://api", 100), "http://api/internal/servers?page=1&limit=100");
    fetch.take_reply(Some(ServerListResponse { items: vec![server("a", "x")], total: 2 }));
    assert_eq!(fetch.next_url("http://api", 100), "http://api/internal/servers?page=2&limit=100");
    fetch.take_reply(Some(ServerListResponse { items: vec![server("b", "x")], total: 2 }));
    assert_eq!(
        fetch.next_url("http://api", 100),
        "http://api/internal/servers?page=1&limit=100&role=subserver"
    );
    assert!(!fetch.done);
    fetch.take_reply(Some(ServerListResponse { items: vec![server("c", "x")], total: 3 }));
    assert!(!fetch.done);
    fetch.take_reply(None);
    assert!(fetch.done);
    let ids: Vec<String> = fetch.servers.iter().map(server_poller::models::id_text).collect();
    assert_eq!(ids, vec!["a", "b", "c"]);
}

#[test]
fn one_server_by_its_id() {
    assert_eq!(server_url("http://api", " 5 "), Some("http://api/internal/servers/5".to_string()));
    assert_eq!(server_url("http://api", "  "), None);
}

#[test]
fn probe_requests_are_checked() {
    let request = |id: &str, host: &str, edition: Option<&str>| DiscoveryProbeRequest {
        candidate_id: id.to_string(),
        host: host.to_string(),
        port: Some(1),
        edition: edition.map(|e| e.to_string()),
    };
    assert!(check_probe_request(request(" ", "h", None)).is_none());
    assert!(check_probe_request(request("c", " ", None)).is_none());
    let c = check_probe_request(request(" c", " h ", Some("BedRock"))).unwrap();
    assert_eq!((c.candidate_id.as_str(), c.host.as_str()), (" c", "h"));
    assert_eq!(c.edition, Edition::Bedrock);
    assert_eq!(check_probe_request(request("c", "h", Some("x"))).unwrap().edition, Edition::Java);
    assert_eq!(check_probe_request(request("c", "h", None)).unwrap().edition, Edition::Java);
}

#[test]
fn probe_responses() {
    let candidate = Candidate {
        candidate_id: "c1".to_string(),
        host: "h".to_string(),
        port: None,
        edition: Edition::Java,
    };
    let failed = poll_result("c1", "t", "", "", &None);
    let text = json_text(&probe_response(&candidate, &failed, "now", 12));
    assert_eq!(
        text,
        concat_lines(&[
            r#"{"candidate_id":"c1","edition":"java","elapsed_ms":12,"error":"probe failed","#,
            r#""favicon":"","host":"h","max_players":null,"motd":"","online":null,"port":null,"#,
            r#""probed_at":"now","status_ok":false,"version":""}"#,
        ])
    );
    assert_eq!(probe_result_key("prefix:", "c1"), "prefix:c1");
    assert_eq!(probe_result_ttl(5), 60);
    assert_eq!(probe_result_ttl(61), 61);
}

fn concat_lines(lines: &[&str]) -> String {
    lines.concat()
}

#[test]
fn waiting_times() {
    assert_eq!(trigger_interval(-1), 500_000_000);
    assert_eq!(trigger_interval(2_000_000_000), 2_000_000_000);
    assert_eq!(pop_timeout_seconds(400_000_000), 0);
    assert_eq!(pop_timeout_seconds(1_900_000_000), 1);
}

#[test]
fn listed_ids_are_read_back() {
    let ids: Vec<String> = ["b", "all", "a", "b", "é", "*"].iter().map(|s| s.to_string()).collect();
    assert_eq!(parse_trigger_content(&ids.join(",")).unwrap(), ids);
    assert_eq!(parse_trigger_content(&ids.join(" ")).unwrap(), ids);
    assert_eq!(parse_trigger_content("aLl"), None);
}

#[test]
fn a_failed_page_ends_its_own_list_alone() {
    let mut fetch = CatalogFetch::new();
    let page = |id: &str, total: u64| {
        Some(ServerListResponse { items: vec![server(id, "x")], total })
    };
    for reply in [page("a", 9), page("b", 9), None, page("c", 2), page("d", 2)] {
        assert!(!fetch.done);
        fetch.take_reply(reply);
    }
    assert!(fetch.done);
    let ids: Vec<String> = fetch.servers.iter().map(server_poller::models::id_text).collect();
    assert_eq!(ids, vec!["a", "b", "c", "d"]);
}

#[test]
fn lists_with_other_scripts_are_read_back() {
    assert_eq!(parse_trigger_content("ÀLL,İ").unwrap(), vec!["ÀLL", "İ"]);
    assert_eq!(parse_trigger_content("ÀLL").unwrap(), vec!["ÀLL"]);
}
