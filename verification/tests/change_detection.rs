use server_poller::change_detection::{
    build_change_payload, extract_players, players_hash, EventType,
};
use server_poller::json::{json_text, parse_json, Json};
use server_poller::models::{build_state, ServerState};

fn state() -> ServerState {
    build_state(parse_json(r#"{"id":"7","ip_or_domain":"example.com"}"#).unwrap(), 0, 1, 0)
}

fn up(online: u64, motd: &str, players: &str) -> Json {
    parse_json(&format!(
        r#"{{"collected_at":"t","online":{online},"max_players":20,"version":" 1.20 ","motd":"{motd}","country":"France","country_code":"FR","extra":{{"players":{players}}}}}"#
    ))
    .unwrap()
}

fn event(report: &Json) -> String {
    report.text_at("event_type").unwrap().to_string()
}

#[test]
fn the_first_report_is_full() {
    let mut state = state();
    let report = build_change_payload(&mut state, &up(3, "hi", r#"["b"," a","b",1]"#), true);
    assert_eq!(
        json_text(&report.unwrap()),
        [
            r#"{"collected_at":"t","country":"France","country_code":"FR","event_type":"state_full","#,
            r#""extra":{"players":["b","a"],"poll_status":"ok"},"max_players":20,"motd":"hi","#,
            r#""online":3,"server_id":"7","version":"1.20"}"#,
        ]
        .concat()
    );
    assert_eq!(state.last_emitted_version.as_deref(), Some("1.20"));
}

#[test]
fn an_unchanged_poll_is_silent() {
    let mut state = state();
    let payload = up(3, "hi", "[]");
    assert!(build_change_payload(&mut state, &payload, true).is_some());
    assert!(build_change_payload(&mut state, &payload, true).is_none());
}

#[test]
fn changes_are_named() {
    let mut state = state();
    build_change_payload(&mut state, &up(3, "hi", "[]"), true).unwrap();
    let report = build_change_payload(&mut state, &up(4, "hi", "[]"), true).unwrap();
    assert_eq!(event(&report), "online_changed");
    let report = build_change_payload(&mut state, &up(4, "new", "[]"), true).unwrap();
    assert_eq!(event(&report), "state_updated");
    let report = build_change_payload(&mut state, &up(4, "new", r#"["x"]"#), true).unwrap();
    assert_eq!(event(&report), "state_updated");
    let report = build_change_payload(&mut state, &Json::Null, false).unwrap();
    assert_eq!(event(&report), "server_down");
    assert_eq!(report.i64_at("online"), Some(0));
    assert_eq!(report.text_at("motd"), Some("new"));
    assert_eq!(report.text_at("country"), Some("France"));
    assert_eq!(json_text(report.get("extra").unwrap()), r#"{"poll_status":"failed"}"#);
    assert_eq!(json_text(report.get("collected_at").unwrap()), "null");
    assert!(build_change_payload(&mut state, &Json::Null, false).is_none());
    let report = build_change_payload(&mut state, &up(4, "new", r#"["x"]"#), true).unwrap();
    assert_eq!(event(&report), "server_up");
}

#[test]
fn a_reset_calls_for_a_full_report() {
    let mut state = state();
    let payload = up(3, "hi", "[]");
    build_change_payload(&mut state, &payload, true).unwrap();
    state.reset_emitted();
    let report = build_change_payload(&mut state, &payload, true).unwrap();
    assert_eq!(event(&report), "state_full");
}

#[test]
fn plugin_managed_servers_are_compared() {
    let mut state = state();
    state.plugin_managed = true;
    let report = build_change_payload(&mut state, &up(3, "hi", "[]"), true).unwrap();
    assert_eq!(
        json_text(report.get("extra").unwrap()),
        r#"{"compare_probe":true,"poll_status":"ok"}"#
    );
}

#[test]
fn player_lists_are_hashed() {
    let names = |list: &[&str]| list.iter().map(|s| s.to_string()).collect::<Vec<_>>();
    assert_eq!(players_hash(&Vec::new()), None);
    assert_eq!(
        players_hash(&names(&["Alex", "Steve"])).as_deref(),
        Some("7f30becbcd12955e49ced82dc69839213598313b1165c554dc4c6d45a0316ebb")
    );
    assert_ne!(players_hash(&names(&["a"])), players_hash(&names(&["b"])));
    let extra = parse_json(r#"{"players":[" x ","",3,"y","x"]}"#).unwrap();
    assert_eq!(extract_players(&extra), names(&["x", "y"]));
    assert_eq!(extract_players(&parse_json(r#"{"players":{}}"#).unwrap()), names(&[]));
    assert_eq!(extract_players(&Json::Null), names(&[]));
}

#[test]
fn events_have_their_names() {
    assert_eq!(EventType::StateFull.as_str(), "state_full");
    assert_eq!(EventType::ServerUp.as_str(), "server_up");
    assert_eq!(EventType::ServerDown.as_str(), "server_down");
    assert_eq!(EventType::OnlineChanged.as_str(), "online_changed");
    assert_eq!(EventType::StateUpdated.as_str(), "state_updated");
}
