use server_poller::json::{json_text, parse_json};
use server_poller::models::{build_state, ServerState};
use server_poller::ping::{
    bedrock_probe_port, collected_at, edition_patch, encode_favicon, favicon_data_url, favicon_hash,
    favicon_upload, favicon_uploaded, finish_probe, finish_probe_with, poll_result, probed_at,
    StatusReply,
};

fn state(text: &str) -> ServerState {
    build_state(parse_json(text).unwrap(), 0, 1, 3600)
}

#[test]
fn a_reply_becomes_a_payload() {
    let reply = StatusReply {
        online: 3,
        max_players: 20,
        version: "1.20".to_string(),
        motd: Some("hi".to_string()),
        favicon: Some(vec![1, 2, 3]),
        sample: Some(vec![" a ".to_string(), "".to_string(), "b".to_string(), "a".to_string()]),
    };
    let result = poll_result("7", "t", "France", "FR", &Some(reply));
    assert!(result.status_ok);
    assert_eq!(result.favicon, "data:image/png;base64,AQID");
    assert_eq!(
        json_text(&result.payload),
        [
            r#"{"collected_at":"t","country":"France","country_code":"FR","#,
            r#""extra":{"players":["a","b"]},"max_players":20,"motd":"hi","online":3,"#,
            r#""server_id":"7","version":"1.20"}"#,
        ]
        .concat()
    );
}

#[test]
fn a_bare_reply_has_no_players_and_no_favicon() {
    let reply = StatusReply {
        online: 0,
        max_players: 0,
        version: String::new(),
        motd: None,
        favicon: Some(Vec::new()),
        sample: None,
    };
    let result = poll_result("7", "t", "", "", &Some(reply));
    assert_eq!(result.favicon, "");
    assert_eq!(json_text(result.payload.get("extra").unwrap()), "{}");
    assert_eq!(result.payload.text_at("motd"), Some(""));
}

#[test]
fn no_reply_becomes_a_failure() {
    let result = poll_result("7", "t", "France", "FR", &None);
    assert!(!result.status_ok);
    assert_eq!(
        json_text(&result.payload),
        [
            r#"{"collected_at":"t","country":"France","country_code":"FR","max_players":null,"#,
            r#""motd":"","online":null,"server_id":"7","version":""}"#,
        ]
        .concat()
    );
}

#[test]
fn favicons_are_encoded() {
    assert_eq!(encode_favicon(&Some(vec![255, 254])), "data:image/png;base64,//4=");
    assert_eq!(encode_favicon(&None), "");
    assert_eq!(favicon_data_url("x"), "data:image/png;base64,x");
}

#[test]
fn favicons_are_hashed() {
    assert_eq!(
        favicon_hash("data:image/png;base64,AQID").as_deref(),
        Some("8a37c75fc31bfff9652678f50164cf27b31c787b8a946f87f1cd3cbf61365db1")
    );
    assert_eq!(favicon_hash(""), None);
    assert_eq!(favicon_hash("http://x"), None);
}

#[test]
fn a_favicon_is_uploaded_once() {
    let mut state = state(r#"{"id":"7"}"#);
    let favicon = "data:image/png;base64,AQID";
    assert!(favicon_upload(&state, favicon, "http://api", false).is_none());
    assert!(favicon_upload(&state, "nothing", "http://api", true).is_none());
    let upload = favicon_upload(&state, favicon, "http://api", true).unwrap();
    assert_eq!(upload.url, "http://api/internal/servers/7/favicon");
    assert_eq!(
        json_text(&upload.body),
        format!(r#"{{"data_url":"{favicon}","hash":"{}"}}"#, upload.hash)
    );
    favicon_uploaded(&mut state, upload, false);
    let upload = favicon_upload(&state, favicon, "http://api", true).unwrap();
    favicon_uploaded(&mut state, upload, true);
    assert!(favicon_upload(&state, favicon, "http://api", true).is_none());
    assert!(favicon_upload(&state, "data:image/x", "http://api", true).is_some());
}

#[test]
fn probes_have_a_port_and_an_outcome() {
    let mut state = state(r#"{"id":"7","game_edition":"java"}"#);
    assert_eq!(bedrock_probe_port(&state), Some(19132));
    state.bedrock_port = Some(5);
    assert_eq!(bedrock_probe_port(&state), Some(5));
    assert!(edition_patch(&state, "http://api", true, false).is_none());
    assert!(edition_patch(&state, "http://api", false, true).is_none());
    let patch = edition_patch(&state, "http://api", true, true).unwrap();
    assert_eq!(patch.url, "http://api/internal/servers/7/edition");
    assert_eq!(json_text(&patch.body), r#"{"game_edition":"java_bedrock"}"#);
    finish_probe_with(&mut state, false, 3600, 600, 0);
    assert_eq!(state.next_bedrock_probe, Some(3_600_000_000_000));
    finish_probe(&mut state, true, 3600, 600);
    assert_eq!(state.next_bedrock_probe, None);
    assert_eq!(state.server.text_at("game_edition"), Some("java_bedrock"));
    assert_eq!(bedrock_probe_port(&state), None);
}

#[test]
fn times_are_written() {
    assert_eq!(collected_at(0, 0).as_deref(), Some("1970-01-01T00:00:00.000000"));
    assert_eq!(
        collected_at(1_700_000_000, 123_456_789).as_deref(),
        Some("2023-11-14T22:13:20.123456")
    );
    assert_eq!(
        probed_at(1_700_000_000, 123_456_789).as_deref(),
        Some("2023-11-14T22:13:20.123456789+00:00")
    );
    assert_eq!(collected_at(i64::MAX, 0), None);
    assert_eq!(probed_at(0, 2_000_000_000), None);
}
