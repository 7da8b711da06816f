use server_poller::grpc_clients::{
    catalog_item_to_value, value_to_ingest_point, ServerCatalogItem,
};
use server_poller::json::{json_text, parse_json};
use server_poller::models::{id_text, poll_target};

#[test]
fn reports_become_rows() {
    let row = parse_json(
        r#"{"server_id":"42","collected_at":"t","online":3,"max_players":4294967297,
            "online_delta":-4294967297,"version":"1","motd":7,"extra":{"b":[1],"a":null}}"#,
    )
    .unwrap();
    let point = value_to_ingest_point(&row);
    assert_eq!(point.server_id, 42);
    assert_eq!(point.collected_at.as_deref(), Some("t"));
    assert_eq!(point.online, Some(3));
    assert_eq!(point.max_players, Some(4294967297i64 as i32));
    assert_eq!(point.online_delta, Some(-4294967297i64 as i32));
    assert_eq!(point.version.as_deref(), Some("1"));
    assert_eq!(point.motd, None);
    assert_eq!(point.favicon, None);
    assert_eq!(point.extra_json.as_deref(), Some(r#"{"a":null,"b":[1]}"#));
}

#[test]
fn ids_and_extras_may_be_missing() {
    let id = |text: &str| value_to_ingest_point(&parse_json(text).unwrap()).server_id;
    assert_eq!(id(r#"{"server_id":-5}"#), -5);
    assert_eq!(id(r#"{"server_id":"x"}"#), 0);
    assert_eq!(id(r#"{"server_id":1.5}"#), 0);
    assert_eq!(id("{}"), 0);
    assert_eq!(value_to_ingest_point(&parse_json(r#"{"extra":null}"#).unwrap()).extra_json, None);
    assert_eq!(
        value_to_ingest_point(&parse_json(r#"{"online":2147483648}"#).unwrap()).online,
        Some(i32::MIN)
    );
}

#[test]
fn catalog_items_become_entries() {
    let item = ServerCatalogItem {
        id: 9,
        project_id: None,
        project_online_strategy: None,
        ip_or_domain: "1.2.3.4".to_string(),
        server_role: "main".to_string(),
        proxy_type: Some("velocity".to_string()),
        parent_id: Some(-1),
        ping_ip_or_domain: None,
        ping_port: Some(25566),
        bedrock_port: None,
        game_edition: "java".to_string(),
        is_verified: true,
        verification_source: Some("plugin".to_string()),
        verified_plugin_last_seen_at: None,
    };
    let value = catalog_item_to_value(&item);
    assert_eq!(id_text(&value), "9");
    assert_eq!(poll_target(&value).port, Some(25566));
    assert_eq!(
        json_text(&value),
        [
            r#"{"bedrock_port":null,"game_edition":"java","id":9,"ip_or_domain":"1.2.3.4","#,
            r#""is_verified":true,"parent_id":-1,"ping_ip_or_domain":null,"ping_port":25566,"#,
            r#""project_id":null,"project_online_strategy":null,"proxy_type":"velocity","#,
            r#""server_role":"main","verification_source":"plugin","#,
            r#""verified_plugin_last_seen_at":null}"#,
        ]
        .concat()
    );
}
