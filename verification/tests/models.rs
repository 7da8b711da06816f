use server_poller::json::{Json, JsonObject};
use server_poller::models::{
    build_state, build_state_with, edition_from_lowered, id_text, is_internal_only_host,
    is_plugin_managed, looks_like_ip, normalize_edition, parse_address, poll_target,
    resolve_state_ports, schedule_next_bedrock_probe, schedule_next_bedrock_probe_with,
    seed_bedrock_probe, seed_bedrock_probe_with, wants_bedrock_probe, Edition,
};

fn object(fields: Vec<(&str, Json)>) -> Json {
    let mut object = JsonObject::new();
    for (key, value) in fields {
        object.insert(key, value);
    }
    Json::Object(object)
}

#[test]
fn test_parse_address_simple() {
    let (host, port) = parse_address("mc.example.com");
    assert_eq!(host, "mc.example.com");
    assert_eq!(port, None);
}

#[test]
fn test_parse_address_with_port() {
    let (host, port) = parse_address("mc.example.com:25566");
    assert_eq!(host, "mc.example.com");
    assert_eq!(port, Some(25566));
}

#[test]
fn test_parse_address_ipv6_bracket() {
    let (host, port) = parse_address("[::1]:25565");
    assert_eq!(host, "::1");
    assert_eq!(port, Some(25565));
}

#[test]
fn test_parse_address_ipv6_no_port() {
    let (host, port) = parse_address("[::1]");
    assert_eq!(host, "::1");
    assert_eq!(port, None);
}

#[test]
fn test_parse_address_raw_ipv6() {
    // Raw IPv6 without brackets: multiple colons, no port parsing.
    let (host, port) = parse_address("2001:db8::1");
    assert_eq!(host, "2001:db8::1");
    assert_eq!(port, None);
}

#[test]
fn test_normalize_edition() {
    assert_eq!(normalize_edition(None), Edition::Java);
    assert_eq!(normalize_edition(Some("java")), Edition::Java);
    assert_eq!(normalize_edition(Some("Java")), Edition::Java);
    assert_eq!(normalize_edition(Some("bedrock")), Edition::Bedrock);
    assert_eq!(normalize_edition(Some("Bedrock")), Edition::Bedrock);
    assert_eq!(normalize_edition(Some("java_bedrock")), Edition::Java);
}

#[test]
fn test_is_plugin_managed() {
    let not_verified = object(vec![("is_verified", Json::Bool(false))]);
    assert!(!is_plugin_managed(&not_verified));

    let verified_no_source = object(vec![("is_verified", Json::Bool(true))]);
    assert!(!is_plugin_managed(&verified_no_source));

    let verified_plugin = object(vec![
        ("is_verified", Json::Bool(true)),
        ("verification_source", Json::text("plugin")),
    ]);
    assert!(is_plugin_managed(&verified_plugin));

    let verified_other = object(vec![
        ("is_verified", Json::Bool(true)),
        ("verification_source", Json::text("manual")),
    ]);
    assert!(!is_plugin_managed(&verified_other));
}

#[test]
fn test_is_internal_only_host() {
    assert!(is_internal_only_host("internal-server.local"));
    assert!(is_internal_only_host("INTERNAL-server.local"));
    assert!(!is_internal_only_host("mc.example.com"));
    assert!(!is_internal_only_host("192.168.1.1"));
}

#[test]
fn test_resolve_state_ports_ignores_default_java_for_hostname() {
    let server = object(vec![("ping_port", Json::unsigned(25565))]);
    let (port, _) = resolve_state_ports(&server, "mc.example.com", None, Edition::Java);
    // Should ignore 25565 for hostname to honor SRV.
    assert_eq!(port, None);
}

#[test]
fn test_resolve_state_ports_keeps_default_java_for_ip() {
    let server = object(vec![("ping_port", Json::unsigned(25565))]);
    let (port, _) = resolve_state_ports(&server, "192.168.1.1", None, Edition::Java);
    assert_eq!(port, Some(25565));
}

#[test]
fn test_resolve_state_ports_custom_port() {
    let server = object(vec![("ping_port", Json::unsigned(25566))]);
    let (port, _) = resolve_state_ports(&server, "mc.example.com", None, Edition::Java);
    assert_eq!(port, Some(25566));
}

#[test]
fn test_resolve_state_ports_bedrock_fallback() {
    let server = object(vec![("bedrock_port", Json::unsigned(19133))]);
    let (port, bedrock_port) =
        resolve_state_ports(&server, "mc.example.com", None, Edition::Bedrock);
    assert_eq!(port, Some(19133));
    assert_eq!(bedrock_port, Some(19133));
}

#[test]
fn test_wants_bedrock_probe() {
    let java = object(vec![("game_edition", Json::text("java"))]);
    assert!(wants_bedrock_probe(&java, 3600));

    let bedrock = object(vec![("game_edition", Json::text("bedrock"))]);
    assert!(!wants_bedrock_probe(&bedrock, 3600));

    // Disabled interval.
    assert!(!wants_bedrock_probe(&java, 0));
}

#[test]
fn test_build_state() {
    let server = object(vec![
        ("id", Json::text("12345")),
        ("ip_or_domain", Json::text("mc.example.com:25566")),
        ("game_edition", Json::text("java")),
    ]);
    let state = build_state(server, 100 * 1_000_000_000, 60, 3600);
    assert_eq!(state.server_id, "12345");
    assert_eq!(state.host, "mc.example.com");
    assert_eq!(state.port, Some(25566));
    assert_eq!(state.edition, Edition::Java);
    assert!(!state.has_emitted_state);
    assert!(state.next_due >= 100 * 1_000_000_000);
    assert!(state.next_due <= 160 * 1_000_000_000);
}

#[test]
fn addresses_with_odd_ports() {
    assert_eq!(parse_address("host:0"), ("host".to_string(), Some(0)));
    assert_eq!(parse_address("host:65535"), ("host".to_string(), Some(65535)));
    assert_eq!(parse_address("host:65536").1, None);
    assert_eq!(parse_address("host:x").1, None);
    assert_eq!(parse_address(""), (String::new(), None));
}

#[test]
fn written_addresses_are_read_back() {
    for port in [0u16, 1, 80, 25565, 65535] {
        let (host, read) = parse_address(&format!("mc.example.com:{port}"));
        assert_eq!((host.as_str(), read), ("mc.example.com", Some(port)));
        let (host, read) = parse_address(&format!("[2001:db8::1]:{port}"));
        assert_eq!((host.as_str(), read), ("2001:db8::1", Some(port)));
    }
}

#[test]
fn editions_have_their_names_and_ports() {
    assert_eq!(Edition::Java.as_str(), "java");
    assert_eq!(Edition::Bedrock.as_str(), "bedrock");
    assert_eq!(Edition::Java.default_port(), 25565);
    assert_eq!(Edition::Bedrock.default_port(), 19132);
    assert_eq!(edition_from_lowered("bedrock"), Edition::Bedrock);
    assert_eq!(edition_from_lowered("BEDROCK"), Edition::Java);
}

#[test]
fn ip_addresses_are_told_from_names() {
    for ip in [
        "1.2.3.4", "255.255.255.255", "::", "::1", "2001:db8::1", "1:2:3:4:5:6:7:8",
        "::ffff:1.2.3.4", "fe80::1", "1:2:3:4:5:6:1.2.3.4",
    ] {
        assert!(looks_like_ip(ip), "{ip}");
        assert!(ip.parse::<core::net::IpAddr>().is_ok(), "{ip}");
    }
    for name in [
        "", "1.2.3", "1.2.3.4.5", "256.1.1.1", "01.2.3.4", "1.2.3.+4", ":", ":::", "1::2::3",
        "1:2:3:4:5:6:7", "12345::", "g::", "mc.example.com", "1:2:3:4:5:6:7:8:9", "1.2.3.4::",
        "::1.2.3", "1:2:3:4:5:6:7::8",
    ] {
        assert_eq!(looks_like_ip(name), name.parse::<core::net::IpAddr>().is_ok(), "{name}");
    }
}

#[test]
fn random_texts_are_told_from_ip_addresses() {
    let alphabet: Vec<char> = "0129af:::...g".chars().collect();
    let mut seed: u64 = 1;
    let mut addresses = 0;
    for _ in 0..300_000 {
        let mut text = String::new();
        seed = seed.wrapping_mul(6364136223846793005).wrapping_add(1442695040888963407);
        let len = (seed >> 33) % 14;
        for _ in 0..len {
            seed = seed.wrapping_mul(6364136223846793005).wrapping_add(1442695040888963407);
            text.push(alphabet[(seed >> 33) as usize % alphabet.len()]);
        }
        let want = text.parse::<core::net::IpAddr>().is_ok();
        assert_eq!(looks_like_ip(&text), want, "{text}");
        addresses += want as u32;
    }
    assert!(addresses > 100);
}

#[test]
fn ids_are_numbers_or_texts() {
    assert_eq!(id_text(&object(vec![("id", Json::unsigned(7))])), "7");
    assert_eq!(id_text(&object(vec![("id", Json::text("x7"))])), "x7");
    assert_eq!(id_text(&object(vec![("id", Json::Bool(true))])), "true");
    assert_eq!(id_text(&object(vec![("id", Json::Null)])), "null");
    assert_eq!(id_text(&object(vec![])), "");
}

#[test]
fn the_ping_address_goes_before_the_other() {
    let server = object(vec![
        ("ping_ip_or_domain", Json::text("ping.example.com:1")),
        ("ip_or_domain", Json::text("example.com:2")),
    ]);
    let target = poll_target(&server);
    assert_eq!((target.host.as_str(), target.port), ("ping.example.com", Some(1)));
    let server = object(vec![
        ("ping_ip_or_domain", Json::text("")),
        ("ip_or_domain", Json::text("example.com:2")),
    ]);
    let target = poll_target(&server);
    assert_eq!((target.host.as_str(), target.port), ("example.com", Some(2)));
}

#[test]
fn plugin_sources_are_trimmed_and_lowered() {
    let server = object(vec![
        ("is_verified", Json::Bool(true)),
        ("verification_source", Json::text("  PLUGIN\n")),
    ]);
    assert!(is_plugin_managed(&server));
}

#[test]
fn first_probes_are_spread_over_the_interval() {
    let java = object(vec![]);
    let bedrock = object(vec![("game_edition", Json::text("bedrock"))]);
    assert_eq!(seed_bedrock_probe_with(&java, 5, 10, 3), Some(8));
    assert_eq!(seed_bedrock_probe_with(&bedrock, 5, 10, 3), None);
    for _ in 0..100 {
        let at = seed_bedrock_probe(&java, 1_000, 2).unwrap();
        assert!(at >= 1_000 && at < 2_000_001_000);
    }
    assert_eq!(seed_bedrock_probe(&bedrock, 1_000, 2), None);
}

#[test]
fn later_probes_deviate_but_leave_a_minute() {
    let java = object(vec![]);
    let half = 500_000_000;
    assert_eq!(
        schedule_next_bedrock_probe_with(&java, 7, 3600, 600, half),
        Some(7 + 3_900_000_000_000)
    );
    assert_eq!(
        schedule_next_bedrock_probe_with(&java, 7, 3600, 600, -1_000_000_000),
        Some(7 + 3_000_000_000_000)
    );
    assert_eq!(
        schedule_next_bedrock_probe_with(&java, 7, 100, 600, -1_000_000_000),
        Some(7 + 60_000_000_000)
    );
    for _ in 0..100 {
        let at = schedule_next_bedrock_probe(&java, 0, 3600, 600).unwrap();
        assert!(at >= 3_000_000_000_000 && at < 4_200_000_000_000);
    }
    assert_eq!(schedule_next_bedrock_probe(&java, 0, 0, 600), None);
}

#[test]
fn states_start_from_their_entry() {
    let server = object(vec![
        ("id", Json::unsigned(9)),
        ("ip_or_domain", Json::text("1.2.3.4")),
        ("is_verified", Json::Bool(true)),
        ("verification_source", Json::text("plugin")),
    ]);
    let state = build_state_with(server, 10, 60, 3600, 5, 6);
    assert_eq!(state.key, "9");
    assert_eq!(state.next_due, 15);
    assert_eq!(state.next_bedrock_probe, Some(16));
    assert_eq!(state.next_query_attempt, 10);
    assert!(state.plugin_managed);
    assert_eq!(state.consecutive_failures, 0);
    assert_eq!(state.last_emitted_up, None);
}

#[test]
fn reset_forgets_what_was_reported() {
    let mut state = build_state(object(vec![("id", Json::text("a"))]), 0, 1, 0);
    state.has_emitted_state = true;
    state.last_emitted_up = Some(true);
    state.last_emitted_online = Some(3);
    state.last_emitted_motd = Some("hi".to_string());
    state.has_succeeded = true;
    state.reset_emitted();
    assert!(!state.has_emitted_state);
    assert_eq!(state.last_emitted_up, None);
    assert_eq!(state.last_emitted_online, None);
    assert_eq!(state.last_emitted_motd, None);
    assert!(state.has_succeeded);
}
